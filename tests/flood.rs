use slippery::{flood_tiles, tile_under, PixelRect, TileId};

const SIZE: u32 = 256;

fn overlaps(t: &TileId, v: &PixelRect) -> bool {
    let (x, y, s) = (t.x() as i64, t.y() as i64, SIZE as i64);
    x * s < v.right && (x + 1) * s > v.left && y * s < v.bottom && (y + 1) * s > v.top
}

fn brute_force(zoom: u8, v: &PixelRect) -> Vec<(u32, u32)> {
    let edge = slippery::total_tiles(zoom);
    let mut all = Vec::new();
    for x in 0..edge {
        for y in 0..edge {
            let t = TileId::new(x, y, zoom);
            if overlaps(&t, v) {
                all.push((x, y));
            }
        }
    }
    all.sort();
    all
}

fn sorted(tiles: &[TileId]) -> Vec<(u32, u32)> {
    let mut v: Vec<(u32, u32)> = tiles.iter().map(|t| t.x_y()).collect();
    v.sort();
    v
}

#[test]
fn paris_viewport_contains_its_centre_tile() {
    let (lon, lat) = (2.35f64, 48.85f64);
    let mx = lon.to_radians() / std::f64::consts::PI;
    let my = -lat.to_radians().tan().asinh() / std::f64::consts::PI;
    let zoom = 12u8;
    let world = slippery::total_tiles(zoom) as f64 * SIZE as f64;
    let cx = (mx + 1.0) / 2.0 * world;
    let cy = (my + 1.0) / 2.0 * world;
    let viewport = PixelRect {
        left: (cx - 400.0).floor() as i64,
        top: (cy - 300.0).floor() as i64,
        right: (cx + 400.0).ceil() as i64,
        bottom: (cy + 300.0).ceil() as i64,
    };
    let start = tile_under(cx as i64, cy as i64, SIZE, zoom);
    assert_eq!(start.x_y(), (2074, 1409));

    let tiles = flood_tiles(start, SIZE, viewport);
    assert!(tiles.contains(&start));
    let left = start.x() as f64 * SIZE as f64;
    let top = start.y() as f64 * SIZE as f64;
    assert!(left <= cx && cx < left + SIZE as f64);
    assert!(top <= cy && cy < top + SIZE as f64);
    assert_eq!(sorted(&tiles), brute_force_region(zoom, &viewport));
}

fn brute_force_region(zoom: u8, v: &PixelRect) -> Vec<(u32, u32)> {
    let edge = slippery::total_tiles(zoom) as i64;
    let s = SIZE as i64;
    let mut all = Vec::new();
    let x0 = (v.left.div_euclid(s) - 1).max(0);
    let x1 = (v.right.div_euclid(s) + 1).min(edge - 1);
    let y0 = (v.top.div_euclid(s) - 1).max(0);
    let y1 = (v.bottom.div_euclid(s) + 1).min(edge - 1);
    for x in x0..=x1 {
        for y in y0..=y1 {
            let t = TileId::new(x as u32, y as u32, zoom);
            if overlaps(&t, v) {
                all.push((x as u32, y as u32));
            }
        }
    }
    all.sort();
    all
}

#[test]
fn flood_matches_every_overlapping_tile_once() {
    let v = PixelRect { left: 300, top: -50, right: 1100, bottom: 700 };
    let start = TileId::new(2, 1, 3);
    let tiles = flood_tiles(start, SIZE, v);
    assert_eq!(sorted(&tiles), brute_force(3, &v));
    // Columns 1..=4 and rows 0..=2.
    assert_eq!(tiles.len(), 12);
}

#[test]
fn flood_clips_to_the_grid() {
    let v = PixelRect { left: -1000, top: -1000, right: 5000, bottom: 5000 };
    let tiles = flood_tiles(TileId::new(0, 0, 2), SIZE, v);
    assert_eq!(tiles.len(), 16);
}

#[test]
fn flood_from_a_tile_outside_the_view_is_empty() {
    let v = PixelRect { left: 0, top: 0, right: 100, bottom: 100 };
    let tiles = flood_tiles(TileId::new(3, 3, 3), SIZE, v);
    assert!(tiles.is_empty());
}

#[test]
fn touching_edges_do_not_overlap() {
    let v = PixelRect { left: 256, top: 256, right: 512, bottom: 512 };
    let tiles = flood_tiles(TileId::new(1, 1, 2), SIZE, v);
    assert_eq!(sorted(&tiles), vec![(1, 1)]);
}

#[test]
fn tile_under_clamps_outside_pixels() {
    assert_eq!(tile_under(-5, 300, SIZE, 2).x_y(), (0, 1));
    assert_eq!(tile_under(1023, 1024, SIZE, 2).x_y(), (3, 3));
    assert_eq!(tile_under(i64::MAX, i64::MIN, SIZE, 31).x_y(), (2_147_483_647, 0));
    assert_eq!(tile_under(511, 512, SIZE, 2).x_y(), (1, 2));
}
