use slippery::{total_tiles, Action, InvalidZoom, TileId};

#[test]
fn total_tiles_doubles_per_level() {
    assert_eq!(total_tiles(0), 1);
    assert_eq!(total_tiles(1), 2);
    assert_eq!(total_tiles(12), 4096);
    assert_eq!(total_tiles(31), 2_147_483_648);
}

#[test]
fn new_clamps_into_the_grid() {
    let t = TileId::new(5, 9, 2);
    assert_eq!(t.x_y(), (3, 3));
    assert_eq!(t.zoom(), 2);
    let u = TileId::new(1, 2, 2);
    assert_eq!((u.x(), u.y()), (1, 2));
    let root = TileId::new(7, 7, 0);
    assert_eq!(root.x_y(), (0, 0));
    let deepest = TileId::new(u32::MAX, 0, 31);
    assert_eq!(deepest.x(), 2_147_483_647);
    assert!(deepest.valid());
}

#[test]
fn downsample_halves_the_address() {
    let t = TileId::new(5, 6, 3);
    let p = t.downsample().unwrap();
    assert_eq!((p.x(), p.y(), p.zoom()), (2, 3, 2));
    assert!(TileId::new(0, 0, 0).downsample().is_none());
}

#[test]
fn parent_has_tile_among_its_children() {
    for &(x, y, z) in &[(5u32, 6u32, 3u8), (0, 0, 1), (7, 7, 3), (1234, 77, 12)] {
        let t = TileId::new(x, y, z);
        let kids = t.downsample().unwrap().children();
        assert_eq!(kids.iter().filter(|k| **k == t).count(), 1);
    }
}

#[test]
fn children_are_the_four_covered_tiles() {
    let t = TileId::new(2, 1, 2);
    let kids = t.children();
    let addrs: Vec<(u32, u32, u8)> = kids.iter().map(|k| (k.x(), k.y(), k.zoom())).collect();
    assert_eq!(addrs, vec![(4, 2, 3), (5, 2, 3), (4, 3, 3), (5, 3, 3)]);
    for k in kids.iter() {
        assert!(k.valid());
        assert_eq!(k.downsample().unwrap(), t);
    }
}

#[test]
fn neighbours_stop_at_grid_edges() {
    let corner = TileId::new(0, 0, 1);
    let [n, e, s, w] = corner.neighbors();
    assert!(n.is_none());
    assert!(w.is_none());
    assert_eq!(e.unwrap().x_y(), (1, 0));
    assert_eq!(s.unwrap().x_y(), (0, 1));

    let other = TileId::new(1, 1, 1);
    assert!(other.east().is_none());
    assert!(other.south().is_none());
    assert_eq!(other.west().unwrap().x_y(), (0, 1));
    assert_eq!(other.north().unwrap().x_y(), (1, 0));

    let root = TileId::new(0, 0, 0);
    assert!(root.neighbors().iter().all(|n| n.is_none()));
}

#[test]
fn keys_are_distinct_per_tile() {
    let a = TileId::new(1, 2, 3);
    let b = TileId::new(2, 1, 3);
    let c = TileId::new(1, 2, 4);
    assert_ne!(a.key(), b.key());
    assert_ne!(a.key(), c.key());
    assert_eq!(a.key(), TileId::new(1, 2, 3).key());
    assert_eq!(c.key(), (4u128 << 64) | (1u128 << 32) | 2);
}

#[test]
fn action_capture_stops_propagation() {
    assert!(Action::<u8>::Ignore.propagates());
    assert!(Action::Publish(1u8).propagates());
    assert!(!Action::Capture(1u8).propagates());
}

#[test]
fn invalid_zoom_compares_equal() {
    assert_eq!(InvalidZoom, InvalidZoom);
}
