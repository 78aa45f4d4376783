//! Tiles of the Web-Mercator tile pyramid.
//!
//! At zoom level `z` the world is cut into a square grid of `2^z` by `2^z`
//! tiles; `x` grows eastwards and `y` southwards.

use vstd::arithmetic::power2::{lemma2_to64, lemma_pow2_pos, lemma_pow2_strictly_increases, lemma_pow2_unfold, pow2};
use vstd::arithmetic::div_mod::lemma_fundamental_div_mod_converse;
use vstd::prelude::*;

verus! {

/// Deepest zoom level whose grid edge still fits in a `u32`.
pub const MAX_TILE_ZOOM: u8 = 31;

/// Number of tiles along one edge of the grid at `zoom`.
pub open spec fn grid_edge(zoom: nat) -> nat {
    pow2(zoom)
}

/// The grid edge grows with the zoom level and fits in a `u32` up to the deepest level.
pub proof fn lemma_grid_edge_bounds(zoom: nat)
    requires
        zoom <= MAX_TILE_ZOOM,
    ensures
        1 <= grid_edge(zoom) <= 0x8000_0000,
        zoom > 0 ==> grid_edge(zoom) == 2 * grid_edge((zoom - 1) as nat),
{
    lemma_pow2_pos(zoom);
    lemma2_to64();
    if zoom < 31 {
        lemma_pow2_strictly_increases(zoom, 31);
    }
    if zoom > 0 {
        lemma_pow2_unfold(zoom);
    }
}

/// Mathematical model of a tile address.
pub ghost struct TileSpec {
    pub x: nat,
    pub y: nat,
    pub zoom: nat,
}

impl TileSpec {
    /// Inside the grid of its zoom level, at a zoom level the grid can address.
    pub open spec fn valid(self) -> bool {
        &&& self.zoom <= MAX_TILE_ZOOM
        &&& self.x < grid_edge(self.zoom)
        &&& self.y < grid_edge(self.zoom)
    }

    /// The tile one level up that covers this one.
    pub open spec fn parent(self) -> TileSpec
        recommends
            self.zoom > 0,
    {
        TileSpec { x: self.x / 2, y: self.y / 2, zoom: (self.zoom - 1) as nat }
    }

    /// Whether `c` is one of the four tiles one level down that this tile covers.
    pub open spec fn is_child(self, c: TileSpec) -> bool {
        &&& c.zoom == self.zoom + 1
        &&& c.x / 2 == self.x
        &&& c.y / 2 == self.y
    }

    /// The child at offset (`dx`, `dy`), each 0 or 1.
    pub open spec fn child(self, dx: nat, dy: nat) -> TileSpec {
        TileSpec { x: 2 * self.x + dx, y: 2 * self.y + dy, zoom: self.zoom + 1 }
    }

    /// Whether the two tiles share an edge on the same grid.
    pub open spec fn adjacent(self, o: TileSpec) -> bool {
        &&& self.zoom == o.zoom
        &&& {
            ||| self.x == o.x && (self.y + 1 == o.y || o.y + 1 == self.y)
            ||| self.y == o.y && (self.x + 1 == o.x || o.x + 1 == self.x)
        }
    }
}

/// Weight of the zoom level in a tile key.
pub const KEY_ZOOM_UNIT: u128 = 0x1_0000_0000_0000_0000;

/// Weight of the column in a tile key.
pub const KEY_X_UNIT: u128 = 0x1_0000_0000;

/// A single integer naming a tile: zoom, column and row side by side.
pub open spec fn tile_key(t: TileSpec) -> u128 {
    (t.zoom * KEY_ZOOM_UNIT + t.x * KEY_X_UNIT + t.y) as u128
}

/// The zoom level recorded in a tile key.
pub open spec fn key_zoom(k: u128) -> nat {
    (k / KEY_ZOOM_UNIT) as nat
}

/// Distinct tiles of the pyramid have distinct keys, and a key records its tile's zoom level.
pub proof fn lemma_tile_key(a: TileSpec, b: TileSpec)
    requires
        a.valid(),
        b.valid(),
    ensures
        key_zoom(tile_key(a)) == a.zoom,
        tile_key(a) == tile_key(b) <==> a == b,
{
    lemma_grid_edge_bounds(a.zoom);
    lemma_grid_edge_bounds(b.zoom);
    let ka = a.zoom * KEY_ZOOM_UNIT + a.x * KEY_X_UNIT + a.y;
    let kb = b.zoom * KEY_ZOOM_UNIT + b.x * KEY_X_UNIT + b.y;
    let la = a.x * KEY_X_UNIT + a.y;
    let lb = b.x * KEY_X_UNIT + b.y;
    assert(0 <= la < KEY_ZOOM_UNIT) by (nonlinear_arith)
        requires la == a.x * KEY_X_UNIT + a.y, a.x < 0x1_0000_0000, a.y < 0x1_0000_0000, KEY_X_UNIT == 0x1_0000_0000, KEY_ZOOM_UNIT == 0x1_0000_0000_0000_0000;
    assert(0 <= lb < KEY_ZOOM_UNIT) by (nonlinear_arith)
        requires lb == b.x * KEY_X_UNIT + b.y, b.x < 0x1_0000_0000, b.y < 0x1_0000_0000, KEY_X_UNIT == 0x1_0000_0000, KEY_ZOOM_UNIT == 0x1_0000_0000_0000_0000;
    assert(ka < 0x1_0000_0000_0000_0000_0000_0000_0000_0000) by (nonlinear_arith)
        requires ka == a.zoom * KEY_ZOOM_UNIT + la, a.zoom <= 31, la < KEY_ZOOM_UNIT, KEY_ZOOM_UNIT == 0x1_0000_0000_0000_0000;
    assert(kb < 0x1_0000_0000_0000_0000_0000_0000_0000_0000) by (nonlinear_arith)
        requires kb == b.zoom * KEY_ZOOM_UNIT + lb, b.zoom <= 31, lb < KEY_ZOOM_UNIT, KEY_ZOOM_UNIT == 0x1_0000_0000_0000_0000;
    lemma_fundamental_div_mod_converse(ka, KEY_ZOOM_UNIT as int, a.zoom as int, la);
    if tile_key(a) == tile_key(b) {
        lemma_fundamental_div_mod_converse(kb, KEY_ZOOM_UNIT as int, b.zoom as int, lb);
        lemma_fundamental_div_mod_converse(la, KEY_X_UNIT as int, a.x as int, a.y as int);
        lemma_fundamental_div_mod_converse(lb, KEY_X_UNIT as int, b.x as int, b.y as int);
    }
}

/// The pyramid is consistent: every tile of the grid is one of the four children
/// of its parent, and the four children of a tile are exactly the tiles one level
/// down that it covers, all inside their grid.
pub proof fn lemma_pyramid(t: TileSpec, c: TileSpec)
    requires
        t.valid(),
    ensures
        t.zoom > 0 ==> t.parent().valid() && t.parent().is_child(t),
        t.zoom > 0 ==> t == t.parent().child(t.x % 2, t.y % 2),
        t.is_child(c) <==> (c == t.child(0, 0) || c == t.child(1, 0) || c == t.child(0, 1) || c
            == t.child(1, 1)),
        t.zoom < MAX_TILE_ZOOM ==> {
            &&& t.child(0, 0).valid()
            &&& t.child(1, 0).valid()
            &&& t.child(0, 1).valid()
            &&& t.child(1, 1).valid()
        },
{
    lemma_grid_edge_bounds(t.zoom);
    if t.zoom < MAX_TILE_ZOOM {
        lemma_grid_edge_bounds(t.zoom + 1);
    }
}

/// The addresses of a sequence of tiles.
pub open spec fn specs_of(tiles: Seq<TileId>) -> Seq<TileSpec> {
    tiles.map_values(|t: TileId| t@)
}

/// Number of tiles along one edge of the grid at `zoom`.
pub fn total_tiles(zoom: u8) -> (r: u32)
    requires
        zoom <= MAX_TILE_ZOOM,
    ensures
        r == grid_edge(zoom as nat),
{
    let mut r: u32 = 1;
    let mut i: u8 = 0;
    proof {
        lemma_grid_edge_bounds(0);
        assert(pow2(0) == 1) by { lemma2_to64(); }
    }
    while i < zoom
        invariant
            i <= zoom <= MAX_TILE_ZOOM,
            r == grid_edge(i as nat),
        decreases zoom - i,
    {
        proof {
            lemma_grid_edge_bounds((i + 1) as nat);
        }
        r = r * 2;
        i = i + 1;
    }
    r
}

/// Identifies the tile in the tile grid.
#[derive(Debug, PartialEq, Eq, Hash, Clone, Copy, Structural)]
pub struct TileId {
    /// X number of the tile.
    x: u32,
    /// Y number of the tile.
    y: u32,
    /// Zoom level, where 0 means no zoom.
    zoom: u8,
}

impl View for TileId {
    type V = TileSpec;

    closed spec fn view(&self) -> TileSpec {
        TileSpec { x: self.x as nat, y: self.y as nat, zoom: self.zoom as nat }
    }
}

impl TileId {
    /// Every tile lies inside the grid of its zoom level.
    #[verifier::type_invariant]
    pub open spec fn inv(self) -> bool {
        self@.valid()
    }

    /// Two tiles with the same address are the same value.
    pub proof fn lemma_view_injective(self, other: TileId)
        ensures
            self@ == other@ <==> self == other,
    {
    }

    /// The tile at (`x`, `y`), each clamped into the grid of `zoom`.
    pub fn new(x: u32, y: u32, zoom: u8) -> (r: TileId)
        requires
            zoom <= MAX_TILE_ZOOM,
        ensures
            r@.zoom == zoom,
            r@.x == if x < grid_edge(zoom as nat) { x as nat } else { (grid_edge(zoom as nat) - 1) as nat },
            r@.y == if y < grid_edge(zoom as nat) { y as nat } else { (grid_edge(zoom as nat) - 1) as nat },
    {
        let num_tiles = total_tiles(zoom);
        proof {
            lemma_grid_edge_bounds(zoom as nat);
        }
        let cx = if x < num_tiles { x } else { num_tiles - 1 };
        let cy = if y < num_tiles { y } else { num_tiles - 1 };
        TileId { x: cx, y: cy, zoom }
    }

    /// The key of this tile, see [`tile_key`].
    pub fn key(&self) -> (r: u128)
        ensures
            r == tile_key(self@),
    {
        proof {
            use_type_invariant(self);
            lemma_grid_edge_bounds(self.zoom as nat);
            assert((self.x as u128) * KEY_X_UNIT + (self.y as u128) < KEY_ZOOM_UNIT) by (nonlinear_arith)
                requires (self.x as int) < 0x1_0000_0000, (self.y as int) < 0x1_0000_0000, KEY_X_UNIT == 0x1_0000_0000, KEY_ZOOM_UNIT == 0x1_0000_0000_0000_0000;
            assert((self.zoom as u128) * KEY_ZOOM_UNIT <= 31 * KEY_ZOOM_UNIT) by (nonlinear_arith)
                requires (self.zoom as int) <= 31;
        }
        self.zoom as u128 * KEY_ZOOM_UNIT + (self.x as u128 * KEY_X_UNIT + self.y as u128)
    }

    pub fn x(&self) -> (r: u32)
        ensures
            r == self@.x,
    {
        self.x
    }

    pub fn y(&self) -> (r: u32)
        ensures
            r == self@.y,
    {
        self.y
    }

    pub fn x_y(&self) -> (r: (u32, u32))
        ensures
            r.0 == self@.x,
            r.1 == self@.y,
    {
        (self.x, self.y)
    }

    pub fn zoom(&self) -> (r: u8)
        ensures
            r == self@.zoom,
    {
        self.zoom
    }

    /// The lower-zoom tile that covers this one; `None` at zoom 0.
    pub fn downsample(&self) -> (r: Option<TileId>)
        ensures
            self@.zoom == 0 <==> r is None,
            r matches Some(p) ==> p@ == self@.parent(),
    {
        proof {
            use_type_invariant(self);
        }
        if self.zoom == 0 {
            None
        } else {
            proof {
                lemma_grid_edge_bounds(self.zoom as nat);
            }
            Some(TileId { x: self.x / 2, y: self.y / 2, zoom: self.zoom - 1 })
        }
    }

    /// The four tiles one level down that this tile covers, in the order
    /// north-west, north-east, south-west, south-east.
    pub fn children(&self) -> (r: [TileId; 4])
        requires
            self@.zoom < MAX_TILE_ZOOM,
        ensures
            r[0]@ == self@.child(0, 0),
            r[1]@ == self@.child(1, 0),
            r[2]@ == self@.child(0, 1),
            r[3]@ == self@.child(1, 1),
    {
        proof {
            use_type_invariant(self);
            lemma_grid_edge_bounds((self.zoom + 1) as nat);
        }
        let zoom = self.zoom + 1;
        let x = 2 * self.x;
        let y = 2 * self.y;
        [
            TileId { x, y, zoom },
            TileId { x: x + 1, y, zoom },
            TileId { x, y: y + 1, zoom },
            TileId { x: x + 1, y: y + 1, zoom },
        ]
    }

    /// The neighbour with the next larger `x`, if the grid has one.
    pub fn east(&self) -> (r: Option<TileId>)
        ensures
            r is Some <==> self@.x + 1 < grid_edge(self@.zoom),
            r matches Some(t) ==> t@ == (TileSpec { x: self@.x + 1, ..self@ }),
    {
        proof {
            use_type_invariant(self);
        }
        if self.x < total_tiles(self.zoom) - 1 {
            Some(TileId { x: self.x + 1, y: self.y, zoom: self.zoom })
        } else {
            None
        }
    }

    /// The neighbour with the next smaller `x`, if the grid has one.
    pub fn west(&self) -> (r: Option<TileId>)
        ensures
            r is Some <==> self@.x > 0,
            r matches Some(t) ==> t@ == (TileSpec { x: (self@.x - 1) as nat, ..self@ }),
    {
        proof {
            use_type_invariant(self);
        }
        if self.x > 0 {
            Some(TileId { x: self.x - 1, y: self.y, zoom: self.zoom })
        } else {
            None
        }
    }

    /// The neighbour with the next smaller `y`, if the grid has one.
    pub fn north(&self) -> (r: Option<TileId>)
        ensures
            r is Some <==> self@.y > 0,
            r matches Some(t) ==> t@ == (TileSpec { y: (self@.y - 1) as nat, ..self@ }),
    {
        proof {
            use_type_invariant(self);
        }
        if self.y > 0 {
            Some(TileId { x: self.x, y: self.y - 1, zoom: self.zoom })
        } else {
            None
        }
    }

    /// The neighbour with the next larger `y`, if the grid has one.
    pub fn south(&self) -> (r: Option<TileId>)
        ensures
            r is Some <==> self@.y + 1 < grid_edge(self@.zoom),
            r matches Some(t) ==> t@ == (TileSpec { y: self@.y + 1, ..self@ }),
    {
        proof {
            use_type_invariant(self);
        }
        if self.y < total_tiles(self.zoom) - 1 {
            Some(TileId { x: self.x, y: self.y + 1, zoom: self.zoom })
        } else {
            None
        }
    }

    /// The neighbours in the order north, east, south, west.
    pub fn neighbors(&self) -> (r: [Option<TileId>; 4])
        ensures
            r[0] is Some <==> self@.y > 0,
            r[1] is Some <==> self@.x + 1 < grid_edge(self@.zoom),
            r[2] is Some <==> self@.y + 1 < grid_edge(self@.zoom),
            r[3] is Some <==> self@.x > 0,
            r[0] matches Some(t) ==> t@ == (TileSpec { y: (self@.y - 1) as nat, ..self@ }),
            r[1] matches Some(t) ==> t@ == (TileSpec { x: self@.x + 1, ..self@ }),
            r[2] matches Some(t) ==> t@ == (TileSpec { y: self@.y + 1, ..self@ }),
            r[3] matches Some(t) ==> t@ == (TileSpec { x: (self@.x - 1) as nat, ..self@ }),
    {
        [self.north(), self.east(), self.south(), self.west()]
    }

    /// Whether the tile lies inside the grid of its zoom level.
    pub fn valid(&self) -> (r: bool)
        ensures
            r == self@.valid(),
            r,
    {
        proof {
            use_type_invariant(self);
        }
        self.x < total_tiles(self.zoom) && self.y < total_tiles(self.zoom)
    }
}

} // verus!
