//! Visibility search: which tiles of one zoom level overlap a viewport.
//!
//! The search starts at the tile under the viewport centre and spreads to grid
//! neighbours for as long as they overlap the viewport, with an explicit work
//! list and a visited set keyed by [`tile_key`].

use crate::tile::{
    grid_edge, lemma_grid_edge_bounds, lemma_tile_key, specs_of, tile_key, total_tiles, TileId,
    TileSpec, KEY_X_UNIT, KEY_ZOOM_UNIT, MAX_TILE_ZOOM,
};
use std::collections::HashSet;
use vstd::prelude::*;
use vstd::set_lib::lemma_len_subset;

verus! {

broadcast use {vstd::std_specs::hash::group_hash_axioms, vstd::set_lib::range_set_properties};

/// A rectangle of world pixels, half-open: `left <= x < right`, `top <= y < bottom`.
///
/// World pixels belong to one zoom level of the tile grid: tile (`x`, `y`) of edge
/// `size` spans `[x * size, (x + 1) * size)` horizontally and likewise vertically.
#[derive(Debug, Clone, Copy, PartialEq, Eq, Structural)]
pub struct PixelRect {
    pub left: i64,
    pub top: i64,
    pub right: i64,
    pub bottom: i64,
}

/// Whether tile `t`, drawn with edge `size`, overlaps the rectangle `v`.
pub open spec fn overlaps(t: TileSpec, size: int, v: PixelRect) -> bool {
    &&& t.x * size < v.right
    &&& (t.x + 1) * size > v.left
    &&& t.y * size < v.bottom
    &&& (t.y + 1) * size > v.top
}

/// Whether tile `t`, drawn with edge `size`, overlaps the rectangle `v`.
pub fn tile_overlaps(t: &TileId, size: u32, v: &PixelRect) -> (r: bool)
    ensures
        r == overlaps(t@, size as int, *v),
{
    proof {
        use_type_invariant(t);
        lemma_grid_edge_bounds(t@.zoom);
    }
    let x = t.x() as i128;
    let y = t.y() as i128;
    let s = size as i128;
    proof {
        assert(0 <= (x + 1) * s <= 0x8000_0000 * 0x1_0000_0000) by (nonlinear_arith)
            requires 0 <= x < 0x8000_0000, 0 <= s < 0x1_0000_0000;
        assert(0 <= (y + 1) * s <= 0x8000_0000 * 0x1_0000_0000) by (nonlinear_arith)
            requires 0 <= y < 0x8000_0000, 0 <= s < 0x1_0000_0000;
        assert(0 <= x * s <= (x + 1) * s) by (nonlinear_arith)
            requires 0 <= x, 0 <= s;
        assert(0 <= y * s <= (y + 1) * s) by (nonlinear_arith)
            requires 0 <= y, 0 <= s;
    }
    x * s < v.right as i128 && (x + 1) * s > v.left as i128 && y * s < v.bottom as i128 && (y
        + 1) * s > v.top as i128
}

/// The column (or row) of the grid of `edge` tiles of size `size` under world
/// pixel `p`, clamped into the grid.
pub open spec fn grid_index(p: int, size: int, edge: int) -> int {
    if p < 0 {
        0
    } else if p / size >= edge {
        edge - 1
    } else {
        p / size
    }
}

fn index_under(p: i64, size: u32, edge: u32) -> (r: u32)
    requires
        size > 0,
        edge > 0,
    ensures
        r == grid_index(p as int, size as int, edge as int),
{
    if p < 0 {
        0
    } else {
        let i = p / (size as i64);
        if i >= edge as i64 {
            edge - 1
        } else {
            i as u32
        }
    }
}

/// The tile of `zoom` under world pixel (`x`, `y`) when tiles have edge
/// `tile_size`, clamped into the grid. A pixel inside the world lies inside
/// the tile.
pub fn tile_under(x: i64, y: i64, tile_size: u32, zoom: u8) -> (r: TileId)
    requires
        tile_size > 0,
        zoom <= MAX_TILE_ZOOM,
    ensures
        r@.zoom == zoom,
        r@.x == grid_index(x as int, tile_size as int, grid_edge(zoom as nat) as int),
        r@.y == grid_index(y as int, tile_size as int, grid_edge(zoom as nat) as int),
        0 <= x < grid_edge(zoom as nat) * tile_size ==> r@.x * tile_size <= x < (r@.x + 1) * tile_size,
        0 <= y < grid_edge(zoom as nat) * tile_size ==> r@.y * tile_size <= y < (r@.y + 1) * tile_size,
{
    let edge = total_tiles(zoom);
    proof {
        lemma_grid_edge_bounds(zoom as nat);
        lemma_index_in_cell(x as int, tile_size as int, edge as int);
        lemma_index_in_cell(y as int, tile_size as int, edge as int);
    }
    let ix = index_under(x, tile_size, edge);
    let iy = index_under(y, tile_size, edge);
    TileId::new(ix, iy, zoom)
}

/// A pixel inside the world lies in the cell that [`grid_index`] names.
proof fn lemma_index_in_cell(p: int, size: int, edge: int)
    requires
        size > 0,
        edge > 0,
    ensures
        0 <= p < edge * size ==> grid_index(p, size, edge) * size <= p < (grid_index(p, size, edge)
            + 1) * size,
{
    if 0 <= p < edge * size {
        let q = p / size;
        assert(q * size <= p < (q + 1) * size) by (nonlinear_arith)
            requires q == p / size, size > 0, p >= 0;
        assert(q < edge) by (nonlinear_arith)
            requires q * size <= p, p < edge * size, size > 0;
    }
}

/// `a <= b` scales to `a * size <= b * size` for a positive `size`.
proof fn lemma_scale_le(a: int, b: int, size: int)
    requires
        a <= b,
        size > 0,
    ensures
        a * size <= b * size,
{
    assert(a * size <= b * size) by (nonlinear_arith)
        requires a <= b, size > 0;
}

/// The tiles of one zoom level that overlap a rectangle form a connected region:
/// a set of tiles that holds one of them, and with each of its tiles every
/// overlapping neighbour, holds all of them.
pub proof fn lemma_overlap_region_connected(
    region: Set<TileSpec>,
    size: int,
    v: PixelRect,
    s: TileSpec,
    h: TileSpec,
)
    requires
        size > 0,
        s.valid(),
        h.valid(),
        s.zoom == h.zoom,
        overlaps(s, size, v),
        overlaps(h, size, v),
        region.contains(s),
        forall|t: TileSpec, n: TileSpec|
            #![trigger region.contains(t), t.adjacent(n)]
            region.contains(t) && n.valid() && t.adjacent(n) && overlaps(n, size, v)
                ==> region.contains(n),
    ensures
        region.contains(h),
    decreases
            (if h.x >= s.x { h.x - s.x } else { s.x - h.x }) + (if h.y >= s.y { h.y - s.y } else { s.y - h.y }),
{
    if h == s {
        return;
    }
    let n = if h.x > s.x {
        TileSpec { x: (h.x - 1) as nat, ..h }
    } else if h.x < s.x {
        TileSpec { x: h.x + 1, ..h }
    } else if h.y > s.y {
        TileSpec { y: (h.y - 1) as nat, ..h }
    } else {
        TileSpec { y: h.y + 1, ..h }
    };
    lemma_scale_le(n.x as int, if h.x >= s.x { h.x as int } else { s.x as int }, size);
    lemma_scale_le(if h.x >= s.x { s.x + 1int } else { h.x + 1int }, n.x + 1int, size);
    lemma_scale_le(n.y as int, if h.y >= s.y { h.y as int } else { s.y as int }, size);
    lemma_scale_le(if h.y >= s.y { s.y + 1int } else { h.y + 1int }, n.y + 1int, size);
    lemma_overlap_region_connected(region, size, v, s, n);
    assert(n.adjacent(h));
}

/// Records `n`, if any and not seen yet, as seen and pending.
fn visit(n: Option<TileId>, visited: &mut HashSet<u128>, stack: &mut Vec<TileId>)
    ensures
        match n {
            Some(t) => {
                &&& t@.valid()
                &&& final(visited)@ == old(visited)@.insert(tile_key(t@))
                &&& final(stack)@ == if old(visited)@.contains(tile_key(t@)) {
                    old(stack)@
                } else {
                    old(stack)@.push(t)
                }
            },
            None => {
                &&& final(visited)@ == old(visited)@
                &&& final(stack)@ == old(stack)@
            },
        },
{
    if let Some(t) = n {
        proof {
            use_type_invariant(&t);
        }
        let k = t.key();
        if !visited.contains(&k) {
            visited.insert(k);
            stack.push(t);
        }
    }
}

/// The bookkeeping of the search: `acc` holds the accepted tiles (those in
/// `result`), `pend` the pending ones (those on `stack`), and every tile of the
/// grid whose key was seen is accepted, pending, or known to miss the viewport.
spec fn search_inv(
    visited: Set<u128>,
    stack: Seq<TileId>,
    result: Seq<TileId>,
    acc: Set<TileSpec>,
    pend: Set<TileSpec>,
    z: nat,
    size: int,
    v: PixelRect,
) -> bool {
    &&& forall|i: int| 0 <= i < stack.len() ==> pend.contains(#[trigger] stack[i]@)
    &&& forall|t: TileSpec| #[trigger]
        pend.contains(t) ==> exists|i: int| 0 <= i < stack.len() && stack[i]@ == t
    &&& forall|i: int| 0 <= i < result.len() ==> acc.contains(#[trigger] result[i]@)
    &&& forall|t: TileSpec| #[trigger]
        acc.contains(t) ==> exists|i: int| 0 <= i < result.len() && result[i]@ == t
    &&& forall|t: TileSpec| #[trigger]
        pend.contains(t) ==> t.valid() && t.zoom == z && visited.contains(tile_key(t)) && !acc.contains(t)
    &&& forall|t: TileSpec| #[trigger]
        acc.contains(t) ==> t.valid() && t.zoom == z && visited.contains(tile_key(t)) && overlaps(t, size, v)
    &&& forall|i: int, j: int| 0 <= i < j < stack.len() ==> stack[i]@ != stack[j]@
    &&& forall|i: int, j: int| 0 <= i < j < result.len() ==> result[i]@ != result[j]@
    &&& forall|k: u128| #[trigger] visited.contains(k) ==> z * KEY_ZOOM_UNIT <= k < (z + 1) * KEY_ZOOM_UNIT
    &&& forall|t: TileSpec|
        t.valid() && t.zoom == z && #[trigger] visited.contains(tile_key(t)) ==> acc.contains(t)
            || pend.contains(t) || !overlaps(t, size, v)
}

/// Every accepted tile has had all its neighbours seen.
spec fn closed_under_neighbors(visited: Set<u128>, acc: Set<TileSpec>) -> bool {
    forall|t: TileSpec, n: TileSpec|
        #![trigger acc.contains(t), t.adjacent(n)]
        acc.contains(t) && n.valid() && t.adjacent(n) ==> visited.contains(tile_key(n))
}

/// Seeing one more tile `n` keeps the bookkeeping.
proof fn lemma_visit_step(
    visited: Set<u128>,
    stack: Seq<TileId>,
    result: Seq<TileId>,
    acc: Set<TileSpec>,
    pend: Set<TileSpec>,
    z: nat,
    size: int,
    v: PixelRect,
    n: TileId,
)
    requires
        search_inv(visited, stack, result, acc, pend, z, size, v),
        n@.valid(),
        n@.zoom == z,
    ensures
        search_inv(
            visited.insert(tile_key(n@)),
            if visited.contains(tile_key(n@)) { stack } else { stack.push(n) },
            result,
            acc,
            if visited.contains(tile_key(n@)) { pend } else { pend.insert(n@) },
            z,
            size,
            v,
        ),
{
    lemma_key_range(n@);
    if !visited.contains(tile_key(n@)) {
        let visited2 = visited.insert(tile_key(n@));
        let stack2 = stack.push(n);
        let pend2 = pend.insert(n@);
        assert forall|t: TileSpec| #[trigger] pend2.contains(t) implies exists|i: int|
            0 <= i < stack2.len() && stack2[i]@ == t by {
            if t == n@ {
                assert(stack2[stack.len() as int]@ == t);
            } else {
                let i = choose|i: int| 0 <= i < stack.len() && stack[i]@ == t;
                assert(stack2[i]@ == t);
            }
        }
        assert forall|t: TileSpec|
            t.valid() && t.zoom == z && #[trigger] visited2.contains(tile_key(t)) implies acc.contains(t)
                || pend2.contains(t) || !overlaps(t, size, v) by {
            if tile_key(t) == tile_key(n@) {
                lemma_tile_key(t, n@);
            }
        }
        assert forall|i: int, j: int| 0 <= i < j < stack2.len() implies stack2[i]@ != stack2[j]@ by {
            if j == stack.len() {
                assert(pend.contains(stack[i]@));
            }
        }
        assert forall|t: TileSpec| #[trigger] acc.contains(t) implies !pend2.contains(t) by {
            if t == n@ {
                assert(visited.contains(tile_key(t)));
            }
        }
    }
}

/// Records the unseen neighbours of the accepted tile `t` as pending.
fn expand(
    t: TileId,
    visited: &mut HashSet<u128>,
    stack: &mut Vec<TileId>,
    result: &Vec<TileId>,
    Ghost(acc): Ghost<Set<TileSpec>>,
    Ghost(pend): Ghost<Set<TileSpec>>,
    Ghost(z): Ghost<nat>,
    Ghost(size): Ghost<int>,
    Ghost(viewport): Ghost<PixelRect>,
) -> (pend_out: Ghost<Set<TileSpec>>)
    requires
        search_inv(old(visited)@, old(stack)@, result@, acc, pend, z, size, viewport),
        closed_under_neighbors(old(visited)@, acc.remove(t@)),
        acc.contains(t@),
        old(visited)@.finite(),
    ensures
        search_inv(final(visited)@, final(stack)@, result@, acc, pend_out@, z, size, viewport),
        closed_under_neighbors(final(visited)@, acc),
        old(visited)@.subset_of(final(visited)@),
        final(visited)@.len() - final(stack)@.len() == old(visited)@.len() - old(stack)@.len(),
        final(visited)@.len() >= old(visited)@.len(),
        final(visited)@.finite(),
{
    let ghost mut pend = pend;
    let ghost visited_before = visited@;
    let ghost acc_before = acc.remove(t@);
    proof {
        use_type_invariant(&t);
    }
    let ns = t.neighbors();
    proof {
        if let Some(n) = ns[0] {
            lemma_visit_step(visited@, stack@, result@, acc, pend, z, size, viewport, n);
            if !visited@.contains(tile_key(n@)) {
                pend = pend.insert(n@);
            }
        }
    }
    visit(ns[0], visited, stack);
    proof {
        if let Some(n) = ns[1] {
            lemma_visit_step(visited@, stack@, result@, acc, pend, z, size, viewport, n);
            if !visited@.contains(tile_key(n@)) {
                pend = pend.insert(n@);
            }
        }
    }
    visit(ns[1], visited, stack);
    proof {
        if let Some(n) = ns[2] {
            lemma_visit_step(visited@, stack@, result@, acc, pend, z, size, viewport, n);
            if !visited@.contains(tile_key(n@)) {
                pend = pend.insert(n@);
            }
        }
    }
    visit(ns[2], visited, stack);
    proof {
        if let Some(n) = ns[3] {
            lemma_visit_step(visited@, stack@, result@, acc, pend, z, size, viewport, n);
            if !visited@.contains(tile_key(n@)) {
                pend = pend.insert(n@);
            }
        }
    }
    visit(ns[3], visited, stack);
    proof {
        assert forall|u: TileSpec, n: TileSpec|
            #![trigger acc.contains(u), u.adjacent(n)]
            acc.contains(u) && n.valid() && u.adjacent(n) implies visited@.contains(tile_key(n)) by {
            if u == t@ {
                if n.y + 1 == u.y {
                    assert(ns[0] is Some);
                } else if n.x == u.x + 1 {
                    assert(ns[1] is Some);
                } else if n.y == u.y + 1 {
                    assert(ns[2] is Some);
                } else {
                    assert(ns[3] is Some);
                }
            } else {
                assert(acc_before.contains(u));
                assert(visited_before.contains(tile_key(n)));
            }
        }
        lemma_len_subset(visited_before, visited@);
    }
    Ghost(pend)
}

/// All tiles on the grid of `start` that overlap `viewport` when drawn with edge
/// `tile_size`, each once, found by spreading from `start` across neighbours.
/// Empty when `start` itself does not overlap.
#[verifier::rlimit(100)]
#[verifier::spinoff_prover]
pub fn flood_tiles(start: TileId, tile_size: u32, viewport: PixelRect) -> (r: Vec<TileId>)
    requires
        tile_size > 0,
    ensures
        forall|i: int|
            0 <= i < r.len() ==> r[i]@.zoom == start@.zoom && overlaps(
                #[trigger] r[i]@,
                tile_size as int,
                viewport,
            ),
        forall|i: int, j: int| 0 <= i < j < r.len() ==> r[i]@ != r[j]@,
        overlaps(start@, tile_size as int, viewport) ==> forall|t: TileSpec|
            t.valid() && t.zoom == start@.zoom && overlaps(t, tile_size as int, viewport)
                ==> #[trigger] specs_of(r@).contains(t),
        !overlaps(start@, tile_size as int, viewport) ==> r.len() == 0,
{
    proof {
        use_type_invariant(&start);
    }
    let ghost z = start@.zoom;
    let ghost size = tile_size as int;
    let ghost lo: u128 = (z * KEY_ZOOM_UNIT) as u128;
    let ghost hi: u128 = ((z + 1) * KEY_ZOOM_UNIT) as u128;
    let mut visited: HashSet<u128> = HashSet::new();
    let mut stack: Vec<TileId> = Vec::new();
    let mut result: Vec<TileId> = Vec::new();
    let ghost mut acc: Set<TileSpec> = Set::empty();
    let ghost mut pend: Set<TileSpec> = Set::empty();
    proof {
        lemma_key_range(start@);
        assert(search_inv(visited@, stack@, result@, acc, pend, z, size, viewport));
        lemma_visit_step(visited@, stack@, result@, acc, pend, z, size, viewport, start);
        pend = pend.insert(start@);
    }
    visit(Some(start), &mut visited, &mut stack);
    loop
        invariant
            z == start@.zoom,
            start@.valid(),
            size == tile_size as int,
            size > 0,
            z <= 31,
            lo == z * KEY_ZOOM_UNIT,
            hi == (z + 1) * KEY_ZOOM_UNIT,
            search_inv(visited@, stack@, result@, acc, pend, z, size, viewport),
            closed_under_neighbors(visited@, acc),
            visited@.contains(tile_key(start@)),
            visited@.finite(),
            visited@.len() <= hi - lo,
            !overlaps(start@, size, viewport) ==> result.len() == 0 && forall|i: int|
                0 <= i < stack.len() ==> stack[i]@ == start@,
        ensures
            stack.len() == 0,
            search_inv(visited@, stack@, result@, acc, pend, z, size, viewport),
            closed_under_neighbors(visited@, acc),
            visited@.contains(tile_key(start@)),
            !overlaps(start@, size, viewport) ==> result.len() == 0,
        decreases 2 * (hi - lo - visited@.len()) + stack.len(),
    {
        proof {
            assert(visited@.subset_of(Set::<u128>::range(lo, hi)));
            lemma_len_subset(visited@, Set::<u128>::range(lo, hi));
        }
        let ghost stack_before = stack@;
        let ghost measure = 2 * (hi - lo - visited@.len()) + stack.len();
        assert(measure >= 0);
        match stack.pop() {
            None => {
                break;
            },
            Some(t) => {
                proof {
                    use_type_invariant(&t);
                    assert(stack_before == stack@.push(t));
                    assert(pend.contains(t@)) by { assert(stack_before[stack@.len() as int] == t); }
                    assert forall|i: int| 0 <= i < stack@.len() implies stack@[i]@ != t@ by {
                        assert(stack_before[i] == stack@[i]);
                        assert(stack_before[stack@.len() as int] == t);
                    }
                    pend = pend.remove(t@);
                    assert forall|u: TileSpec| #[trigger] pend.contains(u) implies exists|i: int|
                        0 <= i < stack@.len() && stack@[i]@ == u by {
                        let i = choose|i: int| 0 <= i < stack_before.len() && stack_before[i]@ == u;
                        assert(stack_before[i] == stack@[i]);
                    }
                }
                if tile_overlaps(&t, tile_size, &viewport) {
                    let ghost result_before = result@;
                    let ghost acc_before = acc;
                    result.push(t);
                    proof {
                        acc = acc.insert(t@);
                        assert(acc.remove(t@) =~= acc_before);
                        assert forall|u: TileSpec| #[trigger] acc.contains(u) implies exists|i: int|
                            0 <= i < result@.len() && result@[i]@ == u by {
                            if u == t@ {
                                assert(result@[result_before.len() as int]@ == u);
                            } else {
                                let i = choose|i: int| 0 <= i < result_before.len() && result_before[i]@ == u;
                                assert(result@[i]@ == u);
                            }
                        }
                        assert forall|i: int, j: int| 0 <= i < j < result@.len() implies result@[i]@ != result@[j]@ by {
                            if j == result_before.len() {
                                assert(acc.contains(result_before[i]@));
                            }
                        }
                        assert(search_inv(visited@, stack@, result@, acc, pend, z, size, viewport));
                    }
                    proof {
                        if !overlaps(start@, size, viewport) {
                            assert(stack_before[stack_before.len() - 1] == t);
                        }
                    }
                    let Ghost(pend2) = expand(
                        t,
                        &mut visited,
                        &mut stack,
                        &result,
                        Ghost(acc),
                        Ghost(pend),
                        Ghost(z),
                        Ghost(size),
                        Ghost(viewport),
                    );
                    proof {
                        pend = pend2;
                        assert(2 * (hi - lo - visited@.len()) + stack.len() < measure);
                    }
                } else {
                    proof {
                        assert(search_inv(visited@, stack@, result@, acc, pend, z, size, viewport));
                        assert(2 * (hi - lo - visited@.len()) + stack.len() < measure);
                    }
                }
            },
        }
        proof {
            assert(visited@.subset_of(Set::<u128>::range(lo, hi)));
            lemma_len_subset(visited@, Set::<u128>::range(lo, hi));
        }
    }
    proof {
        if overlaps(start@, size, viewport) {
            assert(!pend.contains(start@));
            assert(acc.contains(start@));
            assert forall|u: TileSpec, n: TileSpec|
                #![trigger acc.contains(u), u.adjacent(n)]
                acc.contains(u) && n.valid() && u.adjacent(n) && overlaps(n, size, viewport)
                    implies acc.contains(n) by {
                assert(visited@.contains(tile_key(n)));
                assert(!pend.contains(n));
            }
            assert forall|u: TileSpec|
                u.valid() && u.zoom == start@.zoom && overlaps(u, size, viewport) implies #[trigger] specs_of(
                    result@,
                ).contains(u) by {
                lemma_overlap_region_connected(acc, size, viewport, start@, u);
                let i = choose|i: int| 0 <= i < result@.len() && result@[i]@ == u;
                assert(specs_of(result@)[i] == u);
            }
        }
    }
    result
}
/// The keys of the tiles of one zoom level lie in one band of width [`KEY_ZOOM_UNIT`].
proof fn lemma_key_range(t: TileSpec)
    requires
        t.valid(),
    ensures
        t.zoom * KEY_ZOOM_UNIT <= tile_key(t) < (t.zoom + 1) * KEY_ZOOM_UNIT,
{
    lemma_grid_edge_bounds(t.zoom);
    assert(0 <= t.x * KEY_X_UNIT + t.y < KEY_ZOOM_UNIT) by (nonlinear_arith)
        requires t.x < 0x1_0000_0000, t.y < 0x1_0000_0000, KEY_X_UNIT == 0x1_0000_0000,
            KEY_ZOOM_UNIT == 0x1_0000_0000_0000_0000;
    assert((t.zoom + 1) * KEY_ZOOM_UNIT <= 32 * KEY_ZOOM_UNIT) by (nonlinear_arith)
        requires t.zoom <= 31;
}

} // verus!
