//! The tiles placed in one frame, each with what the renderer needs to draw it.
//!
//! Entries are keyed by [`tile_key`], so that walking the keys in increasing
//! order visits the zoom levels from coarse to fine: coarse stand-ins are
//! drawn first and finer tiles on top of them.

use crate::tile::{key_zoom, lemma_tile_key, tile_key, TileId, KEY_ZOOM_UNIT};
use std::collections::HashMap;
use vstd::arithmetic::div_mod::lemma_div_is_ordered;
use vstd::prelude::*;

verus! {

broadcast use vstd::std_specs::hash::group_hash_axioms;

/// Whether `s` is in strictly increasing order.
pub open spec fn strictly_increasing(s: Seq<u128>) -> bool {
    forall|i: int, j: int| 0 <= i < j < s.len() ==> s[i] < s[j]
}

/// A larger key never has a smaller zoom level.
pub proof fn lemma_key_zoom_ordered(a: u128, b: u128)
    requires
        a <= b,
    ensures
        key_zoom(a) <= key_zoom(b),
{
    lemma_div_is_ordered(a as int, b as int, KEY_ZOOM_UNIT as int);
}

proof fn lemma_insert_contains(s: Seq<u128>, pos: int, k: u128, x: u128)
    requires
        0 <= pos <= s.len(),
    ensures
        s.insert(pos, k).contains(x) <==> s.contains(x) || x == k,
{
    s.insert_ensures(pos, k);
    let t = s.insert(pos, k);
    if t.contains(x) {
        let j = choose|j: int| 0 <= j < t.len() && t[j] == x;
        if j < pos {
            assert(s[j] == x);
        } else if j > pos {
            assert(s[j - 1] == x);
        }
    }
    if s.contains(x) {
        let j = choose|j: int| 0 <= j < s.len() && s[j] == x;
        if j < pos {
            assert(t[j] == x);
        } else {
            assert(t[j + 1] == x);
        }
    }
    if x == k {
        assert(t[pos] == x);
    }
}

proof fn lemma_push_contains(s: Seq<u128>, k: u128, x: u128)
    ensures
        s.push(k).contains(x) <==> s.contains(x) || x == k,
{
    let t = s.push(k);
    if t.contains(x) {
        let j = choose|j: int| 0 <= j < t.len() && t[j] == x;
        if j < s.len() {
            assert(s[j] == x);
        }
    }
    if s.contains(x) {
        let j = choose|j: int| 0 <= j < s.len() && s[j] == x;
        assert(t[j] == x);
    }
    if x == k {
        assert(t[s.len() as int] == x);
    }
}

/// `keys` in increasing order.
fn sorted_keys(keys: &Vec<u128>) -> (out: Vec<u128>)
    requires
        keys@.no_duplicates(),
    ensures
        strictly_increasing(out@),
        forall|x: u128| out@.contains(x) <==> keys@.contains(x),
{
    let mut out: Vec<u128> = Vec::new();
    for i in 0..keys.len()
        invariant
            keys@.no_duplicates(),
            strictly_increasing(out@),
            forall|x: u128| out@.contains(x) <==> keys@.take(i as int).contains(x),
    {
        let k = keys[i];
        let mut pos: usize = 0;
        while pos < out.len() && out[pos] < k
            invariant
                pos <= out.len(),
                forall|j: int| 0 <= j < pos ==> out@[j] < k,
            decreases out.len() - pos,
        {
            pos = pos + 1;
        }
        proof {
            assert(!out@.contains(k)) by {
                if out@.contains(k) {
                    let t = keys@.take(i as int);
                    let j = choose|j: int| 0 <= j < t.len() && t[j] == k;
                    assert(keys@[j] == keys@[i as int]);
                }
            }
            assert(pos < out.len() ==> out@[pos as int] > k) by {
                if pos < out.len() {
                    assert(out@[pos as int] != k);
                }
            }
        }
        let ghost before = out@;
        out.insert(pos, k);
        proof {
            assert(keys@.take(i + 1) =~= keys@.take(i as int).push(k));
            assert forall|x: u128| out@.contains(x) <==> keys@.take(i + 1).contains(x) by {
                lemma_insert_contains(before, pos as int, k, x);
                lemma_push_contains(keys@.take(i as int), k, x);
            }
            assert forall|a: int, b: int| 0 <= a < b < out@.len() implies out@[a] < out@[b] by {
                before.insert_ensures(pos as int, k);
            }
        }
    }
    proof {
        assert(keys@.take(keys.len() as int) =~= keys@);
    }
    out
}

/// The tiles placed in one frame with their drawing data `D`.
pub struct DrawCache<D> {
    tiles: HashMap<u128, (TileId, D)>,
}

impl<D> View for DrawCache<D> {
    type V = Map<u128, (TileId, D)>;

    /// The placed tiles with their data, by [`tile_key`].
    closed spec fn view(&self) -> Map<u128, (TileId, D)> {
        self.tiles@
    }
}

impl<D> DrawCache<D> {
    /// Every entry sits under the key of its own tile.
    pub open spec fn wf(self) -> bool {
        forall|k: u128| #[trigger] self@.contains_key(k) ==> tile_key(self@[k].0@) == k
    }

    pub fn new() -> (r: Self)
        ensures
            r@ == Map::<u128, (TileId, D)>::empty(),
            r.wf(),
    {
        DrawCache { tiles: HashMap::new() }
    }

    /// Whether `tile_id` is placed.
    pub fn contains_key(&self, tile_id: &TileId) -> (r: bool)
        ensures
            r == self@.contains_key(tile_key(tile_id@)),
    {
        self.tiles.contains_key(&tile_id.key())
    }

    /// Places `tile_id` with `data`, replacing an earlier placement of it.
    pub fn insert(&mut self, tile_id: TileId, data: D)
        requires
            old(self).wf(),
        ensures
            final(self)@ == old(self)@.insert(tile_key(tile_id@), (tile_id, data)),
            final(self).wf(),
    {
        let k = tile_id.key();
        self.tiles.insert(k, (tile_id, data));
        proof {
            assert forall|j: u128| #[trigger] self@.contains_key(j) implies tile_key(self@[j].0@) == j by {
                if j != k {
                    assert(old(self)@.contains_key(j));
                }
            }
        }
    }

    /// Takes the placement of `tile_id` out, for reuse.
    pub fn remove(&mut self, tile_id: &TileId) -> (r: Option<D>)
        requires
            old(self).wf(),
        ensures
            final(self)@ == old(self)@.remove(tile_key(tile_id@)),
            final(self).wf(),
            match r {
                Some(d) => old(self)@.contains_key(tile_key(tile_id@)) && d == old(self)@[tile_key(
                    tile_id@,
                )].1,
                None => !old(self)@.contains_key(tile_key(tile_id@)),
            },
    {
        let k = tile_id.key();
        let r = match self.tiles.remove(&k) {
            Some((_, d)) => Some(d),
            None => None,
        };
        proof {
            assert forall|j: u128| #[trigger] self@.contains_key(j) implies tile_key(self@[j].0@) == j by {
                assert(old(self)@.contains_key(j));
            }
        }
        r
    }

    /// The data placed with `tile_id`.
    pub fn get(&self, tile_id: &TileId) -> (r: Option<&D>)
        ensures
            match r {
                Some(d) => self@.contains_key(tile_key(tile_id@)) && *d == self@[tile_key(
                    tile_id@,
                )].1,
                None => !self@.contains_key(tile_key(tile_id@)),
            },
    {
        match self.tiles.get(&tile_id.key()) {
            Some(entry) => Some(&entry.1),
            None => None,
        }
    }

    /// The placed tiles in drawing order: by increasing key, so by
    /// non-decreasing zoom level, each once.
    pub fn iter_tiles(&self) -> (r: Vec<TileId>)
        requires
            self.wf(),
        ensures
            forall|i: int| 0 <= i < r.len() ==> self@.contains_key(#[trigger] tile_key(r[i]@)),
            forall|k: u128| #[trigger] self@.contains_key(k) ==> exists|i: int|
                0 <= i < r.len() && tile_key(r[i]@) == k,
            forall|i: int, j: int| 0 <= i < j < r.len() ==> tile_key(r[i]@) < tile_key(r[j]@),
            forall|i: int, j: int| 0 <= i < j < r.len() ==> r[i]@.zoom <= r[j]@.zoom,
    {
        let mut keys: Vec<u128> = Vec::new();
        for k in it: self.tiles.keys()
            invariant
                keys@ == it.seq().unref().take(it.index()),
                it.seq().unref().to_set() == self.tiles@.dom(),
                it.seq().unref().no_duplicates(),
                it.index() == it.seq().len() ==> keys@ == it.seq().unref(),
        {
            keys.push(*k);
        }
        let sorted = sorted_keys(&keys);
        let mut r: Vec<TileId> = Vec::new();
        for i in 0..sorted.len()
            invariant
                self.wf(),
                strictly_increasing(sorted@),
                forall|x: u128| sorted@.contains(x) <==> self@.contains_key(x),
                r.len() == i,
                forall|j: int| 0 <= j < i ==> tile_key(#[trigger] r[j]@) == sorted@[j],
                forall|j: int| 0 <= j < i ==> (#[trigger] r[j])@.valid(),
        {
            let k = sorted[i];
            proof {
                assert(sorted@.contains(k));
            }
            let entry = self.tiles.get(&k);
            match entry {
                Some(e) => {
                    proof {
                        use_type_invariant(&e.0);
                    }
                    r.push(e.0);
                },
                None => {},
            }
        }
        proof {
            assert forall|i: int, j: int| 0 <= i < j < r.len() implies r[i]@.zoom <= r[j]@.zoom by {
                lemma_key_zoom_ordered(tile_key(r[i]@), tile_key(r[j]@));
                lemma_tile_key(r[i]@, r[i]@);
                lemma_tile_key(r[j]@, r[j]@);
            }
            assert forall|k: u128| #[trigger] self@.contains_key(k) implies exists|i: int|
                0 <= i < r.len() && tile_key(r[i]@) == k by {
                assert(sorted@.contains(k));
                let i = choose|i: int| 0 <= i < sorted@.len() && sorted@[i] == k;
                assert(tile_key(r[i]@) == k);
            }
            assert forall|i: int| 0 <= i < r.len() implies self@.contains_key(#[trigger] tile_key(r[i]@)) by {
                assert(sorted@.contains(sorted@[i]));
            }
        }
        r
    }
}

} // verus!
