//! The tile cache: one entry per tile, driven by messages through the
//! fetch / allocate / deallocate life cycle, and pruned when it grows large.
//!
//! The cache performs no work of its own. [`TileCache::update`] changes the
//! entries and answers with the [`Command`]s that the caller must carry out
//! (fetch a URL, hand bytes to the renderer, deliver a message later); their
//! outcomes come back as further [`CacheMessage`]s.

use crate::sources::{Attribution, Source};
use crate::tile::{key_zoom, specs_of, tile_key, TileId, TileSpec, MAX_TILE_ZOOM};
use iced_core::image::{Allocation, Error as ImageError, Handle};
use std::collections::HashMap;
use vstd::prelude::*;

verus! {

broadcast use vstd::std_specs::hash::group_hash_axioms;

/// How long a tile stays allocated with the renderer before it is released
/// again; widgets that still draw it keep the allocation alive.
pub const DEALLOCATE_DELAY_MS: u64 = 100;

/// Number of entries above which the cache prunes.
pub const PRUNE_THRESHOLD: usize = 1024;

/// Least time between two prunes.
pub const PRUNE_COOLDOWN_MS: u64 = 5000;

/// Entries used within this window are never pruned.
pub const RETENTION_MS: u64 = 60_000;

/// Tiles below this zoom level are never pruned: they are few, and they are
/// the fallback of last resort when drawing.
pub const PROTECTED_ZOOM: u8 = 6;

/// Most fetches that may be in flight at once.
pub const MAX_CONCURRENT_FETCHES: usize = 6;

/// How long a fetch waits for a free slot before it gives up.
pub const FETCH_ADMISSION_TIMEOUT_MS: u64 = 100;

/// Where a tile is in its life cycle.
#[derive(Debug)]
pub enum TileEntry {
    /// A fetch is in flight.
    Loading,
    /// The image bytes are here.
    Loaded(Handle),
    /// The renderer is allocating the image.
    Allocating(Handle),
    /// The renderer holds the image and it can be drawn.
    Allocated(Handle, Allocation),
}

/// A cache entry: the tile's state and when it was last asked for.
#[derive(Debug)]
pub struct CacheEntry {
    pub state: TileEntry,
    pub last_used_ms: u64,
}

/// The messages that drive the cache.
#[derive(Debug, Clone)]
pub enum CacheMessage {
    LoadTile { id: TileId },
    TileLoaded { id: TileId, handle: Handle },
    TileLoadFailed { id: TileId },
    AllocateTile { id: TileId },
    TileAllocated { id: TileId, alloc: Allocation },
    TileAllocFailed { id: TileId, err: ImageError },
    DeallocateTile { id: TileId },
    Prune,
}

/// Work that the caller carries out on behalf of the cache.
#[derive(Debug)]
pub enum Command {
    /// Fetch `url`; answer with `TileLoaded` or `TileLoadFailed`.
    Fetch { id: TileId, url: String },
    /// Allocate `handle` with the renderer; answer with `TileAllocated` or `TileAllocFailed`.
    Allocate { id: TileId, handle: Handle },
    /// Deliver `message` right away.
    Send(CacheMessage),
    /// Deliver `message` after `delay_ms` milliseconds.
    SendAfter { delay_ms: u64, message: CacheMessage },
}

/// The entry at `k` with its state replaced and its age kept.
pub open spec fn restate(m: Map<u128, CacheEntry>, k: u128, state: TileEntry) -> Map<u128, CacheEntry> {
    m.insert(k, CacheEntry { state, last_used_ms: m[k].last_used_ms })
}

/// The entry at `k`, if any, marked as used at `now`.
pub open spec fn touch(m: Map<u128, CacheEntry>, k: u128, now: u64) -> Map<u128, CacheEntry> {
    if m.contains_key(k) {
        m.insert(k, CacheEntry { state: m[k].state, last_used_ms: now })
    } else {
        m
    }
}

/// How the entries change on a message other than `Prune`.
pub open spec fn transition(m: Map<u128, CacheEntry>, msg: CacheMessage, now: u64) -> Map<u128, CacheEntry> {
    match msg {
        CacheMessage::LoadTile { id } => {
            let k = tile_key(id@);
            if m.contains_key(k) {
                touch(m, k, now)
            } else {
                m.insert(k, CacheEntry { state: TileEntry::Loading, last_used_ms: now })
            }
        },
        CacheMessage::TileLoaded { id, handle } => {
            let k = tile_key(id@);
            if m.contains_key(k) && m[k].state is Loading {
                restate(m, k, TileEntry::Loaded(handle))
            } else {
                m
            }
        },
        CacheMessage::TileLoadFailed { id } => {
            let k = tile_key(id@);
            if m.contains_key(k) && m[k].state is Loading {
                m.remove(k)
            } else {
                m
            }
        },
        CacheMessage::AllocateTile { id } => {
            let k = tile_key(id@);
            if m.contains_key(k) {
                match m[k].state {
                    TileEntry::Loaded(h) => restate(m, k, TileEntry::Allocating(h)),
                    _ => m,
                }
            } else {
                m
            }
        },
        CacheMessage::TileAllocated { id, alloc } => {
            let k = tile_key(id@);
            if m.contains_key(k) {
                match m[k].state {
                    TileEntry::Allocating(h) => restate(m, k, TileEntry::Allocated(h, alloc)),
                    TileEntry::Loaded(h) => restate(m, k, TileEntry::Allocated(h, alloc)),
                    _ => m,
                }
            } else {
                m
            }
        },
        CacheMessage::TileAllocFailed { id, err } => {
            let k = tile_key(id@);
            if m.contains_key(k) {
                match m[k].state {
                    TileEntry::Allocating(h) => restate(m, k, TileEntry::Loaded(h)),
                    _ => m,
                }
            } else {
                m
            }
        },
        CacheMessage::DeallocateTile { id } => {
            let k = tile_key(id@);
            if m.contains_key(k) {
                match m[k].state {
                    TileEntry::Allocated(h, a) => restate(m, k, TileEntry::Loaded(h)),
                    _ => m,
                }
            } else {
                m
            }
        },
        CacheMessage::Prune => m,
    }
}

/// Whether pruning may drop the entry `e` stored under key `k` at time `now`:
/// not a protected low zoom level, not in flight, and unused for longer than the
/// retention window.
pub open spec fn prunable(k: u128, e: CacheEntry, now: u64) -> bool {
    &&& key_zoom(k) >= PROTECTED_ZOOM
    &&& !(e.state is Loading)
    &&& !(e.state is Allocating)
    &&& e.last_used_ms + RETENTION_MS < now
}

/// What to draw for one visible tile, see [`TileCache::plan_draw`].
pub struct DrawPlan {
    /// Allocated tiles that together stand in for the visible tile.
    pub place: Vec<TileId>,
    /// Loaded tiles that should be allocated so that later frames can draw them.
    pub allocate: Vec<TileId>,
}

/// The life cycle of one tile: loading an absent tile creates a `Loading` entry;
/// bytes for a loading tile make it `Loaded` and ask for its allocation; a failed
/// fetch of a loading tile drops its entry; an allocation for a tile that is
/// neither `Allocating` nor `Loaded` changes nothing.
pub proof fn lemma_tile_life_cycle<S: Source>(
    cache: TileCache<S>,
    id: TileId,
    handle: Handle,
    alloc: Allocation,
    now: u64,
    cmds: Seq<Command>,
)
    ensures
        cache.lookup(id@) is None ==> transition(cache@, CacheMessage::LoadTile { id }, now)[tile_key(
            id@,
        )] == (CacheEntry { state: TileEntry::Loading, last_used_ms: now }),
        cache.lookup(id@) matches Some(e) && e.state is Loading ==> {
            let loaded = CacheMessage::TileLoaded { id, handle };
            &&& transition(cache@, loaded, now)[tile_key(id@)].state == TileEntry::Loaded(handle)
            &&& (cache.follow_ups(transition(cache@, loaded, now), loaded, cmds) ==> cmds == seq![
                Command::Send(CacheMessage::AllocateTile { id }),
            ])
            &&& !transition(cache@, CacheMessage::TileLoadFailed { id }, now).contains_key(
                tile_key(id@),
            )
        },
        !(cache.lookup(id@) matches Some(e) && (e.state is Allocating || e.state is Loaded))
            ==> transition(cache@, CacheMessage::TileAllocated { id, alloc }, now) == cache@,
{
}

/// Pruning keeps every entry of a protected low zoom level and every entry whose
/// fetch or allocation is in flight, unchanged.
pub proof fn lemma_prune_keeps_protected<S: Source>(
    cache: TileCache<S>,
    next: TileCache<S>,
    now: u64,
    t: TileSpec,
)
    requires
        cache.pruned_into(next, now),
        t.valid(),
        cache.lookup(t) matches Some(e) && (t.zoom < PROTECTED_ZOOM || e.state is Loading
            || e.state is Allocating),
    ensures
        next.lookup(t) == cache.lookup(t),
{
    crate::tile::lemma_tile_key(t, t);
    let k = tile_key(t);
    assert(!prunable(k, cache@[k], now));
    if cache.prune_due(now) {
        assert(next@.contains_key(k));
    }
}

/// The cache which holds the raster tiles of one source.
pub struct TileCache<S> {
    cache: HashMap<u128, CacheEntry>,
    source: S,
    last_prune_ms: Option<u64>,
}

impl<S> View for TileCache<S> {
    type V = Map<u128, CacheEntry>;

    /// The entries, by [`tile_key`].
    closed spec fn view(&self) -> Map<u128, CacheEntry> {
        self.cache@
    }
}

impl<S: Source> TileCache<S> {
    pub closed spec fn spec_source(self) -> S {
        self.source
    }

    /// When the cache last pruned, if ever.
    pub closed spec fn last_prune(self) -> Option<u64> {
        self.last_prune_ms
    }

    /// The entry of tile `t`, if any.
    pub open spec fn lookup(self, t: TileSpec) -> Option<CacheEntry> {
        if self@.contains_key(tile_key(t)) {
            Some(self@[tile_key(t)])
        } else {
            None
        }
    }

    /// Whether a prune at `now` does any work.
    pub open spec fn prune_due(self, now: u64) -> bool {
        &&& self@.len() > PRUNE_THRESHOLD
        &&& match self.last_prune() {
            None => true,
            Some(t) => t + PRUNE_COOLDOWN_MS <= now,
        }
    }

    /// `next` is what a prune of this cache at `now` may leave.
    pub open spec fn pruned_into(self, next: Self, now: u64) -> bool {
        &&& next.spec_source() == self.spec_source()
        &&& if self.prune_due(now) {
            &&& next.last_prune() == Some(now)
            &&& next@.submap_of(self@)
            &&& forall|k: u128| #[trigger]
                self@.contains_key(k) && !next@.contains_key(k) ==> prunable(k, self@[k], now)
            &&& next@.len() >= PRUNE_THRESHOLD
            &&& (next@.len() == PRUNE_THRESHOLD || forall|k: u128| #[trigger]
                next@.contains_key(k) ==> !prunable(k, next@[k], now))
        } else {
            &&& next@ == self@
            &&& next.last_prune() == self.last_prune()
        }
    }

    /// The commands that `msg` calls for, given the entries before (`self`)
    /// and after (`next`) it was handled.
    pub open spec fn follow_ups(self, next: Map<u128, CacheEntry>, msg: CacheMessage, cmds: Seq<Command>) -> bool {
        match msg {
            CacheMessage::LoadTile { id } => {
                if self.lookup(id@) is Some {
                    cmds.len() == 0
                } else {
                    &&& cmds.len() == (if next.len() > PRUNE_THRESHOLD { 2int } else { 1int })
                    &&& cmds[0] matches Command::Fetch { id: i, url } && i == id && url@
                        == self.spec_source().url_of(id@)
                    &&& cmds.len() == 2 ==> cmds[1] == Command::Send(CacheMessage::Prune)
                }
            },
            CacheMessage::TileLoaded { id, handle } => {
                if self.lookup(id@) matches Some(e) && e.state is Loading {
                    cmds == seq![Command::Send(CacheMessage::AllocateTile { id })]
                } else {
                    cmds.len() == 0
                }
            },
            CacheMessage::AllocateTile { id } => {
                if self.lookup(id@) matches Some(e) && e.state is Loaded {
                    &&& cmds.len() == 1
                    &&& cmds[0] matches Command::Allocate { id: i, .. } && i == id
                } else {
                    cmds.len() == 0
                }
            },
            CacheMessage::TileAllocated { id, alloc } => {
                if self.lookup(id@) matches Some(e) && (e.state is Allocating || e.state is Loaded) {
                    cmds == seq![
                        Command::SendAfter {
                            delay_ms: DEALLOCATE_DELAY_MS,
                            message: CacheMessage::DeallocateTile { id },
                        },
                    ]
                } else {
                    cmds.len() == 0
                }
            },
            _ => cmds.len() == 0,
        }
    }

    /// An empty cache for `source`.
    pub fn new(source: S) -> (r: Self)
        ensures
            r@ == Map::<u128, CacheEntry>::empty(),
            r.spec_source() == source,
            r.last_prune() is None,
    {
        TileCache { cache: HashMap::new(), source, last_prune_ms: None }
    }

    pub fn attribution(&self) -> Attribution {
        self.source.attribution()
    }

    /// Edge of the source's tile images in pixels.
    pub fn tile_size(&self) -> (r: u32)
        ensures
            r >= 256,
            r % 256 == 0,
    {
        self.source.tile_size()
    }

    pub fn max_zoom(&self) -> u8 {
        self.source.max_zoom()
    }

    /// Whether `tile_id` has no entry yet; an existing entry is marked as used at `now_ms`.
    pub fn should_load(&mut self, tile_id: &TileId, now_ms: u64) -> (r: bool)
        ensures
            r == (old(self).lookup(tile_id@) is None),
            final(self)@ == touch(old(self)@, tile_key(tile_id@), now_ms),
            final(self).spec_source() == old(self).spec_source(),
            final(self).last_prune() == old(self).last_prune(),
    {
        let k = tile_id.key();
        match self.cache.remove(&k) {
            Some(e) => {
                self.cache.insert(k, CacheEntry { state: e.state, last_used_ms: now_ms });
                false
            },
            None => true,
        }
    }

    /// Whether the tile's bytes are here and not yet handed to the renderer.
    pub fn should_alloc(&self, tile_id: &TileId) -> (r: bool)
        ensures
            r == (self.lookup(tile_id@) matches Some(e) && e.state is Loaded),
    {
        let k = tile_id.key();
        match self.cache.get(&k) {
            Some(e) => matches!(e.state, TileEntry::Loaded(_)),
            None => false,
        }
    }

    /// The image and allocation of an allocated tile; the entry, if any, is marked as
    /// used at `now_ms`.
    pub fn get_drawable(&mut self, tile_id: &TileId, now_ms: u64) -> (r: Option<(Handle, Allocation)>)
        ensures
            r is Some <==> (old(self).lookup(tile_id@) matches Some(e) && e.state is Allocated),
            final(self)@ == touch(old(self)@, tile_key(tile_id@), now_ms),
            final(self).spec_source() == old(self).spec_source(),
            final(self).last_prune() == old(self).last_prune(),
    {
        let k = tile_id.key();
        match self.cache.remove(&k) {
            Some(e) => {
                let r = match &e.state {
                    TileEntry::Allocated(h, a) => Some((h.clone(), a.clone())),
                    _ => None,
                };
                self.cache.insert(k, CacheEntry { state: e.state, last_used_ms: now_ms });
                r
            },
            None => None,
        }
    }

    /// Handles one message at time `now_ms` and returns the commands it calls for.
    pub fn update(&mut self, msg: CacheMessage, now_ms: u64) -> (r: Vec<Command>)
        ensures
            msg is Prune ==> old(self).pruned_into(*final(self), now_ms),
            !(msg is Prune) ==> final(self)@ == transition(old(self)@, msg, now_ms),
            !(msg is Prune) ==> final(self).last_prune() == old(self).last_prune(),
            final(self).spec_source() == old(self).spec_source(),
            old(self).follow_ups(final(self)@, msg, r@),
    {
        let mut out: Vec<Command> = Vec::new();
        match msg {
            CacheMessage::LoadTile { id } => {
                if self.should_load(&id, now_ms) {
                    let k = id.key();
                    self.cache.insert(k, CacheEntry { state: TileEntry::Loading, last_used_ms: now_ms });
                    let url = self.source.tile_url(id);
                    out.push(Command::Fetch { id, url });
                    if self.cache.len() > PRUNE_THRESHOLD {
                        out.push(Command::Send(CacheMessage::Prune));
                    }
                }
            },
            CacheMessage::TileLoaded { id, handle } => {
                let k = id.key();
                if let Some(e) = self.cache.remove(&k) {
                    if matches!(e.state, TileEntry::Loading) {
                        self.cache.insert(k, CacheEntry { state: TileEntry::Loaded(handle), last_used_ms: e.last_used_ms });
                        out.push(Command::Send(CacheMessage::AllocateTile { id }));
                    } else {
                        self.cache.insert(k, e);
                    }
                }
            },
            CacheMessage::TileLoadFailed { id } => {
                let k = id.key();
                if let Some(e) = self.cache.remove(&k) {
                    if !matches!(e.state, TileEntry::Loading) {
                        self.cache.insert(k, e);
                    }
                }
            },
            CacheMessage::AllocateTile { id } => {
                let k = id.key();
                if let Some(e) = self.cache.remove(&k) {
                    let last_used_ms = e.last_used_ms;
                    match e.state {
                        TileEntry::Loaded(h) => {
                            let handle = h.clone();
                            self.cache.insert(k, CacheEntry { state: TileEntry::Allocating(h), last_used_ms });
                            out.push(Command::Allocate { id, handle });
                        },
                        state => {
                            self.cache.insert(k, CacheEntry { state, last_used_ms });
                        },
                    }
                }
            },
            CacheMessage::TileAllocated { id, alloc } => {
                let k = id.key();
                if let Some(e) = self.cache.remove(&k) {
                    let last_used_ms = e.last_used_ms;
                    match e.state {
                        TileEntry::Allocating(h) | TileEntry::Loaded(h) => {
                            self.cache.insert(k, CacheEntry { state: TileEntry::Allocated(h, alloc), last_used_ms });
                            out.push(Command::SendAfter {
                                delay_ms: DEALLOCATE_DELAY_MS,
                                message: CacheMessage::DeallocateTile { id },
                            });
                        },
                        state => {
                            self.cache.insert(k, CacheEntry { state, last_used_ms });
                        },
                    }
                }
            },
            CacheMessage::TileAllocFailed { id, err } => {
                let k = id.key();
                if let Some(e) = self.cache.remove(&k) {
                    let last_used_ms = e.last_used_ms;
                    match e.state {
                        TileEntry::Allocating(h) => {
                            self.cache.insert(k, CacheEntry { state: TileEntry::Loaded(h), last_used_ms });
                        },
                        state => {
                            self.cache.insert(k, CacheEntry { state, last_used_ms });
                        },
                    }
                }
            },
            CacheMessage::DeallocateTile { id } => {
                let k = id.key();
                if let Some(e) = self.cache.remove(&k) {
                    let last_used_ms = e.last_used_ms;
                    match e.state {
                        TileEntry::Allocated(h, _) => {
                            self.cache.insert(k, CacheEntry { state: TileEntry::Loaded(h), last_used_ms });
                        },
                        state => {
                            self.cache.insert(k, CacheEntry { state, last_used_ms });
                        },
                    }
                }
            },
            CacheMessage::Prune => {
                self.prune(now_ms);
            },
        }
        out
    }

    /// Drops stale entries once the cache has grown past [`PRUNE_THRESHOLD`],
    /// at most once per [`PRUNE_COOLDOWN_MS`]; see [`TileCache::pruned_into`].
    pub fn prune(&mut self, now_ms: u64)
        ensures
            old(self).pruned_into(*final(self), now_ms),
    {
        let due = self.cache.len() > PRUNE_THRESHOLD && match self.last_prune_ms {
            None => true,
            Some(t) => now_ms >= t && now_ms - t >= PRUNE_COOLDOWN_MS,
        };
        if !due {
            return;
        }
        self.last_prune_ms = Some(now_ms);
        let mut keys: Vec<u128> = Vec::new();
        for k in it: self.cache.keys()
            invariant
                keys@ == it.seq().unref().take(it.index()),
                it.seq().unref().to_set() == self.cache@.dom(),
                it.index() == it.seq().len() ==> keys@ == it.seq().unref(),
        {
            keys.push(*k);
        }
        assert(forall|k: u128| self.cache@.contains_key(k) ==> keys@.contains(k));
        let ghost before = self.cache@;
        let mut i: usize = 0;
        while i < keys.len()
            invariant
                i <= keys.len(),
                forall|k: u128| before.contains_key(k) ==> keys@.contains(k),
                self.cache@.submap_of(before),
                forall|k: u128| #[trigger]
                    before.contains_key(k) && !self.cache@.contains_key(k) ==> prunable(k, before[k], now_ms),
                self.cache@.len() >= PRUNE_THRESHOLD,
                self.cache@.len() == PRUNE_THRESHOLD || forall|j: int|
                    0 <= j < i && #[trigger] self.cache@.contains_key(keys@[j])
                        ==> !prunable(keys@[j], self.cache@[keys@[j]], now_ms),
                self.source == old(self).source,
                self.last_prune_ms == Some(now_ms),
            decreases keys.len() - i,
        {
            let k = keys[i];
            if self.cache.len() > PRUNE_THRESHOLD {
                let drop = match self.cache.get(&k) {
                    Some(e) => Self::is_prunable(k, e, now_ms),
                    None => false,
                };
                if drop {
                    proof {
                        self.cache@.lemma_remove_key_len(k);
                    }
                    self.cache.remove(&k);
                }
            }
            i = i + 1;
        }
        proof {
            if self.cache@.len() != PRUNE_THRESHOLD {
                assert forall|k: u128| #[trigger] self.cache@.contains_key(k) implies !prunable(
                    k,
                    self.cache@[k],
                    now_ms,
                ) by {
                    assert(keys@.contains(k));
                    let j = choose|j: int| 0 <= j < keys@.len() && keys@[j] == k;
                    assert(self.cache@.contains_key(keys@[j]));
                }
            }
        }
    }

    fn is_prunable(k: u128, e: &CacheEntry, now_ms: u64) -> (r: bool)
        ensures
            r == prunable(k, *e, now_ms),
    {
        k / crate::tile::KEY_ZOOM_UNIT >= PROTECTED_ZOOM as u128
            && !matches!(e.state, TileEntry::Loading)
            && !matches!(e.state, TileEntry::Allocating(_))
            && now_ms > e.last_used_ms
            && now_ms - e.last_used_ms > RETENTION_MS
    }

    /// Whether tile `t` can be drawn right away.
    pub open spec fn drawable(self, t: TileSpec) -> bool {
        self.lookup(t) matches Some(e) && e.state is Allocated
    }

    /// Whether tile `t` has its bytes but no allocation.
    pub open spec fn loaded(self, t: TileSpec) -> bool {
        self.lookup(t) matches Some(e) && e.state is Loaded
    }

    /// The nearest strict ancestor of `t` that can be drawn.
    pub open spec fn drawable_ancestor(self, t: TileSpec) -> Option<TileSpec>
        decreases t.zoom,
    {
        if t.zoom == 0 {
            None
        } else if self.drawable(t.parent()) {
            Some(t.parent())
        } else {
            self.drawable_ancestor(t.parent())
        }
    }

    /// The strict ancestors of `t` visited while looking for a drawable one,
    /// nearest first, that have bytes but no allocation.
    pub open spec fn loaded_ancestors(self, t: TileSpec) -> Seq<TileSpec>
        decreases t.zoom,
    {
        if t.zoom == 0 {
            Seq::empty()
        } else {
            let p = t.parent();
            let here: Seq<TileSpec> = if self.loaded(p) { seq![p] } else { Seq::empty() };
            if self.drawable(p) {
                here
            } else {
                here + self.loaded_ancestors(p)
            }
        }
    }

    /// The children of `t` that can be drawn, in the order of [`TileId::children`].
    pub open spec fn drawable_children(self, t: TileSpec) -> Seq<TileSpec> {
        if t.zoom < MAX_TILE_ZOOM {
            seq![t.child(0, 0), t.child(1, 0), t.child(0, 1), t.child(1, 1)].filter(
                |c: TileSpec| self.drawable(c),
            )
        } else {
            Seq::empty()
        }
    }

    /// The plan for drawing tile `t`: the cached tiles that stand in for it,
    /// and the tiles that should be allocated for later frames.
    pub open spec fn spec_plan_draw(self, t: TileSpec) -> (Seq<TileSpec>, Seq<TileSpec>) {
        if self.drawable(t) {
            (seq![t], Seq::empty())
        } else {
            let own: Seq<TileSpec> = if self.loaded(t) { seq![t] } else { Seq::empty() };
            let children = self.drawable_children(t);
            if children.len() == 4 {
                (children, own)
            } else {
                let ancestor: Seq<TileSpec> = match self.drawable_ancestor(t) {
                    Some(a) => seq![a],
                    None => Seq::empty(),
                };
                (children + ancestor, own + self.loaded_ancestors(t))
            }
        }
    }

    /// Decides what to draw for the visible tile `tile_id`: the tile itself when it is
    /// allocated; otherwise its allocated children and, unless all four are, the nearest
    /// allocated ancestor. Loaded tiles met on the way are listed for allocation.
    pub fn plan_draw(&self, tile_id: &TileId) -> (r: DrawPlan)
        ensures
            specs_of(r.place@) == self.spec_plan_draw(tile_id@).0,
            specs_of(r.allocate@) == self.spec_plan_draw(tile_id@).1,
    {
        let mut place: Vec<TileId> = Vec::new();
        let mut allocate: Vec<TileId> = Vec::new();
        if self.is_drawable(tile_id) {
            place.push(*tile_id);
            proof {
                assert(specs_of(place@) =~= seq![tile_id@]);
                assert(specs_of(allocate@) =~= Seq::<TileSpec>::empty());
            }
            return DrawPlan { place, allocate };
        }
        if self.should_alloc(tile_id) {
            allocate.push(*tile_id);
        }
        let ghost own = specs_of(allocate@);
        proof {
            assert(own =~= (if self.loaded(tile_id@) { seq![tile_id@] } else { Seq::<TileSpec>::empty() }));
        }
        if tile_id.zoom() < MAX_TILE_ZOOM {
            let children = tile_id.children();
            let ghost cs = seq![children[0]@, children[1]@, children[2]@, children[3]@];
            let mut i: usize = 0;
            while i < 4
                invariant
                    i <= 4,
                    cs == seq![tile_id@.child(0, 0), tile_id@.child(1, 0), tile_id@.child(0, 1), tile_id@.child(1, 1)],
                    forall|j: int| 0 <= j < 4 ==> #[trigger] children[j]@ == cs[j],
                    specs_of(place@) == cs.take(i as int).filter(|c: TileSpec| self.drawable(c)),
                    specs_of(allocate@) == own,
                decreases 4 - i,
            {
                proof {
                    reveal_with_fuel(Seq::filter, 1);
                    assert(cs.take(i + 1).drop_last() =~= cs.take(i as int));
                }
                if self.is_drawable(&children[i]) {
                    place.push(children[i]);
                }
                proof {
                    assert(specs_of(place@) =~= cs.take(i + 1).filter(|c: TileSpec| self.drawable(c)));
                }
                i = i + 1;
            }
            proof {
                assert(cs.take(4) =~= cs);
            }
            if place.len() == 4 {
                return DrawPlan { place, allocate };
            }
        } else {
            proof {
                assert(specs_of(place@) =~= self.drawable_children(tile_id@));
            }
        }
        let ghost children_part = specs_of(place@);
        let mut cur = *tile_id;
        loop
            invariant_except_break
                specs_of(place@) == children_part,
            invariant
                cur@.zoom <= tile_id@.zoom,
                self.drawable_ancestor(tile_id@) == self.drawable_ancestor(cur@),
                own + self.loaded_ancestors(tile_id@) == specs_of(allocate@) + self.loaded_ancestors(cur@),
            ensures
                specs_of(place@) == children_part + match self.drawable_ancestor(tile_id@) {
                    Some(a) => seq![a],
                    None => Seq::<TileSpec>::empty(),
                },
                specs_of(allocate@) == own + self.loaded_ancestors(tile_id@),
            decreases cur@.zoom,
        {
            match cur.downsample() {
                None => {
                    proof {
                        assert(specs_of(place@) =~= children_part + Seq::<TileSpec>::empty());
                        assert(specs_of(allocate@) =~= specs_of(allocate@) + Seq::<TileSpec>::empty());
                    }
                    break;
                },
                Some(p) => {
                    let ghost prev = specs_of(allocate@);
                    if self.should_alloc(&p) {
                        allocate.push(p);
                    }
                    let ghost here: Seq<TileSpec> = if self.loaded(p@) { seq![p@] } else { Seq::empty() };
                    proof {
                        assert(specs_of(allocate@) =~= prev + here);
                    }
                    if self.is_drawable(&p) {
                        place.push(p);
                        proof {
                            assert(specs_of(place@) =~= children_part + seq![p@]);
                        }
                        break;
                    }
                    proof {
                        assert(prev + here + self.loaded_ancestors(p@) =~= prev + (here + self.loaded_ancestors(p@)));
                    }
                    cur = p;
                },
            }
        }
        DrawPlan { place, allocate }
    }

    /// The image and allocation of an allocated tile, without marking it as used.
    pub fn peek_drawable(&self, tile_id: &TileId) -> (r: Option<(Handle, Allocation)>)
        ensures
            r is Some <==> self.drawable(tile_id@),
    {
        let k = tile_id.key();
        match self.cache.get(&k) {
            Some(e) => match &e.state {
                TileEntry::Allocated(h, a) => Some((h.clone(), a.clone())),
                _ => None,
            },
            None => None,
        }
    }

    /// Whether `tile_id` is allocated, without marking it as used.
    fn is_drawable(&self, tile_id: &TileId) -> (r: bool)
        ensures
            r == self.drawable(tile_id@),
    {
        let k = tile_id.key();
        match self.cache.get(&k) {
            Some(e) => matches!(e.state, TileEntry::Allocated(..)),
            None => false,
        }
    }
}

} // verus!
