use iced_core::image::Handle;
use slippery::tile_cache::PRUNE_THRESHOLD;
use slippery::{CacheMessage, Command, OpenStreetMap, TileCache, TileEntry, TileId};

fn bytes() -> Handle {
    Handle::from_bytes(vec![1u8, 2, 3])
}

#[test]
fn load_creates_a_loading_entry_and_a_fetch() {
    let mut cache = TileCache::new(OpenStreetMap);
    let id = TileId::new(3, 4, 5);
    assert!(cache.should_load(&id, 0));
    let cmds = cache.update(CacheMessage::LoadTile { id }, 10);
    assert_eq!(cmds.len(), 1);
    match &cmds[0] {
        Command::Fetch { id: fetched, url } => {
            assert_eq!(*fetched, id);
            assert_eq!(url, "https://tile.openstreetmap.org/5/3/4.png");
        }
        other => panic!("unexpected command {other:?}"),
    }
    assert!(!cache.should_load(&id, 20));
    assert!(!cache.should_alloc(&id));
    // A second load of the same tile does nothing.
    assert!(cache.update(CacheMessage::LoadTile { id }, 30).is_empty());
}

#[test]
fn loaded_bytes_ask_for_allocation() {
    let mut cache = TileCache::new(OpenStreetMap);
    let id = TileId::new(1, 1, 2);
    cache.update(CacheMessage::LoadTile { id }, 0);
    let cmds = cache.update(CacheMessage::TileLoaded { id, handle: bytes() }, 5);
    assert_eq!(cmds.len(), 1);
    assert!(matches!(&cmds[0], Command::Send(CacheMessage::AllocateTile { id: i }) if *i == id));
    assert!(cache.should_alloc(&id));
    assert!(cache.get_drawable(&id, 6).is_none());

    let cmds = cache.update(CacheMessage::AllocateTile { id }, 7);
    assert_eq!(cmds.len(), 1);
    assert!(matches!(&cmds[0], Command::Allocate { id: i, .. } if *i == id));
    assert!(!cache.should_alloc(&id));
    // Allocation is requested once: the entry is now allocating.
    assert!(cache.update(CacheMessage::AllocateTile { id }, 8).is_empty());

    let cmds = cache.update(
        CacheMessage::TileAllocFailed { id, err: iced_core::image::Error::OutOfMemory },
        9,
    );
    assert!(cmds.is_empty());
    assert!(cache.should_alloc(&id));
}

#[test]
fn stale_bytes_are_ignored() {
    let mut cache = TileCache::new(OpenStreetMap);
    let id = TileId::new(0, 0, 1);
    let cmds = cache.update(CacheMessage::TileLoaded { id, handle: bytes() }, 0);
    assert!(cmds.is_empty());
    assert!(cache.should_load(&id, 1));
}

#[test]
fn failed_load_removes_the_entry() {
    let mut cache = TileCache::new(OpenStreetMap);
    let id = TileId::new(2, 3, 4);
    cache.update(CacheMessage::LoadTile { id }, 0);
    assert!(cache.update(CacheMessage::TileLoadFailed { id }, 1).is_empty());
    assert!(cache.should_load(&id, 2));

    // A failure reported for a tile that already has its bytes changes nothing.
    cache.update(CacheMessage::LoadTile { id }, 3);
    cache.update(CacheMessage::TileLoaded { id, handle: bytes() }, 4);
    cache.update(CacheMessage::TileLoadFailed { id }, 5);
    assert!(cache.should_alloc(&id));
}

#[test]
fn deallocate_without_allocation_is_a_no_op() {
    let mut cache = TileCache::new(OpenStreetMap);
    let id = TileId::new(2, 2, 3);
    cache.update(CacheMessage::LoadTile { id }, 0);
    cache.update(CacheMessage::TileLoaded { id, handle: bytes() }, 1);
    assert!(cache.update(CacheMessage::DeallocateTile { id }, 2).is_empty());
    assert!(cache.should_alloc(&id));
}

fn fill(cache: &mut TileCache<OpenStreetMap>, zoom: u8, count: u32, at: u64) -> Vec<TileId> {
    let edge = slippery::total_tiles(zoom);
    let mut ids = Vec::new();
    for i in 0..count {
        let id = TileId::new(i % edge, i / edge, zoom);
        cache.update(CacheMessage::LoadTile { id }, at);
        cache.update(CacheMessage::TileLoaded { id, handle: bytes() }, at);
        ids.push(id);
    }
    ids
}

#[test]
fn growing_past_the_threshold_schedules_a_prune() {
    let mut cache = TileCache::new(OpenStreetMap);
    fill(&mut cache, 10, PRUNE_THRESHOLD as u32, 0);
    let id = TileId::new(0, 0, 12);
    let cmds = cache.update(CacheMessage::LoadTile { id }, 0);
    assert_eq!(cmds.len(), 2);
    assert!(matches!(&cmds[1], Command::Send(CacheMessage::Prune)));
}

#[test]
fn prune_drops_stale_entries_down_to_the_threshold() {
    let mut cache = TileCache::new(OpenStreetMap);
    let low = fill(&mut cache, 4, 200, 0);
    let stale = fill(&mut cache, 10, 1000, 0);
    let in_flight = TileId::new(5, 5, 14);
    cache.update(CacheMessage::LoadTile { id: in_flight }, 0);

    cache.update(CacheMessage::Prune, 120_000);

    let mut kept_stale = 0;
    for id in &stale {
        if !cache.should_load(id, 120_001) {
            kept_stale += 1;
        }
    }
    // 1201 entries, 200 protected by zoom, 1 in flight: 177 stale ones go.
    assert_eq!(kept_stale, 1000 - 177);
    for id in &low {
        assert!(!cache.should_load(id, 120_002));
    }
    assert!(!cache.should_load(&in_flight, 120_003));
}

#[test]
fn prune_keeps_recent_entries_and_respects_cooldown() {
    let mut cache = TileCache::new(OpenStreetMap);
    let ids = fill(&mut cache, 10, 1100, 0);
    // Everything was used within the retention window: nothing goes.
    cache.update(CacheMessage::Prune, 59_000);
    // Now the entries are stale, but the last prune was too recent.
    cache.update(CacheMessage::Prune, 62_000);
    // The cooldown has passed: the cache shrinks back to the threshold.
    cache.update(CacheMessage::Prune, 64_000);
    let kept = ids.iter().filter(|id| !cache.should_load(id, 64_001)).count();
    assert_eq!(kept, PRUNE_THRESHOLD);
}

#[test]
fn prune_waits_for_the_cooldown() {
    let mut cache = TileCache::new(OpenStreetMap);
    let ids = fill(&mut cache, 10, 1100, 0);
    cache.update(CacheMessage::Prune, 59_000);
    cache.update(CacheMessage::Prune, 62_000);
    let kept = ids.iter().filter(|id| !cache.should_load(id, 62_001)).count();
    assert_eq!(kept, 1100);
}

#[test]
fn unused_entries_are_not_pruned_below_the_threshold() {
    let mut cache = TileCache::new(OpenStreetMap);
    let ids = fill(&mut cache, 10, 10, 0);
    cache.update(CacheMessage::Prune, 1_000_000);
    assert!(ids.iter().all(|id| !cache.should_load(id, 1_000_000)));
}

#[test]
fn draw_plan_requests_allocation_of_loaded_tiles() {
    let mut cache = TileCache::new(OpenStreetMap);
    let tile = TileId::new(5, 6, 4);
    let parent = tile.downsample().unwrap();
    let root = TileId::new(0, 0, 0);
    for id in [tile, parent, root] {
        cache.update(CacheMessage::LoadTile { id }, 0);
    }
    cache.update(CacheMessage::TileLoaded { id: tile, handle: bytes() }, 1);
    cache.update(CacheMessage::TileLoaded { id: root, handle: bytes() }, 1);

    let plan = cache.plan_draw(&tile);
    assert!(plan.place.is_empty());
    assert_eq!(plan.allocate, vec![tile, root]);

    let unknown = TileId::new(1, 1, 1);
    let plan = cache.plan_draw(&unknown);
    assert!(plan.place.is_empty());
    assert_eq!(plan.allocate, vec![root]);
}
