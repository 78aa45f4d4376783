use slippery::{DrawCache, TileId};

#[test]
fn draw_order_is_coarse_to_fine() {
    let mut cache: DrawCache<&str> = DrawCache::new();
    cache.insert(TileId::new(5, 1, 3), "fine");
    cache.insert(TileId::new(0, 0, 0), "root");
    cache.insert(TileId::new(1, 0, 1), "coarse-east");
    cache.insert(TileId::new(0, 1, 1), "coarse-south");
    let order: Vec<(u32, u32, u8)> = cache
        .iter_tiles()
        .iter()
        .map(|t| (t.x(), t.y(), t.zoom()))
        .collect();
    assert_eq!(order, vec![(0, 0, 0), (0, 1, 1), (1, 0, 1), (5, 1, 3)]);
}

#[test]
fn insert_replaces_and_remove_returns_data() {
    let mut cache: DrawCache<u32> = DrawCache::new();
    let t = TileId::new(2, 2, 2);
    assert!(!cache.contains_key(&t));
    cache.insert(t, 1);
    cache.insert(t, 2);
    assert!(cache.contains_key(&t));
    assert_eq!(cache.get(&t), Some(&2));
    assert_eq!(cache.iter_tiles().len(), 1);
    assert_eq!(cache.remove(&t), Some(2));
    assert_eq!(cache.remove(&t), None);
    assert!(cache.get(&t).is_none());
    assert!(cache.iter_tiles().is_empty());
}
