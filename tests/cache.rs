use shortforge::cache::LruFrameCache;

#[test]
fn test_lru_cache_basic() {
    let mut cache = LruFrameCache::new(3);

    cache.put(100, vec![1, 2, 3]);
    cache.put(200, vec![4, 5, 6]);
    cache.put(300, vec![7, 8, 9]);

    assert_eq!(cache.len(), 3);
    assert_eq!(cache.get(100), Some(&vec![1, 2, 3]));
}

#[test]
fn test_lru_cache_eviction() {
    let mut cache = LruFrameCache::new(2);

    cache.put(100, vec![1]);
    cache.put(200, vec![2]);
    cache.put(300, vec![3]); // Should evict 100

    assert!(cache.get(100).is_none());
    assert_eq!(cache.get(200), Some(&vec![2]));
    assert_eq!(cache.get(300), Some(&vec![3]));
}

#[test]
fn test_lru_cache_access_updates_order() {
    let mut cache = LruFrameCache::new(2);

    cache.put(100, vec![1]);
    cache.put(200, vec![2]);

    // Access 100 to make it more recent
    cache.get(100);

    cache.put(300, vec![3]); // Should evict 200 (least recently used)

    assert_eq!(cache.get(100), Some(&vec![1]));
    assert!(cache.get(200).is_none());
    assert_eq!(cache.get(300), Some(&vec![3]));
}

#[test]
fn lru_overwrite_clear_and_zero_capacity() {
    let mut cache = LruFrameCache::new(2);
    cache.put(1, vec![1]);
    cache.put(1, vec![9]);
    assert_eq!(cache.len(), 1);
    assert_eq!(cache.get(1), Some(&vec![9]));
    cache.clear();
    assert_eq!(cache.len(), 0);
    assert!(cache.get(1).is_none());

    let mut tiny = LruFrameCache::new(0);
    tiny.put(5, vec![5]);
    tiny.put(6, vec![6]);
    assert_eq!(tiny.len(), 1);
    assert!(tiny.get(5).is_none());
    assert_eq!(tiny.get(6), Some(&vec![6]));
}
