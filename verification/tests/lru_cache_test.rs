use rustycache::cleaner::CleanerState;
use rustycache::clock::Span;
use rustycache::lru_cache::LRUCache;
use rustycache::strategy::CacheStrategy;

#[test]
fn test_put_and_get() {
    let mut cache = LRUCache::new(2, Span::from_secs(60), Span::from_secs(10));
    cache.put(1, 1);
    cache.put(2, 2);

    assert_eq!(cache.get(&1), Some(1));
    assert_eq!(cache.get(&2), Some(2));
}

#[test]
fn lru_cache_test_test_lru_eviction() {
    let mut cache = LRUCache::new(2, Span::from_secs(60), Span::from_secs(10));
    cache.put(1, 1);
    cache.put(2, 2);
    cache.put(3, 3);

    assert_eq!(cache.get(&1), None);
    assert_eq!(cache.get(&2), Some(2));
    assert_eq!(cache.get(&3), Some(3));
}

#[test]
fn test_ttl_expiration() {
    let mut cache = LRUCache::new(2, Span::from_millis(100), Span::from_millis(50));
    cache.put_at(1, 1, 0);

    assert_eq!(cache.get_at(&1, 150), None);
    assert_eq!(cache.len(), 0);
}

#[test]
fn test_manual_remove() {
    let mut cache = LRUCache::new(2, Span::from_secs(60), Span::from_secs(10));
    cache.put(24, 99);
    assert!(cache.contains(&24));
    cache.remove(&24);
    assert!(!cache.contains(&24));
}

#[test]
fn test_ttl_refresh_on_access() {
    let mut cache = LRUCache::new(2, Span::from_millis(200), Span::from_millis(50));
    cache.put_at(24, 42, 0);
    assert_eq!(cache.get_at(&24, 100), Some(42));
    assert_eq!(cache.expires_at(&24), Some(300));
    assert_eq!(cache.get_at(&24, 200), Some(42));
    assert_eq!(cache.expires_at(&24), Some(400));
}

#[test]
fn test_stop_cleaner() {
    let mut cache = LRUCache::new(2, Span::from_millis(100), Span::from_millis(10));
    cache.put(1, 123);
    cache.stop_cleaner();
    assert_eq!(cache.cleaner(0).unwrap().state, CleanerState::Stopped);
    assert_eq!(cache.cleaner(0).unwrap().interval, Span::from_millis(10));
    assert!(cache.contains(&1));
}
