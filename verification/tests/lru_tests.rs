use rustycache::cleaner::{CleanerAction, CleanerEvent, CleanerState};
use rustycache::clock::Span;
use rustycache::rustycache::Rustycache;
use rustycache::strategy::StrategyType;

fn lru_facade(capacity: usize, ttl_secs: u64, interval_secs: u64) -> Rustycache<String> {
    Rustycache::new(
        capacity,
        Span::from_secs(ttl_secs),
        Span::from_secs(interval_secs),
        StrategyType::LRU,
    )
}

#[test]
fn test_insert_and_get() {
    let mut cache = lru_facade(2, 5, 60);
    cache.put(1, "value1".to_string());

    assert_eq!(cache.get(&1), Some("value1".to_string()));
    assert!(cache.contains(&1));
    assert_eq!(cache.len(), 1);
}

#[test]
fn lru_tests_test_lru_eviction() {
    let mut cache = lru_facade(2, 5, 60);
    cache.put(1, "A".to_string());
    cache.put(2, "B".to_string());
    cache.get(&1);
    cache.put(3, "C".to_string());

    assert!(cache.get(&1).is_some());
    assert!(cache.get(&2).is_none());
    assert!(cache.get(&3).is_some());
}

#[test]
fn lru_tests_test_expiration_behavior() {
    let mut cache = lru_facade(2, 1, 60);
    cache.put_at(7, "expire_me".to_string(), 0);

    assert_eq!(cache.get_at(&7, 0), Some("expire_me".to_string()));

    assert_eq!(cache.get_at(&7, 2_000), None);
}

#[test]
fn test_clear_and_remove() {
    let mut cache = lru_facade(3, 5, 60);
    cache.put(1, "1".to_string());
    cache.put(2, "2".to_string());
    cache.put(3, "3".to_string());

    cache.remove(&2);
    assert_eq!(cache.get(&2), None);
    assert_eq!(cache.len(), 2);

    cache.clear();
    assert_eq!(cache.len(), 0);
    assert!(cache.is_empty());
}

#[test]
fn lru_tests_test_cleaner_removes_expired() {
    let mut cache = lru_facade(2, 1, 1);
    cache.put_at(1, "v1".to_string(), 0);

    assert_eq!(cache.on_cleaner_event(0, CleanerEvent::Tick, 2_000), CleanerAction::Sweep);

    assert_eq!(cache.len(), 0);
    assert_eq!(cache.get_at(&1, 2_000), None);
}

#[test]
fn test_eviction_order_preserved() {
    let mut cache = lru_facade(3, 5, 60);
    cache.put(1, "v1".to_string());
    cache.put(2, "v2".to_string());
    cache.put(3, "v3".to_string());

    cache.get(&1);

    cache.put(4, "v4".to_string());

    assert!(cache.get(&1).is_some());
    assert!(cache.get(&2).is_none());
}

#[test]
fn lru_tests_test_stop_cleaner_does_not_panic() {
    let mut cache = lru_facade(2, 1, 1);
    cache.stop_cleaner();
    assert_eq!(cache.cleaner(0).unwrap().state, CleanerState::Stopped);
    assert_eq!(cache.cleaner(1), None);
}

#[test]
fn lru_tests_test_start_cleaner_does_not_panic() {
    let mut cache = lru_facade(2, 1, 1);
    let id = cache.start_cleaner(Span::from_secs(1));
    assert_eq!(id, 1);
    assert_eq!(cache.cleaner(id).unwrap().state, CleanerState::Running);
}

#[test]
fn lru_order_moves_with_reads_and_writes() {
    let mut cache = lru_facade(3, 5, 60);
    cache.put_at(1, "a".to_string(), 0);
    cache.put_at(2, "b".to_string(), 0);
    cache.put_at(3, "c".to_string(), 0);
    assert_eq!(cache.keys_in_order(), vec![3, 2, 1]);
    cache.get_at(&1, 1);
    assert_eq!(cache.keys_in_order(), vec![1, 3, 2]);
    cache.put_at(3, "c2".to_string(), 2);
    assert_eq!(cache.keys_in_order(), vec![3, 1, 2]);
    assert_eq!(cache.len(), 3);
    cache.put_at(4, "d".to_string(), 3);
    assert_eq!(cache.keys_in_order(), vec![4, 3, 1]);
    assert_eq!(cache.get_at(&3, 4), Some("c2".to_string()));
}

#[test]
fn lru_sweep_keeps_live_keys_in_order() {
    let mut cache = lru_facade(4, 1, 1);
    cache.put_at(1, "a".to_string(), 0);
    cache.put_at(2, "b".to_string(), 500);
    cache.put_at(3, "c".to_string(), 100);
    cache.put_at(4, "d".to_string(), 900);
    cache.purge_expired(1_100);
    assert_eq!(cache.keys_in_order(), vec![4, 2]);
    assert_eq!(cache.len(), 2);
    assert!(!cache.contains(&1));
    assert!(!cache.contains(&3));
    cache.purge_expired(1_500);
    assert_eq!(cache.keys_in_order(), vec![4]);
}
