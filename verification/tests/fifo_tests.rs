use rustycache::cleaner::{CleanerAction, CleanerEvent, CleanerState};
use rustycache::clock::Span;
use rustycache::rustycache::Rustycache;
use rustycache::strategy::StrategyType;

fn fifo_cache(capacity: usize, ttl_secs: u64, clean_interval_secs: u64) -> Rustycache<String> {
    Rustycache::new(
        capacity,
        Span::from_secs(ttl_secs),
        Span::from_secs(clean_interval_secs),
        StrategyType::FIFO,
    )
}

#[test]
fn fifo_tests_test_put_and_get_basic() {
    let mut cache = fifo_cache(2, 5, 60);
    cache.put(1, "value1".to_string());

    assert_eq!(cache.get(&1), Some("value1".to_string()));
    assert!(cache.contains(&1));
    assert_eq!(cache.len(), 1);
    assert!(!cache.is_empty());
}

#[test]
fn test_put_does_not_update_existing_value() {
    let mut cache = fifo_cache(2, 5, 60);
    cache.put(1, "value1".to_string());
    cache.put(1, "value2".to_string());

    assert_eq!(cache.get(&1), Some("value1".to_string()));
}

#[test]
fn test_fifo_eviction_order() {
    let mut cache = fifo_cache(2, 5, 60);
    cache.put(1, "A".to_string());
    cache.put(2, "B".to_string());
    cache.put(3, "C".to_string());

    assert!(!cache.contains(&1));
    assert!(cache.contains(&2));
    assert!(cache.contains(&3));
    assert_eq!(cache.len(), 2);
}

#[test]
fn test_expiration_removes_entry() {
    let mut cache = fifo_cache(2, 1, 60);
    cache.put_at(7, "expire_me".to_string(), 10_000);

    assert_eq!(cache.get_at(&7, 10_000), Some("expire_me".to_string()));

    assert_eq!(cache.get_at(&7, 12_000), None);
    assert!(!cache.contains(&7));
}

#[test]
fn fifo_tests_test_remove_and_clear() {
    let mut cache = fifo_cache(3, 5, 60);
    cache.put(1, "1".to_string());
    cache.put(2, "2".to_string());
    cache.put(3, "3".to_string());

    cache.remove(&2);
    assert_eq!(cache.get(&2), None);
    assert_eq!(cache.len(), 2);

    cache.clear();
    assert_eq!(cache.len(), 0);
    assert!(cache.is_empty());
}

#[test]
fn fifo_tests_test_cleaner_removes_expired() {
    let mut cache = fifo_cache(2, 1, 1);
    cache.put_at(1, "v1".to_string(), 0);

    let action = cache.on_cleaner_event(0, CleanerEvent::Tick, 2_000);
    assert_eq!(action, CleanerAction::Sweep);

    assert_eq!(cache.len(), 0);
    assert_eq!(cache.get_at(&1, 2_000), None);
}

#[test]
fn fifo_tests_test_stop_cleaner_does_not_panic() {
    let mut cache = fifo_cache(2, 1, 1);
    cache.stop_cleaner();
    assert_eq!(cache.cleaner(0).unwrap().state, CleanerState::Stopped);
    assert_eq!(cache.cleaner(1), None);
}

#[test]
fn fifo_tests_test_start_cleaner_does_not_panic() {
    let mut cache = fifo_cache(2, 1, 1);
    let id = cache.start_cleaner(Span::from_secs(1));
    assert_eq!(id, 1);
    assert_eq!(cache.cleaner(1).unwrap().state, CleanerState::Running);
    assert_eq!(cache.cleaner(1).unwrap().interval, Span::from_millis(1000));
}

#[test]
fn fifo_read_does_not_renew_or_reorder() {
    let mut cache = fifo_cache(2, 1, 60);
    cache.put_at(1, "A".to_string(), 0);
    cache.put_at(2, "B".to_string(), 100);
    assert_eq!(cache.get_at(&1, 500), Some("A".to_string()));
    assert_eq!(cache.expires_at(&1), Some(1_000));
    assert_eq!(cache.keys_in_order(), vec![1, 2]);
    cache.put_at(3, "C".to_string(), 600);
    assert_eq!(cache.keys_in_order(), vec![2, 3]);
    assert_eq!(cache.get_at(&2, 1_100), None);
    assert_eq!(cache.keys_in_order(), vec![3]);
}

#[test]
fn fifo_duplicate_put_keeps_deadline() {
    let mut cache = fifo_cache(2, 1, 60);
    cache.put_at(1, "1".to_string(), 0);
    cache.put_at(1, "2".to_string(), 900);
    assert_eq!(cache.expires_at(&1), Some(1_000));
    assert_eq!(cache.get_at(&1, 999), Some("1".to_string()));
    assert_eq!(cache.get_at(&1, 1_000), None);
    assert_eq!(cache.len(), 0);
}
