use rustycache::cleaner::{CleanerAction, CleanerEvent, CleanerState};
use rustycache::clock::Span;
use rustycache::rustycache::Rustycache;
use rustycache::strategy::StrategyType;

fn lfu_cache(capacity: usize, ttl_secs: u64, interval_secs: u64) -> Rustycache<String> {
    Rustycache::new(
        capacity,
        Span::from_secs(ttl_secs),
        Span::from_secs(interval_secs),
        StrategyType::LFU,
    )
}

#[test]
fn lfu_tests_test_put_and_get_basic() {
    let mut cache = lfu_cache(2, 5, 60);
    cache.put(1, "value1".to_string());
    assert_eq!(cache.get(&1), Some("value1".to_string()));
    assert!(cache.contains(&1));
    assert_eq!(cache.len(), 1);
}

#[test]
fn test_update_value_and_frequency() {
    let mut cache = lfu_cache(2, 5, 60);
    cache.put(1, "value1".to_string());
    assert_eq!(cache.get(&1), Some("value1".to_string()));

    cache.put(1, "value2".to_string());
    assert_eq!(cache.frequency(&1), Some(2));
    assert_eq!(cache.get(&1), Some("value2".to_string()));
    assert_eq!(cache.frequency(&1), Some(3));
}

#[test]
fn test_lfu_eviction() {
    let mut cache = lfu_cache(2, 5, 60);
    cache.put(1, "A".to_string());
    cache.put(2, "B".to_string());
    cache.get(&1);

    cache.put(3, "C".to_string());

    assert!(cache.get(&1).is_some());
    assert!(cache.get(&2).is_none());
    assert!(cache.get(&3).is_some());
}

#[test]
fn lfu_tests_test_expiration_behavior() {
    let mut cache = lfu_cache(2, 1, 60);
    cache.put_at(7, "expire_me".to_string(), 0);

    assert_eq!(cache.get_at(&7, 0), Some("expire_me".to_string()));

    assert_eq!(cache.get_at(&7, 2_000), None);
    assert!(!cache.contains(&7));
}

#[test]
fn lfu_tests_test_remove_and_clear() {
    let mut cache = lfu_cache(3, 5, 60);
    cache.put(1, "1".to_string());
    cache.put(2, "2".to_string());
    cache.put(3, "3".to_string());

    cache.remove(&2);
    assert_eq!(cache.get(&2), None);
    assert_eq!(cache.len(), 2);

    cache.clear();
    assert_eq!(cache.len(), 0);
    assert!(cache.is_empty());
}

#[test]
fn lfu_tests_test_cleaner_removes_expired() {
    let mut cache = lfu_cache(2, 1, 1);
    cache.put_at(1, "v1".to_string(), 0);

    assert_eq!(cache.on_cleaner_event(0, CleanerEvent::Tick, 2_000), CleanerAction::Sweep);

    assert_eq!(cache.len(), 0);
    assert_eq!(cache.get_at(&1, 2_000), None);
    assert_eq!(cache.keys_in_order(), Vec::<u64>::new());
}

#[test]
fn test_stop_cleaner_no_panic() {
    let mut cache = lfu_cache(2, 1, 1);
    cache.stop_cleaner();
    assert_eq!(cache.cleaner(0).unwrap().state, CleanerState::Stopped);
    assert_eq!(cache.on_cleaner_event(0, CleanerEvent::Tick, 0), CleanerAction::Terminate);
}

#[test]
fn lfu_tests_test_start_cleaner_does_not_panic() {
    let mut cache = lfu_cache(2, 1, 1);
    let id = cache.start_cleaner(Span::from_secs(1));
    assert_eq!(cache.cleaner(id).unwrap().state, CleanerState::Running);
}

#[test]
fn lfu_eviction_after_two_reads() {
    let mut cache = lfu_cache(2, 5, 60);
    cache.put_at(1, "A".to_string(), 0);
    cache.put_at(2, "B".to_string(), 0);
    cache.get_at(&1, 1);
    cache.get_at(&1, 2);
    assert_eq!(cache.frequency(&1), Some(3));
    assert_eq!(cache.frequency(&2), Some(1));
    assert_eq!(cache.keys_in_order(), vec![2, 1]);
    cache.put_at(3, "C".to_string(), 3);
    assert_eq!(cache.keys_in_order(), vec![3, 1]);
    assert_eq!(cache.get_at(&2, 4), None);
    assert!(cache.get_at(&1, 4).is_some());
    assert!(cache.get_at(&3, 4).is_some());
}

#[test]
fn lfu_ties_leave_in_order_of_arrival() {
    let mut cache = lfu_cache(3, 5, 60);
    cache.put_at(10, "a".to_string(), 0);
    cache.put_at(20, "b".to_string(), 0);
    cache.put_at(30, "c".to_string(), 0);
    assert_eq!(cache.keys_in_order(), vec![10, 20, 30]);
    cache.get_at(&10, 1);
    assert_eq!(cache.keys_in_order(), vec![20, 30, 10]);
    cache.get_at(&20, 1);
    assert_eq!(cache.keys_in_order(), vec![30, 10, 20]);
    cache.get_at(&30, 1);
    assert_eq!(cache.keys_in_order(), vec![10, 20, 30]);
    cache.put_at(40, "d".to_string(), 2);
    assert_eq!(cache.keys_in_order(), vec![40, 20, 30]);
    assert!(!cache.contains(&10));
    assert_eq!(cache.frequency(&40), Some(1));
}

#[test]
fn lfu_read_keeps_deadline_and_write_renews_it() {
    let mut cache = lfu_cache(2, 1, 60);
    cache.put_at(1, "a".to_string(), 0);
    assert_eq!(cache.expires_at(&1), Some(1_000));
    cache.get_at(&1, 500);
    assert_eq!(cache.expires_at(&1), Some(1_000));
    cache.put_at(1, "b".to_string(), 700);
    assert_eq!(cache.expires_at(&1), Some(1_700));
    assert_eq!(cache.frequency(&1), Some(2));
    assert_eq!(cache.get_at(&1, 1_699), Some("b".to_string()));
    assert_eq!(cache.get_at(&1, 1_700), None);
}

#[test]
fn lfu_write_to_expired_key_revives_it() {
    let mut cache = lfu_cache(2, 1, 60);
    cache.put_at(1, "a".to_string(), 0);
    cache.put_at(1, "b".to_string(), 5_000);
    assert_eq!(cache.frequency(&1), Some(1));
    assert_eq!(cache.get_at(&1, 5_500), Some("b".to_string()));
}
