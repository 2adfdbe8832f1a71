use rustycache::cleaner::{Cleaner, CleanerAction, CleanerEvent, CleanerSet, CleanerState};
use rustycache::clock::{deadline, is_live, Span};
use rustycache::rustycache::Rustycache;
use rustycache::strategy::fifo::FIFOCache;
use rustycache::strategy::lfu::LFUCache;
use rustycache::strategy::CacheStrategy;
use rustycache::strategy::StrategyType;

fn every_policy() -> Vec<StrategyType> {
    vec![StrategyType::LRU, StrategyType::FIFO, StrategyType::LFU]
}

fn sorted(mut keys: Vec<u64>) -> Vec<u64> {
    keys.sort();
    keys
}

#[test]
fn len_never_exceeds_capacity() {
    for policy in every_policy() {
        let mut cache: Rustycache<u64> =
            Rustycache::new(3, Span::from_secs(60), Span::from_secs(1), policy);
        for step in 0..40u64 {
            let key = (step * 7) % 11;
            cache.put_at(key, step, step as i64);
            assert!(cache.len() <= 3);
            assert!(cache.contains(&key));
            if step % 3 == 0 {
                cache.get_at(&((step * 5) % 11), step as i64);
            }
        }
        assert_eq!(cache.len(), 3);
        assert_eq!(cache.capacity(), 3);
    }
}

#[test]
fn order_holds_exactly_the_stored_keys() {
    for policy in every_policy() {
        let mut cache: Rustycache<u64> =
            Rustycache::new(4, Span::from_millis(50), Span::from_secs(1), policy);
        for step in 0..60u64 {
            let key = (step * 5) % 9;
            match step % 4 {
                0 | 1 => cache.put_at(key, step, step as i64),
                2 => {
                    cache.get_at(&key, step as i64 + 20);
                },
                _ => cache.remove(&key),
            }
            let keys = cache.keys_in_order();
            assert_eq!(keys.len(), cache.len());
            let distinct = sorted(keys.clone());
            for pair in distinct.windows(2) {
                assert!(pair[0] < pair[1]);
            }
            for k in 0..9u64 {
                assert_eq!(cache.contains(&k), keys.contains(&k));
            }
        }
    }
}

#[test]
fn expired_entry_is_dropped_on_read() {
    for policy in every_policy() {
        let mut cache: Rustycache<u64> =
            Rustycache::new(2, Span::from_millis(100), Span::from_secs(60), policy);
        cache.put_at(5, 55, 1_000);
        assert_eq!(cache.expires_at(&5), Some(1_100));
        assert_eq!(cache.get_at(&5, 1_150), None);
        assert_eq!(cache.len(), 0);
        assert!(cache.is_empty());
    }
}

#[test]
fn deadline_is_the_last_live_instant_plus_one() {
    for policy in every_policy() {
        let mut cache: Rustycache<u64> =
            Rustycache::new(2, Span::from_millis(100), Span::from_secs(60), policy);
        cache.put_at(5, 55, 0);
        assert!(cache.get_at(&5, 99).is_some());
        cache.clear();
        cache.put_at(5, 55, 0);
        assert!(cache.get_at(&5, 100).is_none());
    }
}

#[test]
fn sliding_lifetime_is_for_recency_only() {
    let mut lru: Rustycache<u64> =
        Rustycache::new(2, Span::from_millis(200), Span::from_secs(60), StrategyType::LRU);
    lru.put_at(1, 42, 0);
    assert_eq!(lru.get_at(&1, 100), Some(42));
    assert_eq!(lru.get_at(&1, 200), Some(42));
    for policy in [StrategyType::FIFO, StrategyType::LFU] {
        let mut other: Rustycache<u64> =
            Rustycache::new(2, Span::from_millis(200), Span::from_secs(60), policy);
        other.put_at(1, 42, 0);
        assert_eq!(other.get_at(&1, 100), Some(42));
        assert_eq!(other.get_at(&1, 200), None);
    }
}

#[test]
fn sweep_without_any_read() {
    for policy in every_policy() {
        let mut cache: Rustycache<u64> =
            Rustycache::new(2, Span::from_secs(1), Span::from_secs(1), policy);
        cache.put_at(9, 1, 0);
        assert_eq!(cache.on_cleaner_event(0, CleanerEvent::Tick, 999), CleanerAction::Sweep);
        assert_eq!(cache.len(), 1);
        assert_eq!(cache.on_cleaner_event(0, CleanerEvent::Tick, 2_000), CleanerAction::Sweep);
        assert_eq!(cache.len(), 0);
        assert!(cache.keys_in_order().is_empty());
    }
}

#[test]
fn read_after_clear_finds_nothing() {
    for policy in every_policy() {
        let mut cache: Rustycache<u64> =
            Rustycache::new(3, Span::from_secs(60), Span::from_secs(1), policy);
        cache.put_at(1, 10, 0);
        cache.put_at(2, 20, 0);
        cache.clear();
        assert_eq!(cache.len(), 0);
        assert!(cache.is_empty());
        assert_eq!(cache.get_at(&1, 1), None);
        assert_eq!(cache.get_at(&2, 1), None);
        assert_eq!(cache.get(&1), None);
        assert!(cache.keys_in_order().is_empty());
    }
}

#[test]
fn removing_an_absent_key_changes_nothing() {
    for policy in every_policy() {
        let mut cache: Rustycache<u64> =
            Rustycache::new(3, Span::from_secs(60), Span::from_secs(1), policy);
        cache.put_at(1, 10, 0);
        cache.put_at(2, 20, 0);
        let before = cache.keys_in_order();
        cache.remove(&3);
        cache.remove(&3);
        assert_eq!(cache.len(), 2);
        assert_eq!(cache.keys_in_order(), before);
        assert_eq!(cache.get_at(&1, 1), Some(10));
    }
}

#[test]
fn contains_sees_expired_entries_and_changes_nothing() {
    for policy in every_policy() {
        let mut cache: Rustycache<u64> =
            Rustycache::new(2, Span::from_millis(10), Span::from_secs(1), policy);
        cache.put_at(1, 10, 0);
        cache.put_at(2, 20, 0);
        let before = cache.keys_in_order();
        assert!(cache.contains(&1));
        assert_eq!(cache.keys_in_order(), before);
        assert_eq!(cache.frequency(&1), cache.frequency(&2));
    }
}

#[test]
fn new_cache_is_empty_with_one_running_task() {
    for policy in every_policy() {
        let cache: Rustycache<String> =
            Rustycache::new(5, Span::from_secs(2), Span::from_millis(250), policy);
        assert_eq!(cache.strategy(), policy);
        assert_eq!(cache.capacity(), 5);
        assert_eq!(cache.ttl(), Span::from_millis(2_000));
        assert_eq!(cache.len(), 0);
        assert!(cache.is_empty());
        let running = Cleaner { state: CleanerState::Running, interval: Span::from_millis(250) };
        assert_eq!(cache.cleaner(0), Some(running));
        assert_eq!(cache.cleaner(1), None);
    }
}

#[test]
fn engine_alone_starts_one_task() {
    let cache: FIFOCache<u64> = FIFOCache::new(1, Span::from_secs(1), Span::from_secs(3));
    assert_eq!(cache.cleaner(0).unwrap().interval.as_millis(), 3_000);
    assert_eq!(cache.cleaner(1), None);
    let cache: LFUCache<u64> = LFUCache::new(1, Span::from_secs(1), Span::from_secs(3));
    assert_eq!(cache.cleaner(0).unwrap().state, CleanerState::Running);
    assert_eq!(cache.cleaner(1), None);
}

#[test]
fn capacity_one_keeps_the_newest_key() {
    for policy in every_policy() {
        let mut cache: Rustycache<u64> =
            Rustycache::new(1, Span::from_secs(60), Span::from_secs(1), policy);
        cache.put_at(1, 10, 0);
        cache.put_at(2, 20, 0);
        assert_eq!(cache.keys_in_order(), vec![2]);
        assert_eq!(cache.get_at(&2, 1), Some(20));
        assert_eq!(cache.get_at(&1, 1), None);
    }
}

#[test]
fn cleaner_step_table() {
    let mut c = Cleaner::new(Span::from_millis(5));
    assert!(c.is_running());
    assert_eq!(c.step(CleanerEvent::Tick), CleanerAction::Sweep);
    assert!(c.is_running());
    assert_eq!(c.step(CleanerEvent::Stop), CleanerAction::Terminate);
    assert!(!c.is_running());
    assert_eq!(c.step(CleanerEvent::Tick), CleanerAction::Terminate);
    assert_eq!(c.state, CleanerState::Stopped);
    assert_eq!(c.interval, Span::from_millis(5));
}

#[test]
fn stopped_tasks_stay_stopped_and_new_ones_run() {
    let mut set = CleanerSet::new();
    assert_eq!(set.count(), 0);
    assert_eq!(set.start(Span::from_millis(1)), 0);
    assert_eq!(set.start(Span::from_millis(2)), 1);
    set.stop_all();
    assert_eq!(set.start(Span::from_millis(3)), 2);
    assert_eq!(set.count(), 3);
    assert_eq!(set.step(0, CleanerEvent::Tick), CleanerAction::Terminate);
    assert_eq!(set.step(1, CleanerEvent::Tick), CleanerAction::Terminate);
    assert_eq!(set.step(2, CleanerEvent::Tick), CleanerAction::Sweep);
    assert_eq!(set.step(9, CleanerEvent::Tick), CleanerAction::Terminate);
    assert_eq!(set.step(2, CleanerEvent::Stop), CleanerAction::Terminate);
    assert_eq!(set.get(2).unwrap().state, CleanerState::Stopped);
    assert_eq!(set.get(2).unwrap().interval, Span::from_millis(3));
    assert_eq!(set.get(3), None);
}

#[test]
fn unknown_task_number_leaves_the_store_alone() {
    let mut cache: Rustycache<u64> =
        Rustycache::new(2, Span::from_millis(10), Span::from_secs(1), StrategyType::LRU);
    cache.put_at(1, 10, 0);
    let second = cache.start_cleaner(Span::from_secs(1));
    assert_eq!(second, 1);
    assert_eq!(cache.on_cleaner_event(7, CleanerEvent::Tick, 5_000), CleanerAction::Terminate);
    assert_eq!(cache.len(), 1);
    assert_eq!(cache.on_cleaner_event(0, CleanerEvent::Stop, 5_000), CleanerAction::Terminate);
    assert_eq!(cache.len(), 1);
    assert_eq!(cache.cleaner(0).unwrap().state, CleanerState::Stopped);
    assert_eq!(cache.cleaner(1).unwrap().state, CleanerState::Running);
}

#[test]
fn deadline_and_liveness_values() {
    assert_eq!(deadline(1_000, Span::from_millis(500)), 1_500);
    assert_eq!(deadline(-10, Span::from_millis(4)), -6);
    assert_eq!(
        deadline(i64::MAX, Span::from_millis(u64::MAX)),
        i64::MAX as i128 + u64::MAX as i128
    );
    assert!(is_live(1_500, 1_499));
    assert!(!is_live(1_500, 1_500));
    assert!(!is_live(1_500, 1_501));
    assert_eq!(Span::from_secs(3).as_millis(), 3_000);
    assert_eq!(Span::from_millis(7).millis, 7);
}

#[test]
fn clock_writes_give_a_deadline_in_the_present() {
    let mut cache: Rustycache<u64> =
        Rustycache::new(2, Span::from_secs(60), Span::from_secs(1), StrategyType::FIFO);
    cache.put(1, 10);
    let d = cache.expires_at(&1).unwrap();
    // 2020-01-01 in milliseconds since the epoch, plus the lifetime
    assert!(d > 1_577_836_800_000 + 60_000);
    assert_eq!(cache.get(&1), Some(10));
}

#[test]
fn engines_through_the_common_operations() {
    let mut cache: LFUCache<String> = LFUCache::new(2, Span::from_secs(60), Span::from_secs(1));
    cache.put(1, "a".to_string());
    cache.put(2, "b".to_string());
    assert_eq!(cache.get(&2), Some("b".to_string()));
    cache.put(3, "c".to_string());
    assert!(!cache.contains(&1));
    assert_eq!(cache.len(), 2);
    assert!(!cache.is_empty());
    cache.remove(&2);
    assert_eq!(cache.keys_in_order(), vec![3]);
    cache.clear();
    assert!(cache.is_empty());
    assert_eq!(cache.capacity(), 2);
    assert_eq!(cache.ttl(), Span::from_millis(60_000));
}
