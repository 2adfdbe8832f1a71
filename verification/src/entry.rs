//! What the store keeps for a key.

use vstd::prelude::*;

verus! {

/// A stored value with the instant at which it expires and, under the
/// frequency policy, the number of times it was used.
pub struct Entry<V> {
    pub value: V,
    pub expires_at: i128,
    pub frequency: Option<u64>,
}

impl<V> Entry<V> {
    /// An entry is live while its deadline lies strictly after `now`.
    pub open spec fn live_at(self, now: i64) -> bool {
        self.expires_at > now
    }

    /// The use count, 0 where the policy keeps none.
    pub open spec fn uses(self) -> u64 {
        match self.frequency {
            Some(f) => f,
            None => 0,
        }
    }
}

/// The part of `store` that is still live at `now`.
pub open spec fn live_part<V>(store: Map<u64, Entry<V>>, now: i64) -> Map<u64, Entry<V>> {
    Map::new(|k: u64| store.contains_key(k) && store[k].live_at(now), |k: u64| store[k])
}

/// Holds of the keys whose entry in `store` is still live at `now`.
pub open spec fn is_live_key<V>(store: Map<u64, Entry<V>>, now: i64) -> spec_fn(u64) -> bool {
    |k: u64| store.contains_key(k) && store[k].live_at(now)
}

/// The deadline that `store` holds for `key`, if it holds the key.
pub open spec fn deadline_in<V>(store: Map<u64, Entry<V>>, key: u64) -> Option<i128> {
    if store.contains_key(key) {
        Some(store[key].expires_at)
    } else {
        None
    }
}

/// The use count that `store` holds for `key`, if it holds the key and
/// counts its uses.
pub open spec fn frequency_in<V>(store: Map<u64, Entry<V>>, key: u64) -> Option<u64> {
    if store.contains_key(key) {
        store[key].frequency
    } else {
        None
    }
}

/// A read of `key` at `now` finds a value: the key is stored and still live.
pub open spec fn hit<V>(store: Map<u64, Entry<V>>, key: u64, now: i64) -> bool {
    store.contains_key(key) && store[key].live_at(now)
}

/// The use count after one more use: one higher, held at the largest count.
pub open spec fn bumped(frequency: u64) -> u64 {
    if frequency < u64::MAX {
        (frequency + 1) as u64
    } else {
        frequency
    }
}

} // verus!
