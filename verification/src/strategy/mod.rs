//! The operations that every eviction policy offers, and what holds of all
//! of them whatever the policy.

pub mod fifo;
pub mod lfu;
pub mod lru;

use vstd::prelude::*;
use crate::clock::Span;

verus! {

/// Which eviction policy a cache runs.
#[derive(Clone, Copy, Debug, PartialEq, Eq, Structural)]
pub enum StrategyType {
    LRU,
    FIFO,
    LFU,
}

/// A bounded key/value store with an order index that decides which key
/// leaves when the store is full.
pub trait CacheStrategy<V> {
    /// The engine's invariant; every operation keeps it.
    spec fn inv(&self) -> bool;

    /// The keys that the store holds.
    spec fn keys(&self) -> Set<u64>;

    /// The keys that the order index holds.
    spec fn indexed(&self) -> Set<u64>;

    /// The largest number of keys that the store may hold.
    spec fn limit(&self) -> nat;

    /// In every valid state the store holds at most `limit` keys, and the
    /// order index holds exactly the keys of the store.
    proof fn lemma_bounded_and_in_step(&self)
        requires
            self.inv(),
        ensures
            self.keys().finite(),
            self.keys().len() <= self.limit(),
            self.keys() == self.indexed(),
    ;

    /// Stores `value` under `key` at the current time. Afterwards the key is
    /// held, and no key was added but this one.
    fn put(&mut self, key: u64, value: V)
        requires
            old(self).inv(),
        ensures
            final(self).inv(),
            final(self).limit() == old(self).limit(),
            final(self).keys().contains(key),
            final(self).keys().subset_of(old(self).keys().insert(key)),
            final(self).keys().len() <= final(self).limit(),
    ;

    /// Reads `key` at the current time. A value comes back only for a key
    /// that was held, and then the key set is unchanged; otherwise the key
    /// is no longer held afterwards.
    fn get(&mut self, key: &u64) -> (r: Option<V>)
        requires
            old(self).inv(),
        ensures
            final(self).inv(),
            final(self).limit() == old(self).limit(),
            r.is_some() ==> old(self).keys().contains(*key),
            final(self).keys() == if r.is_some() {
                old(self).keys()
            } else {
                old(self).keys().remove(*key)
            },
    ;

    /// Drops `key`; nothing changes where it is not held.
    fn remove(&mut self, key: &u64)
        requires
            old(self).inv(),
        ensures
            final(self).inv(),
            final(self).limit() == old(self).limit(),
            final(self).keys() == old(self).keys().remove(*key),
            !old(self).keys().contains(*key) ==> final(self).keys() == old(self).keys(),
    ;

    /// Whether `key` is held, expired or not. Changes nothing.
    fn contains(&self, key: &u64) -> (r: bool)
        requires
            self.inv(),
        ensures
            r == self.keys().contains(*key),
    ;

    /// The number of keys held.
    fn len(&self) -> (n: usize)
        requires
            self.inv(),
        ensures
            n == self.keys().len(),
            n <= self.limit(),
    ;

    /// Whether no key is held.
    fn is_empty(&self) -> (r: bool)
        requires
            self.inv(),
        ensures
            r == (self.keys().len() == 0),
            r == (self.keys() == Set::<u64>::empty()),
    ;

    /// Drops every key.
    fn clear(&mut self)
        requires
            old(self).inv(),
        ensures
            final(self).inv(),
            final(self).limit() == old(self).limit(),
            final(self).keys() == Set::<u64>::empty(),
    ;

    /// Registers a fresh running sweep task with the given period and gives
    /// its number. The store is left alone.
    fn start_cleaner(&mut self, interval: Span) -> (id: usize)
        requires
            old(self).inv(),
        ensures
            final(self).inv(),
            final(self).limit() == old(self).limit(),
            final(self).keys() == old(self).keys(),
    ;

    /// Asks every sweep task to stop. The store is left alone.
    fn stop_cleaner(&mut self)
        requires
            old(self).inv(),
        ensures
            final(self).inv(),
            final(self).limit() == old(self).limit(),
            final(self).keys() == old(self).keys(),
    ;
}

} // verus!
