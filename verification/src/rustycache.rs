//! The cache as callers see it: one of the three engines, chosen when the
//! cache is made, behind one set of operations.
//!
//! Whatever the policy, the state is a store and an order over its keys.
//! What the order means is the policy's business: recency, most recent
//! first; arrival, oldest first; or use count, fewest uses first.

use vstd::prelude::*;
use crate::cleaner::Cleaner;
use crate::cleaner::CleanerAction;
use crate::cleaner::CleanerEvent;
use crate::cleaner::CleanerState;
use crate::cleaner::action_of;
use crate::cleaner::all_stopped;
use crate::cleaner::stepped;
use crate::cleaner::task_at;
use crate::clock::Span;
use crate::clock::deadline_of;
use crate::clock::now_millis;
use crate::entry::Entry;
use crate::entry::deadline_in;
use crate::entry::frequency_in;
use crate::entry::hit;
use crate::entry::is_live_key;
use crate::entry::live_part;
use crate::keyseq::in_step;
use crate::keyseq::lemma_absent_key;
use crate::keyseq::lemma_in_step_len;
use crate::keyseq::without;
use crate::strategy::fifo::FIFOCache;
use crate::strategy::fifo::fifo_put_queue;
use crate::strategy::fifo::fifo_put_store;
use crate::strategy::lfu::LFUCache;
use crate::strategy::lfu::lfu_hit_ranking;
use crate::strategy::lfu::lfu_hit_store;
use crate::strategy::lfu::lfu_put_ranking;
use crate::strategy::lfu::lfu_put_store;
use crate::strategy::lru::LRUCache;
use crate::strategy::lru::lru_put_order;
use crate::strategy::lru::lru_put_store;
use crate::strategy::CacheStrategy;
use crate::strategy::StrategyType;

verus! {

/// The key order after a write of `key` under `policy`.
pub open spec fn put_order<V>(
    policy: StrategyType,
    store: Map<u64, Entry<V>>,
    order: Seq<u64>,
    capacity: nat,
    key: u64,
) -> Seq<u64> {
    match policy {
        StrategyType::LRU => lru_put_order(order, capacity, key),
        StrategyType::FIFO => fifo_put_queue(order, capacity, key),
        StrategyType::LFU => lfu_put_ranking(store, order, capacity, key),
    }
}

/// The store after a write of `key` under `policy`, with the deadline
/// `expires_at` for what is written.
pub open spec fn put_store<V>(
    policy: StrategyType,
    store: Map<u64, Entry<V>>,
    order: Seq<u64>,
    capacity: nat,
    key: u64,
    value: V,
    expires_at: i128,
) -> Map<u64, Entry<V>> {
    match policy {
        StrategyType::LRU => lru_put_store(
            store,
            order,
            capacity,
            key,
            Entry { value, expires_at, frequency: None },
        ),
        StrategyType::FIFO => fifo_put_store(
            store,
            order,
            capacity,
            key,
            Entry { value, expires_at, frequency: None },
        ),
        StrategyType::LFU => lfu_put_store(store, order, capacity, key, value, expires_at),
    }
}

/// The key order after a read of `key` at `now` under `policy`. A miss takes
/// the key out; a hit moves it to the front under recency, leaves it in
/// place under arrival order, and moves it up by one use under use count.
pub open spec fn get_order<V>(
    policy: StrategyType,
    store: Map<u64, Entry<V>>,
    order: Seq<u64>,
    key: u64,
    now: i64,
) -> Seq<u64> {
    if !hit(store, key, now) {
        without(order, key)
    } else {
        match policy {
            StrategyType::LRU => seq![key] + without(order, key),
            StrategyType::FIFO => order,
            StrategyType::LFU => lfu_hit_ranking(store, order, key),
        }
    }
}

/// The store after a read of `key` at `now` under `policy`. A miss drops the
/// key; a hit renews the deadline under recency, changes nothing under
/// arrival order, and counts one more use under use count.
pub open spec fn get_store<V>(
    policy: StrategyType,
    store: Map<u64, Entry<V>>,
    key: u64,
    now: i64,
    ttl: Span,
) -> Map<u64, Entry<V>> {
    if !hit(store, key, now) {
        store.remove(key)
    } else {
        match policy {
            StrategyType::LRU => store.insert(
                key,
                Entry {
                    value: store[key].value,
                    expires_at: deadline_of(now, ttl) as i128,
                    frequency: store[key].frequency,
                },
            ),
            StrategyType::FIFO => store,
            StrategyType::LFU => lfu_hit_store(store, key),
        }
    }
}

enum Engine<V> {
    Lru(LRUCache<V>),
    Fifo(FIFOCache<V>),
    Lfu(LFUCache<V>),
}

/// A bounded cache with per-entry lifetime and a policy chosen at
/// construction.
pub struct Rustycache<V> {
    inner: Engine<V>,
}

impl<V: Clone> Rustycache<V> {
    /// The policy that the cache runs.
    pub closed spec fn policy(&self) -> StrategyType {
        match self.inner {
            Engine::Lru(_) => StrategyType::LRU,
            Engine::Fifo(_) => StrategyType::FIFO,
            Engine::Lfu(_) => StrategyType::LFU,
        }
    }

    /// The stored entries by key.
    pub closed spec fn store(&self) -> Map<u64, Entry<V>> {
        match self.inner {
            Engine::Lru(c) => c.store(),
            Engine::Fifo(c) => c.store(),
            Engine::Lfu(c) => c.store(),
        }
    }

    /// The policy's order over the stored keys.
    pub closed spec fn order(&self) -> Seq<u64> {
        match self.inner {
            Engine::Lru(c) => c.recency(),
            Engine::Fifo(c) => c.queue(),
            Engine::Lfu(c) => c.ranking(),
        }
    }

    /// The largest number of keys held at once.
    pub closed spec fn spec_capacity(&self) -> nat {
        match self.inner {
            Engine::Lru(c) => c.spec_capacity(),
            Engine::Fifo(c) => c.spec_capacity(),
            Engine::Lfu(c) => c.spec_capacity(),
        }
    }

    /// The lifetime that a stored entry gets.
    pub closed spec fn spec_ttl(&self) -> Span {
        match self.inner {
            Engine::Lru(c) => c.spec_ttl(),
            Engine::Fifo(c) => c.spec_ttl(),
            Engine::Lfu(c) => c.spec_ttl(),
        }
    }

    /// The sweep tasks started so far.
    pub closed spec fn tasks(&self) -> Seq<Cleaner> {
        match self.inner {
            Engine::Lru(c) => c.tasks(),
            Engine::Fifo(c) => c.tasks(),
            Engine::Lfu(c) => c.tasks(),
        }
    }

    /// The engine's own invariant.
    pub closed spec fn well_formed(&self) -> bool {
        match self.inner {
            Engine::Lru(c) => c.well_formed(),
            Engine::Fifo(c) => c.well_formed(),
            Engine::Lfu(c) => c.well_formed(),
        }
    }

    /// Policy, capacity, lifetime and sweep tasks are those of `other`.
    pub open spec fn same_setup(&self, other: &Self) -> bool {
        &&& self.policy() == other.policy()
        &&& self.spec_capacity() == other.spec_capacity()
        &&& self.spec_ttl() == other.spec_ttl()
        &&& self.tasks() == other.tasks()
    }

    /// Store and order are those of `other`.
    pub open spec fn same_content(&self, other: &Self) -> bool {
        &&& self.store() == other.store()
        &&& self.order() == other.order()
    }

    /// `post` is `pre` after a write of `key` at `now`.
    pub open spec fn put_at_post(pre: &Self, post: &Self, key: u64, value: V, now: i64) -> bool {
        &&& post.well_formed()
        &&& post.same_setup(pre)
        &&& post.order() == put_order(
            pre.policy(),
            pre.store(),
            pre.order(),
            pre.spec_capacity(),
            key,
        )
        &&& post.store() == put_store(
            pre.policy(),
            pre.store(),
            pre.order(),
            pre.spec_capacity(),
            key,
            value,
            deadline_of(now, pre.spec_ttl()) as i128,
        )
    }

    /// `post` and `r` are what a read of `key` at `now` makes of `pre`: a
    /// value comes back exactly for a key that is stored and live.
    pub open spec fn get_at_post(pre: &Self, post: &Self, key: u64, now: i64, r: Option<V>) -> bool {
        &&& post.well_formed()
        &&& post.same_setup(pre)
        &&& r.is_some() == hit(pre.store(), key, now)
        &&& r.is_some() ==> cloned(pre.store()[key].value, r.unwrap())
        &&& post.order() == get_order(pre.policy(), pre.store(), pre.order(), key, now)
        &&& post.store() == get_store(pre.policy(), pre.store(), key, now, pre.spec_ttl())
    }

    /// In every valid state the store and the order hold the same keys,
    /// each once, and no more of them than the capacity.
    pub proof fn lemma_bounded_and_in_step(&self)
        requires
            self.well_formed(),
        ensures
            in_step(self.store(), self.order()),
            self.store().len() == self.order().len(),
            self.store().len() <= self.spec_capacity(),
            self.spec_capacity() > 0,
    {
        lemma_in_step_len(self.store(), self.order());
    }

    /// A read of a cleared cache finds nothing, whatever the key and the
    /// time, and leaves the cache empty.
    pub proof fn lemma_get_after_clear(
        cleared: &Self,
        after: &Self,
        key: u64,
        now: i64,
        r: Option<V>,
    )
        requires
            cleared.store() == Map::<u64, Entry<V>>::empty(),
            Self::get_at_post(cleared, after, key, now, r),
        ensures
            r.is_none(),
            after.store() == Map::<u64, Entry<V>>::empty(),
            after.store().len() == 0,
    {
        assert(cleared.store().remove(key) =~= Map::<u64, Entry<V>>::empty());
    }

    /// Dropping a key that is not held changes neither the store nor the
    /// order nor the number of keys.
    pub proof fn lemma_remove_absent(pre: &Self, post: &Self, key: u64)
        requires
            pre.well_formed(),
            !pre.store().contains_key(key),
            post.store() == pre.store().remove(key),
            post.order() == without(pre.order(), key),
        ensures
            post.same_content(pre),
            post.store().len() == pre.store().len(),
    {
        pre.lemma_bounded_and_in_step();
        lemma_absent_key(pre.store(), pre.order(), key);
    }

    /// Under recency a live read renews the entry. The value and the other
    /// entries stay, the key comes to the front and the other keys keep
    /// their order, the number of keys stays, and the deadline becomes
    /// `now + ttl`: every read before that instant finds the key again.
    /// Where the old deadline was set at an instant `set_at` not after
    /// `now`, the new deadline is not the earlier one.
    pub proof fn lemma_live_read_renews(
        pre: &Self,
        post: &Self,
        key: u64,
        set_at: i64,
        now: i64,
        r: Option<V>,
    )
        requires
            pre.well_formed(),
            pre.policy() == StrategyType::LRU,
            hit(pre.store(), key, now),
            Self::get_at_post(pre, post, key, now, r),
            pre.store()[key].expires_at == deadline_of(set_at, pre.spec_ttl()),
            set_at <= now,
        ensures
            r.is_some(),
            cloned(pre.store()[key].value, r.unwrap()),
            post.store().dom() == pre.store().dom(),
            post.store().len() == pre.store().len(),
            post.store()[key].value == pre.store()[key].value,
            post.store()[key].expires_at == deadline_of(now, pre.spec_ttl()),
            post.store()[key].expires_at >= pre.store()[key].expires_at,
            forall|k: u64|
                k != key && #[trigger] pre.store().contains_key(k) ==> post.store()[k]
                    == pre.store()[k],
            post.order()[0] == key,
            post.order().skip(1) == without(pre.order(), key),
            forall|later: i64|
                later < deadline_of(now, pre.spec_ttl()) ==> #[trigger] hit(
                    post.store(),
                    key,
                    later,
                ),
    {
        assert(post.store().dom() =~= pre.store().dom());
        assert(post.order().skip(1) =~= without(pre.order(), key));
    }

    /// An empty cache for at most `cap` keys under the policy `strat`, with
    /// the engine's one sweep task running at period `clean_interval`.
    pub fn new(cap: usize, ttl: Span, clean_interval: Span, strat: StrategyType) -> (cache: Self)
        requires
            cap > 0,
        ensures
            cache.well_formed(),
            cache.policy() == strat,
            cache.store() == Map::<u64, Entry<V>>::empty(),
            cache.order() == Seq::<u64>::empty(),
            cache.spec_capacity() == cap,
            cache.spec_ttl() == ttl,
            cache.tasks() == seq![Cleaner { state: CleanerState::Running, interval: clean_interval }],
    {
        let inner = match strat {
            StrategyType::LRU => Engine::Lru(LRUCache::new(cap, ttl, clean_interval)),
            StrategyType::FIFO => Engine::Fifo(FIFOCache::new(cap, ttl, clean_interval)),
            StrategyType::LFU => Engine::Lfu(LFUCache::new(cap, ttl, clean_interval)),
        };
        Rustycache { inner }
    }

    /// The policy that the cache runs.
    pub fn strategy(&self) -> (s: StrategyType)
        ensures
            s == self.policy(),
    {
        match &self.inner {
            Engine::Lru(_) => StrategyType::LRU,
            Engine::Fifo(_) => StrategyType::FIFO,
            Engine::Lfu(_) => StrategyType::LFU,
        }
    }

    /// The largest number of keys held at once.
    pub fn capacity(&self) -> (c: usize)
        ensures
            c == self.spec_capacity(),
    {
        match &self.inner {
            Engine::Lru(c) => c.capacity(),
            Engine::Fifo(c) => c.capacity(),
            Engine::Lfu(c) => c.capacity(),
        }
    }

    /// The lifetime that a stored entry gets.
    pub fn ttl(&self) -> (t: Span)
        ensures
            t == self.spec_ttl(),
    {
        match &self.inner {
            Engine::Lru(c) => c.ttl(),
            Engine::Fifo(c) => c.ttl(),
            Engine::Lfu(c) => c.ttl(),
        }
    }

    /// Sweep task `id`, if there is one.
    pub fn cleaner(&self, id: usize) -> (c: Option<Cleaner>)
        ensures
            c == task_at(self.tasks(), id as int),
    {
        match &self.inner {
            Engine::Lru(c) => c.cleaner(id),
            Engine::Fifo(c) => c.cleaner(id),
            Engine::Lfu(c) => c.cleaner(id),
        }
    }

    /// The stored keys in the policy's order.
    pub fn keys_in_order(&self) -> (v: Vec<u64>)
        ensures
            v@ == self.order(),
    {
        match &self.inner {
            Engine::Lru(c) => c.keys_in_order(),
            Engine::Fifo(c) => c.keys_in_order(),
            Engine::Lfu(c) => c.keys_in_order(),
        }
    }

    /// The deadline of `key`, if the key is held.
    pub fn expires_at(&self, key: &u64) -> (d: Option<i128>)
        ensures
            d == deadline_in(self.store(), *key),
    {
        match &self.inner {
            Engine::Lru(c) => c.expires_at(key),
            Engine::Fifo(c) => c.expires_at(key),
            Engine::Lfu(c) => c.expires_at(key),
        }
    }

    /// The use count of `key`, if the key is held and its uses are counted.
    pub fn frequency(&self, key: &u64) -> (f: Option<u64>)
        ensures
            f == frequency_in(self.store(), *key),
    {
        match &self.inner {
            Engine::Lru(c) => c.frequency(key),
            Engine::Fifo(c) => c.frequency(key),
            Engine::Lfu(c) => c.frequency(key),
        }
    }

    /// Writes `key` at the instant `now`. However many writes came before,
    /// the store holds no more keys than the capacity afterwards.
    pub fn put_at(&mut self, key: u64, value: V, now: i64)
        requires
            old(self).well_formed(),
        ensures
            Self::put_at_post(old(self), final(self), key, value, now),
            final(self).store().contains_key(key),
            final(self).store().len() <= final(self).spec_capacity(),
    {
        proof {
            old(self).lemma_bounded_and_in_step();
        }
        match &mut self.inner {
            Engine::Lru(c) => c.put_at(key, value, now),
            Engine::Fifo(c) => c.put_at(key, value, now),
            Engine::Lfu(c) => c.put_at(key, value, now),
        }
        proof {
            self.lemma_bounded_and_in_step();
        }
    }

    /// Reads `key` at the instant `now`.
    pub fn get_at(&mut self, key: &u64, now: i64) -> (r: Option<V>)
        requires
            old(self).well_formed(),
        ensures
            Self::get_at_post(old(self), final(self), *key, now, r),
    {
        match &mut self.inner {
            Engine::Lru(c) => c.get_at(key, now),
            Engine::Fifo(c) => c.get_at(key, now),
            Engine::Lfu(c) => c.get_at(key, now),
        }
    }

    /// Writes `key` at the time the clock shows.
    pub fn put(&mut self, key: u64, value: V)
        requires
            old(self).well_formed(),
        ensures
            exists|now: i64| Self::put_at_post(old(self), final(self), key, value, now),
            final(self).store().contains_key(key),
            final(self).store().len() <= final(self).spec_capacity(),
    {
        let now: i64 = now_millis();
        self.put_at(key, value, now);
    }

    /// Reads `key` at the time the clock shows.
    pub fn get(&mut self, key: &u64) -> (r: Option<V>)
        requires
            old(self).well_formed(),
        ensures
            exists|now: i64| Self::get_at_post(old(self), final(self), *key, now, r),
            r.is_some() ==> old(self).store().contains_key(*key),
            r.is_none() ==> !final(self).store().contains_key(*key),
    {
        let now: i64 = now_millis();
        self.get_at(key, now)
    }

    /// Drops `key` from the store and from the order; nothing changes where
    /// it is not held.
    pub fn remove(&mut self, key: &u64)
        requires
            old(self).well_formed(),
        ensures
            final(self).well_formed(),
            final(self).same_setup(old(self)),
            final(self).store() == old(self).store().remove(*key),
            final(self).order() == without(old(self).order(), *key),
            !old(self).store().contains_key(*key) ==> final(self).same_content(old(self)),
    {
        match &mut self.inner {
            Engine::Lru(c) => c.remove(key),
            Engine::Fifo(c) => c.remove(key),
            Engine::Lfu(c) => c.remove(key),
        }
    }

    /// Whether `key` is held, expired or not. Changes nothing.
    pub fn contains(&self, key: &u64) -> (r: bool)
        requires
            self.well_formed(),
        ensures
            r == self.store().contains_key(*key),
    {
        match &self.inner {
            Engine::Lru(c) => c.contains(key),
            Engine::Fifo(c) => c.contains(key),
            Engine::Lfu(c) => c.contains(key),
        }
    }

    /// Asks every sweep task to stop. Store and order are left alone.
    pub fn stop_cleaner(&mut self)
        requires
            old(self).well_formed(),
        ensures
            final(self).well_formed(),
            final(self).same_content(old(self)),
            final(self).policy() == old(self).policy(),
            final(self).spec_capacity() == old(self).spec_capacity(),
            final(self).spec_ttl() == old(self).spec_ttl(),
            final(self).tasks() == all_stopped(old(self).tasks()),
    {
        match &mut self.inner {
            Engine::Lru(c) => c.stop_cleaner(),
            Engine::Fifo(c) => c.stop_cleaner(),
            Engine::Lfu(c) => c.stop_cleaner(),
        }
    }

    /// Registers a fresh running sweep task with the given period and gives
    /// its number. Store and order are left alone.
    pub fn start_cleaner(&mut self, interval: Span) -> (id: usize)
        requires
            old(self).well_formed(),
        ensures
            final(self).well_formed(),
            final(self).same_content(old(self)),
            final(self).policy() == old(self).policy(),
            final(self).spec_capacity() == old(self).spec_capacity(),
            final(self).spec_ttl() == old(self).spec_ttl(),
            final(self).tasks() == old(self).tasks().push(
                Cleaner { state: CleanerState::Running, interval },
            ),
            id == old(self).tasks().len(),
    {
        match &mut self.inner {
            Engine::Lru(c) => c.start_cleaner(interval),
            Engine::Fifo(c) => c.start_cleaner(interval),
            Engine::Lfu(c) => c.start_cleaner(interval),
        }
    }

    /// The number of keys held, never more than the capacity.
    pub fn len(&self) -> (n: usize)
        requires
            self.well_formed(),
        ensures
            n == self.store().len(),
            n == self.order().len(),
            n <= self.spec_capacity(),
    {
        proof {
            self.lemma_bounded_and_in_step();
        }
        match &self.inner {
            Engine::Lru(c) => c.len(),
            Engine::Fifo(c) => c.len(),
            Engine::Lfu(c) => c.len(),
        }
    }

    /// Whether no key is held.
    pub fn is_empty(&self) -> (r: bool)
        requires
            self.well_formed(),
        ensures
            r == (self.store().len() == 0),
            r == (self.store() == Map::<u64, Entry<V>>::empty()),
    {
        proof {
            if self.store().len() == 0 {
                self.store().dom().lemma_len0_is_empty();
                assert(self.store() =~= Map::<u64, Entry<V>>::empty());
            }
        }
        match &self.inner {
            Engine::Lru(c) => c.is_empty(),
            Engine::Fifo(c) => c.is_empty(),
            Engine::Lfu(c) => c.is_empty(),
        }
    }

    /// Drops every key from the store and from the order.
    pub fn clear(&mut self)
        requires
            old(self).well_formed(),
        ensures
            final(self).well_formed(),
            final(self).same_setup(old(self)),
            final(self).store() == Map::<u64, Entry<V>>::empty(),
            final(self).order() == Seq::<u64>::empty(),
    {
        match &mut self.inner {
            Engine::Lru(c) => c.clear(),
            Engine::Fifo(c) => c.clear(),
            Engine::Lfu(c) => c.clear(),
        }
    }

    /// Drops every entry that has expired at `now`; the keys that stay keep
    /// their order.
    pub fn purge_expired(&mut self, now: i64)
        requires
            old(self).well_formed(),
        ensures
            final(self).well_formed(),
            final(self).same_setup(old(self)),
            final(self).store() == live_part(old(self).store(), now),
            final(self).order() == old(self).order().filter(is_live_key(old(self).store(), now)),
    {
        match &mut self.inner {
            Engine::Lru(c) => c.purge_expired(now),
            Engine::Fifo(c) => c.purge_expired(now),
            Engine::Lfu(c) => c.purge_expired(now),
        }
    }

    /// Reports `event` to sweep task `id` at the instant `now`. A running
    /// task sweeps on a tick; in every other case the task ends and the
    /// store is left alone.
    pub fn on_cleaner_event(&mut self, id: usize, event: CleanerEvent, now: i64) -> (action:
        CleanerAction)
        requires
            old(self).well_formed(),
        ensures
            final(self).well_formed(),
            final(self).policy() == old(self).policy(),
            final(self).spec_capacity() == old(self).spec_capacity(),
            final(self).spec_ttl() == old(self).spec_ttl(),
            final(self).tasks() == stepped(old(self).tasks(), id as int, event),
            action == action_of(old(self).tasks(), id as int, event),
            action == CleanerAction::Sweep ==> final(self).store() == live_part(
                old(self).store(),
                now,
            ) && final(self).order() == old(self).order().filter(
                is_live_key(old(self).store(), now),
            ),
            action == CleanerAction::Terminate ==> final(self).same_content(old(self)),
    {
        match &mut self.inner {
            Engine::Lru(c) => c.on_cleaner_event(id, event, now),
            Engine::Fifo(c) => c.on_cleaner_event(id, event, now),
            Engine::Lfu(c) => c.on_cleaner_event(id, event, now),
        }
    }
}

} // verus!
