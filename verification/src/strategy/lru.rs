//! Least recently used: every write and every live read moves the key to
//! the front, and the key at the back leaves when the store is full. A live
//! read also renews the entry's lifetime.

use vstd::prelude::*;
use std::collections::HashMap;
use std::collections::VecDeque;
use crate::cleaner::Cleaner;
use crate::cleaner::CleanerAction;
use crate::cleaner::CleanerEvent;
use crate::cleaner::CleanerSet;
use crate::cleaner::CleanerState;
use crate::cleaner::action_of;
use crate::cleaner::all_stopped;
use crate::cleaner::stepped;
use crate::cleaner::task_at;
use crate::clock::Span;
use crate::clock::deadline;
use crate::clock::deadline_of;
use crate::clock::is_live;
use crate::clock::now_millis;
use crate::entry::Entry;
use crate::entry::deadline_in;
use crate::entry::frequency_in;
use crate::entry::hit;
use crate::entry::is_live_key;
use crate::entry::live_part;
use crate::keyseq::in_step;
use crate::keyseq::lemma_absent_key;
use crate::keyseq::lemma_add_fresh;
use crate::keyseq::lemma_drop_ends;
use crate::keyseq::lemma_in_step_len;
use crate::keyseq::lemma_without;
use crate::keyseq::sweep;
use crate::keyseq::take_out;
use crate::keyseq::to_vec;
use crate::keyseq::without;
use crate::strategy::CacheStrategy;

verus! {

/// The recency order after a write of `key`: the key moves, or comes, to
/// the front; a new key that finds the order full pushes out the key at the
/// back.
pub open spec fn lru_put_order(order: Seq<u64>, capacity: nat, key: u64) -> Seq<u64> {
    if order.contains(key) {
        seq![key] + without(order, key)
    } else if order.len() >= capacity {
        seq![key] + order.drop_last()
    } else {
        seq![key] + order
    }
}

/// The store after a write of `key`: the key gets `entry`; a new key that
/// finds the store full pushes out the key at the back of `order`.
pub open spec fn lru_put_store<V>(
    store: Map<u64, Entry<V>>,
    order: Seq<u64>,
    capacity: nat,
    key: u64,
    entry: Entry<V>,
) -> Map<u64, Entry<V>> {
    if store.contains_key(key) || order.len() < capacity {
        store.insert(key, entry)
    } else {
        store.remove(order.last()).insert(key, entry)
    }
}

/// A cache that evicts the key that went longest without use.
pub struct LRUCache<V> {
    capacity: usize,
    ttl: Span,
    map: HashMap<u64, Entry<V>>,
    order: VecDeque<u64>,
    cleaners: CleanerSet,
}

impl<V> LRUCache<V> {
    /// The stored entries by key.
    pub closed spec fn store(&self) -> Map<u64, Entry<V>> {
        self.map@
    }

    /// The keys by recency: the most recently used first, the least last.
    pub closed spec fn recency(&self) -> Seq<u64> {
        self.order@
    }

    /// The largest number of keys held at once.
    pub closed spec fn spec_capacity(&self) -> nat {
        self.capacity as nat
    }

    /// The lifetime that a stored entry gets.
    pub closed spec fn spec_ttl(&self) -> Span {
        self.ttl
    }

    /// The sweep tasks started so far.
    pub closed spec fn tasks(&self) -> Seq<Cleaner> {
        self.cleaners@
    }

    /// The store and the recency order hold the same keys, each once, and no more
    /// than the capacity.
    pub open spec fn well_formed(&self) -> bool {
        &&& self.spec_capacity() > 0
        &&& in_step(self.store(), self.recency())
        &&& self.recency().len() <= self.spec_capacity()
    }

    /// Capacity, lifetime and sweep tasks are those of `other`.
    pub open spec fn same_setup(&self, other: &Self) -> bool {
        &&& self.spec_capacity() == other.spec_capacity()
        &&& self.spec_ttl() == other.spec_ttl()
        &&& self.tasks() == other.tasks()
    }

    /// Store and recency order are those of `other`.
    pub open spec fn same_content(&self, other: &Self) -> bool {
        &&& self.store() == other.store()
        &&& self.recency() == other.recency()
    }

    /// `post` is `pre` after a write of `key` at `now`.
    pub open spec fn put_at_post(pre: &Self, post: &Self, key: u64, value: V, now: i64) -> bool {
        &&& post.well_formed()
        &&& post.same_setup(pre)
        &&& post.recency() == lru_put_order(pre.recency(), pre.spec_capacity(), key)
        &&& post.store() == lru_put_store(
            pre.store(),
            pre.recency(),
            pre.spec_capacity(),
            key,
            Entry { value, expires_at: deadline_of(now, pre.spec_ttl()) as i128, frequency: None },
        )
    }

    /// `post` and `r` are what a read of `key` at `now` makes of `pre`: a
    /// live entry gives its value, moves to the front and gets a new
    /// deadline; otherwise nothing comes back and the key is gone.
    pub open spec fn get_at_post(pre: &Self, post: &Self, key: u64, now: i64, r: Option<V>) -> bool
        where V: Clone
    {
        &&& post.well_formed()
        &&& post.same_setup(pre)
        &&& if hit(pre.store(), key, now) {
            &&& r.is_some()
            &&& cloned(pre.store()[key].value, r.unwrap())
            &&& post.store() == pre.store().insert(
                key,
                Entry {
                    value: pre.store()[key].value,
                    expires_at: deadline_of(now, pre.spec_ttl()) as i128,
                    frequency: pre.store()[key].frequency,
                },
            )
            &&& post.recency() == seq![key] + without(pre.recency(), key)
        } else {
            &&& r.is_none()
            &&& post.store() == pre.store().remove(key)
            &&& post.recency() == without(pre.recency(), key)
        }
    }

    /// A live read renews the entry. The value and the other
    /// entries stay, the key comes to the front and the other keys keep
    /// their order, the number of keys stays, and the deadline becomes
    /// `now + ttl`: every read before that instant finds the key again.
    /// Where the old deadline was set at an instant `set_at` not after
    /// `now`, the new deadline is not the earlier one.
    pub proof fn lemma_live_read_renews(
        pre: &Self,
        post: &Self,
        key: u64,
        set_at: i64,
        now: i64,
        r: Option<V>,
    ) where V: Clone
        requires
            pre.well_formed(),
            hit(pre.store(), key, now),
            Self::get_at_post(pre, post, key, now, r),
            pre.store()[key].expires_at == deadline_of(set_at, pre.spec_ttl()),
            set_at <= now,
        ensures
            r.is_some(),
            cloned(pre.store()[key].value, r.unwrap()),
            post.store().dom() == pre.store().dom(),
            post.store().len() == pre.store().len(),
            post.store()[key].value == pre.store()[key].value,
            post.store()[key].expires_at == deadline_of(now, pre.spec_ttl()),
            post.store()[key].expires_at >= pre.store()[key].expires_at,
            forall|k: u64|
                k != key && #[trigger] pre.store().contains_key(k) ==> post.store()[k]
                    == pre.store()[k],
            post.recency()[0] == key,
            post.recency().skip(1) == without(pre.recency(), key),
            forall|later: i64|
                later < deadline_of(now, pre.spec_ttl()) ==> #[trigger] hit(
                    post.store(),
                    key,
                    later,
                ),
    {
        assert(post.store().dom() =~= pre.store().dom());
        assert(post.recency().skip(1) =~= without(pre.recency(), key));
    }

    /// An empty cache for at most `capacity` keys, with one sweep task
    /// running at period `clean_interval`.
    pub fn new(capacity: usize, ttl: Span, clean_interval: Span) -> (cache: Self)
        requires
            capacity > 0,
        ensures
            cache.well_formed(),
            cache.store() == Map::<u64, Entry<V>>::empty(),
            cache.recency() == Seq::<u64>::empty(),
            cache.spec_capacity() == capacity,
            cache.spec_ttl() == ttl,
            cache.tasks() == seq![Cleaner { state: CleanerState::Running, interval: clean_interval }],
    {
        let mut cleaners = CleanerSet::new();
        cleaners.start(clean_interval);
        let cache = LRUCache {
            capacity,
            ttl,
            map: HashMap::new(),
            order: VecDeque::new(),
            cleaners,
        };
        proof {
            assert(cache.map@.dom() =~= cache.order@.to_set());
            assert(cache.cleaners@ =~= seq![Cleaner { state: CleanerState::Running, interval: clean_interval }]);
        }
        cache
    }

    /// The largest number of keys held at once.
    pub fn capacity(&self) -> (c: usize)
        ensures
            c == self.spec_capacity(),
    {
        self.capacity
    }

    /// The lifetime that a stored entry gets.
    pub fn ttl(&self) -> (t: Span)
        ensures
            t == self.spec_ttl(),
    {
        self.ttl
    }

    /// Sweep task `id`, if there is one.
    pub fn cleaner(&self, id: usize) -> (c: Option<Cleaner>)
        ensures
            c == task_at(self.tasks(), id as int),
    {
        self.cleaners.get(id)
    }

    /// The stored keys by recency, the most recently used first.
    pub fn keys_in_order(&self) -> (v: Vec<u64>)
        ensures
            v@ == self.recency(),
    {
        to_vec(&self.order)
    }

    /// The deadline of `key`, if the key is held.
    pub fn expires_at(&self, key: &u64) -> (d: Option<i128>)
        ensures
            d == deadline_in(self.store(), *key),
    {
        match self.map.get(key) {
            Some(entry) => Some(entry.expires_at),
            None => None,
        }
    }

    /// The use count of `key`, if the key is held and its uses are counted.
    pub fn frequency(&self, key: &u64) -> (f: Option<u64>)
        ensures
            f == frequency_in(self.store(), *key),
    {
        match self.map.get(key) {
            Some(entry) => entry.frequency,
            None => None,
        }
    }

    /// Writes `key` at the instant `now`.
    pub fn put_at(&mut self, key: u64, value: V, now: i64)
        requires
            old(self).well_formed(),
        ensures
            Self::put_at_post(old(self), final(self), key, value, now),
    {
        proof {
            lemma_without(self.order@, key);
            lemma_in_step_len(self.map@, self.order@);
        }
        if self.map.contains_key(&key) {
            take_out(&mut self.order, key);
        } else if self.order.len() >= self.capacity {
            proof {
                lemma_drop_ends(self.order@);
                lemma_without(self.order@, self.order@.last());
                assert(self.order@.drop_last() =~= self.order@.subrange(
                    0,
                    self.order@.len() as int - 1,
                ));
            }
            let oldest = self.order.pop_back();
            match oldest {
                Some(k) => {
                    self.map.remove(&k);
                },
                None => {},
            }
        }
        proof {
            assert(!self.order@.to_set().contains(key));
            lemma_add_fresh(self.order@, key);
        }
        self.order.push_front(key);
        let expires_at: i128 = deadline(now, self.ttl);
        self.map.insert(key, Entry { value, expires_at, frequency: None });
        proof {
            assert(self.map@.dom() =~= self.order@.to_set());
        }
    }

    /// Reads `key` at the instant `now`.
    pub fn get_at(&mut self, key: &u64, now: i64) -> (r: Option<V>) where V: Clone
        requires
            old(self).well_formed(),
        ensures
            Self::get_at_post(old(self), final(self), *key, now, r),
    {
        proof {
            lemma_without(self.order@, *key);
            lemma_in_step_len(self.map@, self.order@);
        }
        match self.map.remove(key) {
            Some(entry) => {
                take_out(&mut self.order, *key);
                if is_live(entry.expires_at, now) {
                    let out: V = entry.value.clone();
                    let expires_at: i128 = deadline(now, self.ttl);
                    proof {
                        assert(!self.order@.to_set().contains(*key));
                        lemma_add_fresh(self.order@, *key);
                    }
                    self.order.push_front(*key);
                    self.map.insert(
                        *key,
                        Entry { value: entry.value, expires_at, frequency: entry.frequency },
                    );
                    proof {
                        assert(self.map@.dom() =~= self.order@.to_set());
                        assert(self.map@ =~= old(self).map@.insert(
                            *key,
                            Entry { value: entry.value, expires_at, frequency: entry.frequency },
                        ));
                    }
                    Some(out)
                } else {
                    proof {
                        assert(self.map@.dom() =~= self.order@.to_set());
                    }
                    None
                }
            },
            None => {
                proof {
                    lemma_absent_key(old(self).map@, old(self).order@, *key);
                    assert(self.map@ =~= old(self).map@);
                }
                None
            },
        }
    }

    /// Drops every entry that has expired at `now`; the keys that stay keep
    /// their order.
    pub fn purge_expired(&mut self, now: i64)
        requires
            old(self).well_formed(),
        ensures
            final(self).well_formed(),
            final(self).same_setup(old(self)),
            final(self).store() == live_part(old(self).store(), now),
            final(self).recency() == old(self).recency().filter(is_live_key(old(self).store(), now)),
    {
        proof {
            self.order@.lemma_filter_len(is_live_key(self.map@, now));
        }
        sweep(&mut self.map, &mut self.order, now);
    }

    /// Reports `event` to sweep task `id` at the instant `now`. A running
    /// task sweeps on a tick; in every other case the task ends and the
    /// store is left alone.
    pub fn on_cleaner_event(&mut self, id: usize, event: CleanerEvent, now: i64) -> (action:
        CleanerAction)
        requires
            old(self).well_formed(),
        ensures
            final(self).well_formed(),
            final(self).spec_capacity() == old(self).spec_capacity(),
            final(self).spec_ttl() == old(self).spec_ttl(),
            final(self).tasks() == stepped(old(self).tasks(), id as int, event),
            action == action_of(old(self).tasks(), id as int, event),
            action == CleanerAction::Sweep ==> final(self).store() == live_part(
                old(self).store(),
                now,
            ) && final(self).recency() == old(self).recency().filter(
                is_live_key(old(self).store(), now),
            ),
            action == CleanerAction::Terminate ==> final(self).same_content(old(self)),
    {
        let action = self.cleaners.step(id, event);
        if action == CleanerAction::Sweep {
            self.purge_expired(now);
        }
        action
    }
}

impl<V: Clone> CacheStrategy<V> for LRUCache<V> {
    open spec fn inv(&self) -> bool {
        self.well_formed()
    }

    open spec fn keys(&self) -> Set<u64> {
        self.store().dom()
    }

    open spec fn indexed(&self) -> Set<u64> {
        self.recency().to_set()
    }

    open spec fn limit(&self) -> nat {
        self.spec_capacity()
    }

    proof fn lemma_bounded_and_in_step(&self) {
        lemma_in_step_len(self.store(), self.recency());
    }

    fn put(&mut self, key: u64, value: V)
        ensures
            exists|now: i64| Self::put_at_post(old(self), final(self), key, value, now),
    {
        let now: i64 = now_millis();
        self.put_at(key, value, now);
        proof {
            lemma_in_step_len(self.store(), self.recency());
        }
    }

    fn get(&mut self, key: &u64) -> (r: Option<V>)
        ensures
            exists|now: i64| Self::get_at_post(old(self), final(self), *key, now, r),
    {
        let now: i64 = now_millis();
        self.get_at(key, now)
    }

    fn remove(&mut self, key: &u64)
        ensures
            final(self).same_setup(old(self)),
            final(self).store() == old(self).store().remove(*key),
            final(self).recency() == without(old(self).recency(), *key),
            !old(self).store().contains_key(*key) ==> final(self).same_content(old(self)),
    {
        proof {
            lemma_without(self.order@, *key);
            if !self.map@.contains_key(*key) {
                lemma_absent_key(self.map@, self.order@, *key);
            }
        }
        self.map.remove(key);
        take_out(&mut self.order, *key);
        proof {
            assert(self.map@.dom() =~= self.order@.to_set());
        }
    }

    fn contains(&self, key: &u64) -> (r: bool)
        ensures
            r == self.store().contains_key(*key),
    {
        self.map.contains_key(key)
    }

    fn len(&self) -> (n: usize)
        ensures
            n == self.store().len(),
    {
        proof {
            lemma_in_step_len(self.store(), self.recency());
        }
        self.map.len()
    }

    fn is_empty(&self) -> (r: bool)
        ensures
            r == (self.store().len() == 0),
    {
        proof {
            if self.map@.len() == 0 {
                self.map@.dom().lemma_len0_is_empty();
            }
        }
        self.map.len() == 0
    }

    fn clear(&mut self)
        ensures
            final(self).same_setup(old(self)),
            final(self).store() == Map::<u64, Entry<V>>::empty(),
            final(self).recency() == Seq::<u64>::empty(),
    {
        self.map.clear();
        self.order.clear();
        proof {
            assert(self.map@.dom() =~= self.order@.to_set());
        }
    }

    fn start_cleaner(&mut self, interval: Span) -> (id: usize)
        ensures
            final(self).same_content(old(self)),
            final(self).spec_capacity() == old(self).spec_capacity(),
            final(self).spec_ttl() == old(self).spec_ttl(),
            final(self).tasks() == old(self).tasks().push(
                Cleaner { state: CleanerState::Running, interval },
            ),
            id == old(self).tasks().len(),
    {
        self.cleaners.start(interval)
    }

    fn stop_cleaner(&mut self)
        ensures
            final(self).same_content(old(self)),
            final(self).spec_capacity() == old(self).spec_capacity(),
            final(self).spec_ttl() == old(self).spec_ttl(),
            final(self).tasks() == all_stopped(old(self).tasks()),
    {
        self.cleaners.stop_all();
    }
}

} // verus!
