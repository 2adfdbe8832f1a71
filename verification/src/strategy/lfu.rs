//! Least frequently used: every entry counts its uses, and the key with the
//! fewest uses leaves when the store is full. Among keys with equally few
//! uses the one that reached that count first leaves first.
//!
//! The frequency index is one sequence of keys in ascending order of use
//! count; the keys of one count stand together, in the order in which they
//! reached it.

use vstd::prelude::*;
use std::collections::HashMap;
use std::collections::VecDeque;
use crate::cleaner::Cleaner;
use crate::cleaner::CleanerAction;
use crate::cleaner::CleanerEvent;
use crate::cleaner::CleanerSet;
use crate::cleaner::CleanerState;
use crate::cleaner::action_of;
use crate::cleaner::all_stopped;
use crate::cleaner::stepped;
use crate::cleaner::task_at;
use crate::clock::Span;
use crate::clock::deadline;
use crate::clock::deadline_of;
use crate::clock::is_live;
use crate::clock::now_millis;
use crate::entry::Entry;
use crate::entry::bumped;
use crate::entry::deadline_in;
use crate::entry::frequency_in;
use crate::entry::hit;
use crate::entry::is_live_key;
use crate::entry::live_part;
use crate::keyseq::in_step;
use crate::keyseq::lemma_absent_key;
use crate::keyseq::lemma_drop_ends;
use crate::keyseq::lemma_filter_distinct;
use crate::keyseq::lemma_in_step_len;
use crate::keyseq::lemma_without;
use crate::keyseq::sweep;
use crate::keyseq::take_out;
use crate::keyseq::to_vec;
use crate::keyseq::without;
use crate::strategy::CacheStrategy;

verus! {

/// The keys of `ranking` stand in ascending order of use count.
pub open spec fn ranked<V>(store: Map<u64, Entry<V>>, ranking: Seq<u64>) -> bool {
    forall|i: int, j: int|
        0 <= i < j < ranking.len() ==> store[ranking[i]].uses() <= store[ranking[j]].uses()
}

/// Every stored entry carries a use count of at least 1.
pub open spec fn counted<V>(store: Map<u64, Entry<V>>) -> bool {
    forall|k: u64| #[trigger]
        store.contains_key(k) ==> store[k].frequency.is_some() && store[k].uses() >= 1
}

/// Where a key with use count `f` goes in `ranking`: behind the leading keys
/// whose count is at most `f`, so behind every key that reached `f` earlier.
pub open spec fn slot<V>(store: Map<u64, Entry<V>>, ranking: Seq<u64>, f: u64) -> int
    decreases ranking.len(),
{
    if ranking.len() == 0 || store[ranking[0]].uses() > f {
        0
    } else {
        1 + slot(store, ranking.drop_first(), f)
    }
}

/// The ranking once there is room for a new key: a full ranking loses its
/// first key, the one with the fewest uses.
pub open spec fn room_ranking(ranking: Seq<u64>, capacity: nat) -> Seq<u64> {
    if ranking.len() >= capacity {
        ranking.drop_first()
    } else {
        ranking
    }
}

/// The store once there is room for a new key.
pub open spec fn room_store<V>(store: Map<u64, Entry<V>>, ranking: Seq<u64>, capacity: nat) -> Map<
    u64,
    Entry<V>,
> {
    if ranking.len() >= capacity {
        store.remove(ranking[0])
    } else {
        store
    }
}

/// The ranking after a write of `key`: a stored key keeps its place; a new
/// key goes, once there is room, behind the keys with one use.
pub open spec fn lfu_put_ranking<V>(
    store: Map<u64, Entry<V>>,
    ranking: Seq<u64>,
    capacity: nat,
    key: u64,
) -> Seq<u64> {
    if store.contains_key(key) {
        ranking
    } else {
        let rest = room_ranking(ranking, capacity);
        rest.insert(slot(room_store(store, ranking, capacity), rest, 1), key)
    }
}

/// The store after a write of `key` with the deadline `expires_at`: a
/// stored key gets the value and the deadline and keeps its use count; a
/// new key is stored, once there is room, with one use.
pub open spec fn lfu_put_store<V>(
    store: Map<u64, Entry<V>>,
    ranking: Seq<u64>,
    capacity: nat,
    key: u64,
    value: V,
    expires_at: i128,
) -> Map<u64, Entry<V>> {
    if store.contains_key(key) {
        store.insert(key, Entry { value, expires_at, frequency: store[key].frequency })
    } else {
        room_store(store, ranking, capacity).insert(
            key,
            Entry { value, expires_at, frequency: Some(1u64) },
        )
    }
}

/// The ranking after a live read of `key`: the key leaves its place and
/// goes behind the keys that have at most its new use count.
pub open spec fn lfu_hit_ranking<V>(store: Map<u64, Entry<V>>, ranking: Seq<u64>, key: u64) -> Seq<
    u64,
> {
    let rest = without(ranking, key);
    rest.insert(slot(store.remove(key), rest, bumped(store[key].uses())), key)
}

/// The store after a live read of `key`: one more use, nothing else.
pub open spec fn lfu_hit_store<V>(store: Map<u64, Entry<V>>, key: u64) -> Map<u64, Entry<V>> {
    store.insert(
        key,
        Entry {
            value: store[key].value,
            expires_at: store[key].expires_at,
            frequency: Some(bumped(store[key].uses())),
        },
    )
}

/// `slot` lies inside the ranking, the keys before it have at most `f`
/// uses, and in an ascending ranking the keys from it on have more.
pub proof fn lemma_slot<V>(store: Map<u64, Entry<V>>, ranking: Seq<u64>, f: u64)
    requires
        ranked(store, ranking),
    ensures
        0 <= slot(store, ranking, f) <= ranking.len(),
        forall|j: int| 0 <= j < slot(store, ranking, f) ==> store[ranking[j]].uses() <= f,
        forall|j: int| slot(store, ranking, f) <= j < ranking.len() ==> store[ranking[j]].uses() > f,
    decreases ranking.len(),
{
    if ranking.len() == 0 || store[ranking[0]].uses() > f {
        assert forall|j: int| 0 <= j < ranking.len() implies store[ranking[j]].uses() > f by {
            if j > 0 {
                assert(store[ranking[0]].uses() <= store[ranking[j]].uses());
            }
        }
    } else {
        let rest = ranking.drop_first();
        assert forall|i: int, j: int| 0 <= i < j < rest.len() implies store[rest[i]].uses()
            <= store[rest[j]].uses() by {
            assert(rest[i] == ranking[i + 1] && rest[j] == ranking[j + 1]);
        }
        lemma_slot(store, rest, f);
        let p = slot(store, rest, f);
        assert forall|j: int| 0 <= j < p + 1 implies store[ranking[j]].uses() <= f by {
            if j > 0 {
                assert(rest[j - 1] == ranking[j]);
            }
        }
        assert forall|j: int| p + 1 <= j < ranking.len() implies store[ranking[j]].uses() > f by {
            assert(rest[j - 1] == ranking[j]);
        }
    }
}

/// Taking a key out of an ascending ranking, and its entry out of the
/// store, leaves an ascending ranking.
pub proof fn lemma_without_ranked<V>(store: Map<u64, Entry<V>>, ranking: Seq<u64>, key: u64)
    requires
        ranking.no_duplicates(),
        ranked(store, ranking),
    ensures
        ranked(store.remove(key), without(ranking, key)),
        ranked(store, without(ranking, key)),
{
    lemma_without(ranking, key);
    let rest = without(ranking, key);
    if ranking.contains(key) {
        let at = ranking.index_of(key);
        assert forall|i: int, j: int| 0 <= i < j < rest.len() implies store[rest[i]].uses()
            <= store[rest[j]].uses() && store.remove(key)[rest[i]].uses() <= store.remove(
            key,
        )[rest[j]].uses() by {
            let a = if i < at { i } else { i + 1 };
            let b = if j < at { j } else { j + 1 };
            assert(rest[i] == ranking[a] && rest[j] == ranking[b]);
            assert(rest.contains(rest[i]) && rest.contains(rest[j]));
            assert(rest.to_set().contains(rest[i]) && rest.to_set().contains(rest[j]));
        }
    } else {
        assert forall|i: int, j: int| 0 <= i < j < rest.len() implies store.remove(
            key,
        )[rest[i]].uses() <= store.remove(key)[rest[j]].uses() by {
            assert(ranking.contains(rest[i]) && ranking.contains(rest[j]));
        }
    }
}

/// Putting a new key at its slot keeps the ranking ascending and the keys
/// distinct.
pub proof fn lemma_insert_ranked<V>(
    store: Map<u64, Entry<V>>,
    ranking: Seq<u64>,
    key: u64,
    entry: Entry<V>,
)
    requires
        ranking.no_duplicates(),
        !ranking.contains(key),
        ranked(store, ranking),
    ensures
        ({
            let p = slot(store, ranking, entry.uses());
            &&& 0 <= p <= ranking.len()
            &&& ranking.insert(p, key).no_duplicates()
            &&& ranking.insert(p, key).to_set() == ranking.to_set().insert(key)
            &&& ranked(store.insert(key, entry), ranking.insert(p, key))
        }),
{
    lemma_slot(store, ranking, entry.uses());
    let p = slot(store, ranking, entry.uses());
    let out = ranking.insert(p, key);
    let after = store.insert(key, entry);
    assert forall|i: int| 0 <= i < out.len() implies (#[trigger] out[i]) == (if i < p {
        ranking[i]
    } else if i == p {
        key
    } else {
        ranking[i - 1]
    }) by {}
    assert forall|i: int, j: int| 0 <= i < out.len() && 0 <= j < out.len() && i != j implies out[i]
        != out[j] by {
        let a = if i < p { i } else { i - 1 };
        let b = if j < p { j } else { j - 1 };
        if i != p && j != p {
            assert(out[i] == ranking[a] && out[j] == ranking[b]);
        } else if i != p {
            assert(ranking.contains(ranking[a]));
        } else {
            assert(ranking.contains(ranking[b]));
        }
    }
    assert forall|k: u64| out.contains(k) <==> (ranking.contains(k) || k == key) by {
        if out.contains(k) {
            let i = choose|i: int| 0 <= i < out.len() && out[i] == k;
            if i < p {
                assert(ranking[i] == k);
            } else if i > p {
                assert(ranking[i - 1] == k);
            }
        }
        if ranking.contains(k) {
            let i = choose|i: int| 0 <= i < ranking.len() && ranking[i] == k;
            if i < p {
                assert(out[i] == k);
            } else {
                assert(out[i + 1] == k);
            }
        }
        if k == key {
            assert(out[p] == k);
        }
    }
    assert(out.to_set() =~= ranking.to_set().insert(key));
    assert forall|i: int, j: int| 0 <= i < j < out.len() implies after[out[i]].uses()
        <= after[out[j]].uses() by {
        let a = if i < p { i } else { i - 1 };
        let b = if j < p { j } else { j - 1 };
        if i != p {
            assert(out[i] == ranking[a]);
            assert(ranking.contains(ranking[a]));
        }
        if j != p {
            assert(out[j] == ranking[b]);
            assert(ranking.contains(ranking[b]));
        }
    }
}

/// Filtering an ascending ranking leaves it ascending.
pub proof fn lemma_filter_ranked<V>(
    store: Map<u64, Entry<V>>,
    ranking: Seq<u64>,
    pred: spec_fn(u64) -> bool,
)
    requires
        ranking.no_duplicates(),
        ranked(store, ranking),
    ensures
        ranked(store, ranking.filter(pred)),
    decreases ranking.len(),
{
    reveal(Seq::filter);
    if ranking.len() > 0 {
        let rest = ranking.drop_last();
        let last = ranking.last();
        assert forall|i: int, j: int| 0 <= i < j < rest.len() implies store[rest[i]].uses()
            <= store[rest[j]].uses() by {
            assert(rest[i] == ranking[i] && rest[j] == ranking[j]);
        }
        lemma_filter_ranked(store, rest, pred);
        lemma_filter_distinct(rest, pred);
        let kept = rest.filter(pred);
        if pred(last) {
            let out = kept.push(last);
            assert forall|i: int, j: int| 0 <= i < j < out.len() implies store[out[i]].uses()
                <= store[out[j]].uses() by {
                if j == kept.len() {
                    assert(kept.contains(kept[i]));
                    assert(rest.contains(kept[i]));
                    let at = choose|at: int| 0 <= at < rest.len() && rest[at] == kept[i];
                    assert(ranking[at] == kept[i]);
                    assert(store[ranking[at]].uses() <= store[ranking[ranking.len() - 1]].uses());
                } else {
                    assert(out[i] == kept[i] && out[j] == kept[j]);
                }
            }
        }
    }
}

/// The keys with exactly `f` uses, in the order in which they reached that
/// count: the bucket of `f` in the frequency index.
pub open spec fn bucket<V>(store: Map<u64, Entry<V>>, ranking: Seq<u64>, f: u64) -> Seq<u64> {
    ranking.filter(|k: u64| store[k].uses() == f)
}

/// Every stored key stands in the bucket of its own use count and in no
/// other, and the first key of the ranking, the next to leave, has the
/// fewest uses of all.
pub proof fn lemma_buckets<V>(store: Map<u64, Entry<V>>, ranking: Seq<u64>)
    requires
        in_step(store, ranking),
        ranked(store, ranking),
    ensures
        forall|k: u64, f: u64| #[trigger]
            bucket(store, ranking, f).contains(k) <==> store.contains_key(k) && store[k].uses()
                == f,
        forall|f: u64| #[trigger] bucket(store, ranking, f).no_duplicates(),
        forall|k: u64|
            ranking.len() > 0 && #[trigger] store.contains_key(k) ==> store[ranking[0]].uses()
                <= store[k].uses(),
{
    assert forall|k: u64, f: u64| #[trigger]
        bucket(store, ranking, f).contains(k) <==> store.contains_key(k) && store[k].uses()
            == f by {
        lemma_filter_distinct(ranking, |k: u64| store[k].uses() == f);
        assert(ranking.to_set().contains(k) <==> ranking.contains(k));
    }
    assert forall|f: u64| #[trigger] bucket(store, ranking, f).no_duplicates() by {
        lemma_filter_distinct(ranking, |k: u64| store[k].uses() == f);
    }
    assert forall|k: u64| ranking.len() > 0 && #[trigger] store.contains_key(k) implies
        store[ranking[0]].uses() <= store[k].uses() by {
        assert(ranking.to_set().contains(k));
        let at = choose|at: int| 0 <= at < ranking.len() && ranking[at] == k;
        if at > 0 {
            assert(store[ranking[0]].uses() <= store[ranking[at]].uses());
        }
    }
}

/// The use count that the store holds for `key`, 0 where it holds none.
fn uses_of<V>(map: &HashMap<u64, Entry<V>>, key: u64) -> (f: u64)
    requires
        map@.contains_key(key),
    ensures
        f == map@[key].uses(),
{
    match map.get(&key) {
        Some(entry) => match entry.frequency {
            Some(f) => f,
            None => 0,
        },
        None => 0,
    }
}

/// Finds where a key with use count `f` goes.
fn find_slot<V>(map: &HashMap<u64, Entry<V>>, ranking: &VecDeque<u64>, f: u64) -> (p: usize)
    requires
        in_step(map@, ranking@),
    ensures
        p == slot(map@, ranking@, f),
{
    let n: usize = ranking.len();
    let mut i: usize = 0;
    proof {
        assert(ranking@.skip(0) =~= ranking@);
        assert forall|j: int| 0 <= j < n implies map@.contains_key(#[trigger] ranking@[j]) by {
            assert(ranking@.to_set().contains(ranking@[j]));
        }
    }
    while i < n && uses_of(map, ranking[i]) <= f
        invariant
            i <= n,
            n == ranking@.len(),
            in_step(map@, ranking@),
            forall|j: int| 0 <= j < n ==> map@.contains_key(#[trigger] ranking@[j]),
            slot(map@, ranking@, f) == i + slot(map@, ranking@.skip(i as int), f),
        decreases n - i,
    {
        proof {
            assert(ranking@.skip(i as int).drop_first() =~= ranking@.skip(i + 1));
        }
        i = i + 1;
    }
    i
}

/// A cache that evicts the key with the fewest uses.
pub struct LFUCache<V> {
    capacity: usize,
    ttl: Span,
    map: HashMap<u64, Entry<V>>,
    index: VecDeque<u64>,
    cleaners: CleanerSet,
}

impl<V> LFUCache<V> {
    /// The stored entries by key.
    pub closed spec fn store(&self) -> Map<u64, Entry<V>> {
        self.map@
    }

    /// The keys in ascending order of use count; the first is next to leave.
    pub closed spec fn ranking(&self) -> Seq<u64> {
        self.index@
    }

    /// The largest number of keys held at once.
    pub closed spec fn spec_capacity(&self) -> nat {
        self.capacity as nat
    }

    /// The lifetime that a stored entry gets.
    pub closed spec fn spec_ttl(&self) -> Span {
        self.ttl
    }

    /// The sweep tasks started so far.
    pub closed spec fn tasks(&self) -> Seq<Cleaner> {
        self.cleaners@
    }

    /// The store and the ranking hold the same keys, each once, and no more
    /// than the capacity; every entry counts its uses, and the ranking
    /// ascends by that count.
    pub open spec fn well_formed(&self) -> bool {
        &&& self.spec_capacity() > 0
        &&& in_step(self.store(), self.ranking())
        &&& self.ranking().len() <= self.spec_capacity()
        &&& counted(self.store())
        &&& ranked(self.store(), self.ranking())
    }

    /// Capacity, lifetime and sweep tasks are those of `other`.
    pub open spec fn same_setup(&self, other: &Self) -> bool {
        &&& self.spec_capacity() == other.spec_capacity()
        &&& self.spec_ttl() == other.spec_ttl()
        &&& self.tasks() == other.tasks()
    }

    /// Store and ranking are those of `other`.
    pub open spec fn same_content(&self, other: &Self) -> bool {
        &&& self.store() == other.store()
        &&& self.ranking() == other.ranking()
    }

    /// `post` is `pre` after a write of `key` at `now`.
    pub open spec fn put_at_post(pre: &Self, post: &Self, key: u64, value: V, now: i64) -> bool {
        &&& post.well_formed()
        &&& post.same_setup(pre)
        &&& post.ranking() == lfu_put_ranking(
            pre.store(),
            pre.ranking(),
            pre.spec_capacity(),
            key,
        )
        &&& post.store() == lfu_put_store(
            pre.store(),
            pre.ranking(),
            pre.spec_capacity(),
            key,
            value,
            deadline_of(now, pre.spec_ttl()) as i128,
        )
    }

    /// `post` and `r` are what a read of `key` at `now` makes of `pre`: a
    /// live entry gives its value and counts one more use; otherwise
    /// nothing comes back and the key is gone.
    pub open spec fn get_at_post(pre: &Self, post: &Self, key: u64, now: i64, r: Option<V>) -> bool
        where V: Clone
    {
        &&& post.well_formed()
        &&& post.same_setup(pre)
        &&& if hit(pre.store(), key, now) {
            &&& r.is_some()
            &&& cloned(pre.store()[key].value, r.unwrap())
            &&& post.store() == lfu_hit_store(pre.store(), key)
            &&& post.ranking() == lfu_hit_ranking(pre.store(), pre.ranking(), key)
        } else {
            &&& r.is_none()
            &&& post.store() == pre.store().remove(key)
            &&& post.ranking() == without(pre.ranking(), key)
        }
    }

    /// An empty cache for at most `capacity` keys, with one sweep task
    /// running at period `clean_interval`.
    pub fn new(capacity: usize, ttl: Span, clean_interval: Span) -> (cache: Self)
        requires
            capacity > 0,
        ensures
            cache.well_formed(),
            cache.store() == Map::<u64, Entry<V>>::empty(),
            cache.ranking() == Seq::<u64>::empty(),
            cache.spec_capacity() == capacity,
            cache.spec_ttl() == ttl,
            cache.tasks() == seq![Cleaner { state: CleanerState::Running, interval: clean_interval }],
    {
        let mut cleaners = CleanerSet::new();
        cleaners.start(clean_interval);
        let cache = LFUCache {
            capacity,
            ttl,
            map: HashMap::new(),
            index: VecDeque::new(),
            cleaners,
        };
        proof {
            assert(cache.map@.dom() =~= cache.index@.to_set());
            assert(cache.cleaners@ =~= seq![Cleaner { state: CleanerState::Running, interval: clean_interval }]);
        }
        cache
    }

    /// The largest number of keys held at once.
    pub fn capacity(&self) -> (c: usize)
        ensures
            c == self.spec_capacity(),
    {
        self.capacity
    }

    /// The lifetime that a stored entry gets.
    pub fn ttl(&self) -> (t: Span)
        ensures
            t == self.spec_ttl(),
    {
        self.ttl
    }

    /// Sweep task `id`, if there is one.
    pub fn cleaner(&self, id: usize) -> (c: Option<Cleaner>)
        ensures
            c == task_at(self.tasks(), id as int),
    {
        self.cleaners.get(id)
    }

    /// The stored keys in ascending order of use count.
    pub fn keys_in_order(&self) -> (v: Vec<u64>)
        ensures
            v@ == self.ranking(),
    {
        to_vec(&self.index)
    }

    /// The deadline of `key`, if the key is held.
    pub fn expires_at(&self, key: &u64) -> (d: Option<i128>)
        ensures
            d == deadline_in(self.store(), *key),
    {
        match self.map.get(key) {
            Some(entry) => Some(entry.expires_at),
            None => None,
        }
    }

    /// The use count of `key`, if the key is held and its uses are counted.
    pub fn frequency(&self, key: &u64) -> (f: Option<u64>)
        ensures
            f == frequency_in(self.store(), *key),
    {
        match self.map.get(key) {
            Some(entry) => entry.frequency,
            None => None,
        }
    }

    /// Writes `key` at the instant `now`.
    pub fn put_at(&mut self, key: u64, value: V, now: i64)
        requires
            old(self).well_formed(),
        ensures
            Self::put_at_post(old(self), final(self), key, value, now),
    {
        let expires_at: i128 = deadline(now, self.ttl);
        proof {
            lemma_in_step_len(self.map@, self.index@);
        }
        match self.map.remove(&key) {
            Some(entry) => {
                let renewed = Entry { value, expires_at, frequency: entry.frequency };
                self.map.insert(key, renewed);
                proof {
                    assert(self.map@ =~= old(self).map@.insert(key, renewed));
                    assert(self.map@.dom() =~= old(self).map@.dom());
                    assert forall|i: int, j: int| 0 <= i < j < self.index@.len() implies
                        self.map@[self.index@[i]].uses() <= self.map@[self.index@[j]].uses() by {
                        assert(old(self).map@[self.index@[i]].uses() <= old(
                            self,
                        ).map@[self.index@[j]].uses());
                    }
                }
                return ;
            },
            None => {},
        }
        proof {
            assert(self.map@ =~= old(self).map@);
            assert(!self.index@.to_set().contains(key));
        }
        if self.map.len() >= self.capacity {
            proof {
                lemma_drop_ends(self.index@);
                lemma_without(self.index@, self.index@[0]);
                lemma_without_ranked(self.map@, self.index@, self.index@[0]);
                assert(self.index@.drop_first() =~= self.index@.subrange(
                    1,
                    self.index@.len() as int,
                ));
            }
            let victim = self.index.pop_front();
            match victim {
                Some(k) => {
                    self.map.remove(&k);
                },
                None => {},
            }
            proof {
                assert(self.map@.dom() =~= self.index@.to_set());
                assert(!self.index@.to_set().contains(key));
            }
        }
        let fresh = Entry { value, expires_at, frequency: Some(1u64) };
        proof {
            lemma_insert_ranked(self.map@, self.index@, key, fresh);
        }
        let p: usize = find_slot(&self.map, &self.index, 1);
        self.index.insert(p, key);
        self.map.insert(key, fresh);
        proof {
            assert(self.map@.dom() =~= self.index@.to_set());
        }
    }

    /// Reads `key` at the instant `now`.
    pub fn get_at(&mut self, key: &u64, now: i64) -> (r: Option<V>) where V: Clone
        requires
            old(self).well_formed(),
        ensures
            Self::get_at_post(old(self), final(self), *key, now, r),
    {
        proof {
            lemma_without(self.index@, *key);
            lemma_without_ranked(self.map@, self.index@, *key);
            lemma_in_step_len(self.map@, self.index@);
        }
        match self.map.remove(key) {
            Some(entry) => {
                take_out(&mut self.index, *key);
                proof {
                    assert(self.map@.dom() =~= self.index@.to_set());
                }
                if is_live(entry.expires_at, now) {
                    let out: V = entry.value.clone();
                    let f: u64 = match entry.frequency {
                        Some(f) => f,
                        None => 0,
                    };
                    let f2: u64 = if f < u64::MAX {
                        f + 1
                    } else {
                        f
                    };
                    let used = Entry {
                        value: entry.value,
                        expires_at: entry.expires_at,
                        frequency: Some(f2),
                    };
                    proof {
                        assert(!self.index@.to_set().contains(*key));
                        lemma_insert_ranked(self.map@, self.index@, *key, used);
                    }
                    let p: usize = find_slot(&self.map, &self.index, f2);
                    self.index.insert(p, *key);
                    self.map.insert(*key, used);
                    proof {
                        assert(self.map@.dom() =~= self.index@.to_set());
                        assert(self.map@ =~= lfu_hit_store(old(self).map@, *key));
                    }
                    Some(out)
                } else {
                    None
                }
            },
            None => {
                proof {
                    lemma_absent_key(old(self).map@, old(self).index@, *key);
                    assert(self.map@ =~= old(self).map@);
                }
                None
            },
        }
    }

    /// Drops every entry that has expired at `now`; the keys that stay keep
    /// their order.
    pub fn purge_expired(&mut self, now: i64)
        requires
            old(self).well_formed(),
        ensures
            final(self).well_formed(),
            final(self).same_setup(old(self)),
            final(self).store() == live_part(old(self).store(), now),
            final(self).ranking() == old(self).ranking().filter(is_live_key(old(self).store(), now)),
    {
        proof {
            self.index@.lemma_filter_len(is_live_key(self.map@, now));
            lemma_filter_ranked(self.map@, self.index@, is_live_key(self.map@, now));
            lemma_filter_distinct(self.index@, is_live_key(self.map@, now));
        }
        sweep(&mut self.map, &mut self.index, now);
        proof {
            assert forall|i: int, j: int| 0 <= i < j < self.index@.len() implies
                self.map@[self.index@[i]].uses() <= self.map@[self.index@[j]].uses() by {
                assert(self.index@.contains(self.index@[i]));
                assert(self.index@.contains(self.index@[j]));
                assert(old(self).map@[self.index@[i]].uses() <= old(
                    self,
                ).map@[self.index@[j]].uses());
            }
        }
    }

    /// Reports `event` to sweep task `id` at the instant `now`. A running
    /// task sweeps on a tick; in every other case the task ends and the
    /// store is left alone.
    pub fn on_cleaner_event(&mut self, id: usize, event: CleanerEvent, now: i64) -> (action:
        CleanerAction)
        requires
            old(self).well_formed(),
        ensures
            final(self).well_formed(),
            final(self).spec_capacity() == old(self).spec_capacity(),
            final(self).spec_ttl() == old(self).spec_ttl(),
            final(self).tasks() == stepped(old(self).tasks(), id as int, event),
            action == action_of(old(self).tasks(), id as int, event),
            action == CleanerAction::Sweep ==> final(self).store() == live_part(
                old(self).store(),
                now,
            ) && final(self).ranking() == old(self).ranking().filter(
                is_live_key(old(self).store(), now),
            ),
            action == CleanerAction::Terminate ==> final(self).same_content(old(self)),
    {
        let action = self.cleaners.step(id, event);
        if action == CleanerAction::Sweep {
            self.purge_expired(now);
        }
        action
    }
}

impl<V: Clone> CacheStrategy<V> for LFUCache<V> {
    open spec fn inv(&self) -> bool {
        self.well_formed()
    }

    open spec fn keys(&self) -> Set<u64> {
        self.store().dom()
    }

    open spec fn indexed(&self) -> Set<u64> {
        self.ranking().to_set()
    }

    open spec fn limit(&self) -> nat {
        self.spec_capacity()
    }

    proof fn lemma_bounded_and_in_step(&self) {
        lemma_in_step_len(self.store(), self.ranking());
    }

    fn put(&mut self, key: u64, value: V)
        ensures
            exists|now: i64| Self::put_at_post(old(self), final(self), key, value, now),
    {
        let now: i64 = now_millis();
        self.put_at(key, value, now);
        proof {
            lemma_in_step_len(self.store(), self.ranking());
        }
    }

    fn get(&mut self, key: &u64) -> (r: Option<V>)
        ensures
            exists|now: i64| Self::get_at_post(old(self), final(self), *key, now, r),
    {
        let now: i64 = now_millis();
        self.get_at(key, now)
    }

    fn remove(&mut self, key: &u64)
        ensures
            final(self).same_setup(old(self)),
            final(self).store() == old(self).store().remove(*key),
            final(self).ranking() == without(old(self).ranking(), *key),
            !old(self).store().contains_key(*key) ==> final(self).same_content(old(self)),
    {
        proof {
            lemma_without(self.index@, *key);
            if !self.map@.contains_key(*key) {
                lemma_absent_key(self.map@, self.index@, *key);
            }
            lemma_without_ranked(self.map@, self.index@, *key);
        }
        self.map.remove(key);
        take_out(&mut self.index, *key);
        proof {
            assert(self.map@.dom() =~= self.index@.to_set());
        }
    }

    fn contains(&self, key: &u64) -> (r: bool)
        ensures
            r == self.store().contains_key(*key),
    {
        self.map.contains_key(key)
    }

    fn len(&self) -> (n: usize)
        ensures
            n == self.store().len(),
    {
        proof {
            lemma_in_step_len(self.store(), self.ranking());
        }
        self.map.len()
    }

    fn is_empty(&self) -> (r: bool)
        ensures
            r == (self.store().len() == 0),
    {
        proof {
            if self.map@.len() == 0 {
                self.map@.dom().lemma_len0_is_empty();
            }
        }
        self.map.len() == 0
    }

    fn clear(&mut self)
        ensures
            final(self).same_setup(old(self)),
            final(self).store() == Map::<u64, Entry<V>>::empty(),
            final(self).ranking() == Seq::<u64>::empty(),
    {
        self.map.clear();
        self.index.clear();
        proof {
            assert(self.map@.dom() =~= self.index@.to_set());
        }
    }

    fn start_cleaner(&mut self, interval: Span) -> (id: usize)
        ensures
            final(self).same_content(old(self)),
            final(self).spec_capacity() == old(self).spec_capacity(),
            final(self).spec_ttl() == old(self).spec_ttl(),
            final(self).tasks() == old(self).tasks().push(
                Cleaner { state: CleanerState::Running, interval },
            ),
            id == old(self).tasks().len(),
    {
        self.cleaners.start(interval)
    }

    fn stop_cleaner(&mut self)
        ensures
            final(self).same_content(old(self)),
            final(self).spec_capacity() == old(self).spec_capacity(),
            final(self).spec_ttl() == old(self).spec_ttl(),
            final(self).tasks() == all_stopped(old(self).tasks()),
    {
        self.cleaners.stop_all();
    }
}

} // verus!
