//! Sequences of distinct keys, as the order indexes hold them, and how they
//! stay in step with the key set of a store.

use vstd::prelude::*;
use std::collections::HashMap;
use std::collections::VecDeque;
use crate::entry::Entry;
use crate::entry::live_part;
use crate::entry::is_live_key;
use crate::clock::is_live;

verus! {

/// `s` without `k`: the one occurrence of `k` taken out, the rest in order.
pub open spec fn without(s: Seq<u64>, k: u64) -> Seq<u64> {
    if s.contains(k) {
        s.remove(s.index_of(k))
    } else {
        s
    }
}

/// The store and the index speak of the same keys, each key once.
pub open spec fn in_step<V>(store: Map<u64, Entry<V>>, order: Seq<u64>) -> bool {
    &&& order.no_duplicates()
    &&& store.dom().finite()
    &&& store.dom() == order.to_set()
}

/// Taking a key out of a sequence of distinct keys leaves the other keys,
/// still distinct.
pub proof fn lemma_without(s: Seq<u64>, k: u64)
    requires
        s.no_duplicates(),
    ensures
        without(s, k).no_duplicates(),
        without(s, k).to_set() == s.to_set().remove(k),
        without(s, k).len() == if s.contains(k) { s.len() - 1 } else { s.len() as int },
{
    if s.contains(k) {
        let i = s.index_of(k);
        let r = s.remove(i);
        assert forall|a: u64| r.contains(a) <==> (s.contains(a) && a != k) by {
            if r.contains(a) {
                let j = choose|j: int| 0 <= j < r.len() && r[j] == a;
                if j < i {
                    assert(s[j] == a);
                } else {
                    assert(s[j + 1] == a);
                }
            }
            if s.contains(a) && a != k {
                let j = choose|j: int| 0 <= j < s.len() && s[j] == a;
                if j < i {
                    assert(r[j] == a);
                } else {
                    assert(r[j - 1] == a);
                }
            }
        }
        assert(r.to_set() =~= s.to_set().remove(k));
    } else {
        assert(s.to_set() =~= s.to_set().remove(k));
    }
}

/// Dropping the first or the last key is taking that key out.
pub proof fn lemma_drop_ends(s: Seq<u64>)
    requires
        s.no_duplicates(),
        s.len() > 0,
    ensures
        s.drop_first() == without(s, s[0]),
        s.drop_last() == without(s, s.last()),
{
    let first = s.index_of(s[0]);
    assert(0 <= first < s.len() && s[first] == s[0]);
    let last = s.index_of(s.last());
    assert(0 <= last < s.len() && s[last] == s[s.len() - 1]);
    assert(s.drop_first() =~= s.remove(0));
    assert(s.drop_last() =~= s.remove(s.len() - 1));
}

/// Taking out a key that the store does not hold changes neither side.
pub proof fn lemma_absent_key<V>(store: Map<u64, Entry<V>>, order: Seq<u64>, key: u64)
    requires
        in_step(store, order),
        !store.contains_key(key),
    ensures
        store.remove(key) == store,
        without(order, key) == order,
{
    assert(!order.to_set().contains(key));
    assert(store.remove(key) =~= store);
}

/// A sequence of distinct keys is as long as its key set is large.
pub proof fn lemma_in_step_len<V>(store: Map<u64, Entry<V>>, order: Seq<u64>)
    requires
        in_step(store, order),
    ensures
        store.len() == order.len(),
{
    order.unique_seq_to_set();
}

/// Adding a key that is not there yet, at either end.
pub proof fn lemma_add_fresh(s: Seq<u64>, k: u64)
    requires
        s.no_duplicates(),
        !s.contains(k),
    ensures
        s.push(k).no_duplicates(),
        s.push(k).to_set() == s.to_set().insert(k),
        (seq![k] + s).no_duplicates(),
        (seq![k] + s).to_set() == s.to_set().insert(k),
{
    let back = s.push(k);
    let front = seq![k] + s;
    assert forall|a: u64| back.contains(a) <==> (s.contains(a) || a == k) by {
        if back.contains(a) {
            let j = choose|j: int| 0 <= j < back.len() && back[j] == a;
            if j < s.len() {
                assert(s[j] == a);
            }
        }
        if s.contains(a) {
            let j = choose|j: int| 0 <= j < s.len() && s[j] == a;
            assert(back[j] == a);
        }
        if a == k {
            assert(back[s.len() as int] == a);
        }
    }
    assert forall|a: u64| front.contains(a) <==> (s.contains(a) || a == k) by {
        if front.contains(a) {
            let j = choose|j: int| 0 <= j < front.len() && front[j] == a;
            if j > 0 {
                assert(s[j - 1] == a);
            }
        }
        if s.contains(a) {
            let j = choose|j: int| 0 <= j < s.len() && s[j] == a;
            assert(front[j + 1] == a);
        }
        if a == k {
            assert(front[0] == a);
        }
    }
    assert(back.to_set() =~= s.to_set().insert(k));
    assert(front.to_set() =~= s.to_set().insert(k));
    assert forall|i: int, j: int| 0 <= i < front.len() && 0 <= j < front.len() && i != j implies front[i] != front[j] by {
        if i > 0 && j > 0 {
            assert(front[i] == s[i - 1] && front[j] == s[j - 1]);
        } else if i > 0 {
            assert(s.contains(s[i - 1]));
        } else {
            assert(s.contains(s[j - 1]));
        }
    }
}

/// The keys of `order`, front first.
pub fn to_vec(order: &VecDeque<u64>) -> (v: Vec<u64>)
    ensures
        v@ == order@,
{
    let n: usize = order.len();
    let mut v: Vec<u64> = Vec::new();
    let mut i: usize = 0;
    while i < n
        invariant
            i <= n,
            n == order@.len(),
            v@ == order@.take(i as int),
        decreases n - i,
    {
        proof {
            assert(order@.take(i + 1) =~= order@.take(i as int).push(order@[i as int]));
        }
        v.push(order[i]);
        i = i + 1;
    }
    proof {
        assert(order@.take(n as int) =~= order@);
    }
    v
}

/// Takes `key` out of `order`, wherever it stands.
pub fn take_out(order: &mut VecDeque<u64>, key: u64)
    requires
        old(order)@.no_duplicates(),
    ensures
        final(order)@ == without(old(order)@, key),
{
    let n: usize = order.len();
    let mut i: usize = 0;
    while i < n
        invariant
            i <= n,
            n == order@.len(),
            order@ == old(order)@,
            order@.no_duplicates(),
            forall|j: int| 0 <= j < i ==> order@[j] != key,
        decreases n - i,
    {
        if order[i] == key {
            proof {
                assert(order@[i as int] == key);
                let at = order@.index_of(key);
                assert(0 <= at < order@.len() && order@[at] == key);
                assert(at == i);
            }
            order.remove(i);
            return ;
        }
        i = i + 1;
    }
    assert(!order@.contains(key));
}

/// Drops from the store and from the index every key whose entry has
/// expired at `now`; the keys that stay keep their order.
pub fn sweep<V>(map: &mut HashMap<u64, Entry<V>>, order: &mut VecDeque<u64>, now: i64)
    requires
        in_step(old(map)@, old(order)@),
    ensures
        final(map)@ == live_part(old(map)@, now),
        final(order)@ == old(order)@.filter(is_live_key(old(map)@, now)),
        in_step(final(map)@, final(order)@),
{
    let ghost store = map@;
    let ghost keys = order@;
    let ghost pred = is_live_key(store, now);
    let n: usize = order.len();
    let mut kept: VecDeque<u64> = VecDeque::new();
    let mut j: usize = 0;
    while j < n
        invariant
            j <= n,
            n == keys.len(),
            order@ == keys,
            in_step(store, keys),
            pred == is_live_key(store, now),
            kept@ == keys.take(j as int).filter(pred),
            map@.dom().finite(),
            forall|k: u64| #[trigger] map@.contains_key(k) ==> store.contains_key(k) && map@[k] == store[k],
            forall|idx: int| 0 <= idx < n ==> (#[trigger] map@.contains_key(keys[idx]) <==> (idx >= j || pred(keys[idx]))),
        decreases n - j,
    {
        let key: u64 = order[j];
        proof {
            assert(keys.contains(keys[j as int]));
            assert(store.contains_key(key));
            assert(map@.contains_key(keys[j as int]));
            assert(keys.take(j + 1) =~= keys.take(j as int).push(key));
            keys.take(j as int).lemma_filter_push(key, pred);
        }
        let live: bool = match map.get(&key) {
            Some(entry) => is_live(entry.expires_at, now),
            None => false,
        };
        if live {
            kept.push_back(key);
        } else {
            map.remove(&key);
        }
        j = j + 1;
    }
    proof {
        assert(keys.take(n as int) =~= keys);
        assert forall|k: u64| map@.contains_key(k) <==> live_part(store, now).contains_key(k) by {
            if store.contains_key(k) {
                assert(keys.contains(k));
                let idx = choose|idx: int| 0 <= idx < keys.len() && keys[idx] == k;
                assert(map@.contains_key(keys[idx]) <==> pred(keys[idx]));
            }
        }
        assert(map@ =~= live_part(store, now));
        lemma_filter_distinct(keys, pred);
        assert(kept@.to_set() =~= map@.dom());
    }
    *order = kept;
}

/// Filtering a sequence of distinct keys keeps them distinct, and keeps
/// exactly the keys that pass.
pub proof fn lemma_filter_distinct(s: Seq<u64>, pred: spec_fn(u64) -> bool)
    requires
        s.no_duplicates(),
    ensures
        s.filter(pred).no_duplicates(),
        forall|k: u64| #[trigger] s.filter(pred).contains(k) <==> s.contains(k) && pred(k),
    decreases s.len(),
{
    reveal(Seq::filter);
    if s.len() > 0 {
        let rest = s.drop_last();
        let last = s.last();
        lemma_filter_distinct(rest, pred);
        let fr = rest.filter(pred);
        assert(!rest.contains(last)) by {
            if rest.contains(last) {
                let j = choose|j: int| 0 <= j < rest.len() && rest[j] == last;
                assert(s[j] == s[s.len() - 1]);
            }
        }
        assert forall|k: u64| s.contains(k) <==> (rest.contains(k) || k == last) by {
            if s.contains(k) {
                let j = choose|j: int| 0 <= j < s.len() && s[j] == k;
                if j < rest.len() {
                    assert(rest[j] == k);
                }
            }
            if rest.contains(k) {
                let j = choose|j: int| 0 <= j < rest.len() && rest[j] == k;
                assert(s[j] == k);
            }
            if k == last {
                assert(s[s.len() - 1] == k);
            }
        }
        if pred(last) {
            assert(!fr.contains(last));
            lemma_add_fresh(fr, last);
            let out = fr.push(last);
            assert forall|k: u64| #[trigger] out.contains(k) <==> s.contains(k) && pred(k) by {
                assert(out.to_set().contains(k) <==> fr.to_set().insert(last).contains(k));
            }
        }
    }
}

} // verus!
