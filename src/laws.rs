//! Laws of the cache, stated over its abstract state and proved.
use crate::arc::{
    lemma_replaced, list_bound, lemma_insert_keeps_valid, lemma_insert_within_capacity, lemma_remove_keeps_valid, ArcState,
};
use crate::lru::{
    distinct_keys, put, has_key, key_pos, lemma_key_pos, lemma_push, lemma_put, lemma_without, lookup, without,
};
use vstd::prelude::*;

verus! {

/// No operation takes the live lists over the capacity, with one exception:
/// an insert where `overfills` holds.
pub proof fn lemma_within_capacity(s: ArcState, k: Seq<char>, v: Seq<char>)
    requires
        s.valid(),
        s.live_len() <= s.capacity,
    ensures
        !s.overfills(k) ==> s.after_insert(k, v).live_len() <= s.capacity,
        s.with_live_value(k, v).live_len() <= s.capacity,
        s.is_live(k) ==> s.after_get(k, v).live_len() <= s.capacity,
        s.after_remove(k).live_len() <= s.capacity,
        s.cleared().live_len() <= s.capacity,
{
    if !s.overfills(k) {
        lemma_insert_within_capacity(s, k, v);
    }
    lemma_without(s.frequent, k);
    lemma_without(s.recent, k);
    if has_key(s.recent, k) {
        let t = s.promoted(k);
        lemma_put(s.frequent, k, lookup(s.recent, k).unwrap(), list_bound());
        assert(t.live_len() <= s.live_len());
    }
}

/// Storing a key in a list below the bound keeps every key it had.
proof fn lemma_put_keeps_keys(s: Seq<(Seq<char>, Seq<char>)>, k: Seq<char>, v: Seq<char>)
    requires
        distinct_keys(s),
        s.len() < list_bound(),
    ensures
        forall|j: Seq<char>| has_key(s, j) ==> #[trigger] has_key(put(s, k, v, list_bound()), j),
{
    lemma_without(s, k);
    lemma_put(s, k, v, list_bound());
    lemma_push(without(s, k), k, v);
}

/// An insert takes at most one key other than its own out of the live
/// lists, and only when they were full; this holds while each live list
/// has fewer than `usize::MAX` entries.
pub proof fn lemma_insert_evicts_at_most_one(
    s: ArcState,
    k: Seq<char>,
    v: Seq<char>,
    a: Seq<char>,
    b: Seq<char>,
)
    requires
        s.valid(),
        s.recent.len() < list_bound(),
        s.frequent.len() < list_bound(),
        a != k,
        b != k,
        s.is_live(a),
        s.is_live(b),
        !s.after_insert(k, v).is_live(a),
        !s.after_insert(k, v).is_live(b),
    ensures
        a == b,
        s.is_full(),
{
    if has_key(s.frequent, k) {
        lemma_put_keeps_keys(s.frequent, k, v);
    } else if has_key(s.recent, k) {
        lemma_without(s.recent, k);
        lemma_put_keeps_keys(s.frequent, k, v);
    } else if has_key(s.frequent_ghost, k) {
        let s1 = ArcState { p: s.p_lowered(), ..s };
        lemma_replaced(s1, true);
        let s2 = s1.with_room(true);
        lemma_put_keeps_keys(s2.frequent, k, v);
    } else if has_key(s.recent_ghost, k) {
        let s1 = ArcState { p: s.p_raised(), ..s };
        lemma_replaced(s1, false);
        let s2 = s1.with_room(false);
        lemma_put_keeps_keys(s2.frequent, k, v);
    } else {
        lemma_replaced(s, false);
        let s1 = s.with_room(false);
        lemma_put_keeps_keys(s1.recent, k, v);
    }
}

/// Once a key is removed, inserting it again is a cold miss: it is known to
/// no list, the insert reports it as new, and `p` stays as it was.
pub proof fn lemma_remove_purges_history(s: ArcState, k: Seq<char>, v: Seq<char>)
    requires
        s.valid(),
    ensures
        !s.after_remove(k).is_known(k),
        s.after_remove(k).after_insert(k, v).p == s.p,
        has_key(s.after_remove(k).after_insert(k, v).recent, k),
{
    lemma_without(s.recent, k);
    lemma_without(s.frequent, k);
    lemma_without(s.recent_ghost, k);
    lemma_without(s.frequent_ghost, k);
    let t = s.after_remove(k);
    lemma_remove_keeps_valid(t, k);
    lemma_insert_keeps_valid(t, k, v);
}

/// Inserting a key of `frequent` again sets its value and changes neither the
/// number of live items nor `p`.
pub proof fn lemma_overwrite_frequent(s: ArcState, k: Seq<char>, v: Seq<char>)
    requires
        s.valid(),
        has_key(s.frequent, k),
    ensures
        s.after_insert(k, v).live_len() == s.live_len(),
        s.after_insert(k, v).p == s.p,
        s.after_insert(k, v).value_of(k) == Some(v),
{
    let t = s.frequent;
    lemma_without(t, k);
    lemma_put(t, k, v, list_bound());
    let u = without(t, k).push((k, v));
    lemma_push(without(t, k), k, v);
    lemma_key_pos(u, k);
    assert(u[u.len() - 1] == (k, v));
}

/// Iteration hands out every item of `frequent` before any item of `recent`.
pub proof fn lemma_frequent_items_first(s: ArcState, a: Seq<char>, b: Seq<char>)
    requires
        s.valid(),
        has_key(s.recent, a),
        has_key(s.frequent, b),
    ensures
        exists|i: int, j: int|
            0 <= i < j < s.items().len() && (#[trigger] s.items()[i]).0 == b && (#[trigger] s.items()[j]).0 == a,
{
    lemma_key_pos(s.recent, a);
    lemma_key_pos(s.frequent, b);
    let i = key_pos(s.frequent, b);
    let j = s.frequent.len() + key_pos(s.recent, a);
    assert(s.items()[i] == s.frequent[i]);
    assert(s.items()[j] == s.recent[j - s.frequent.len()]);
}

/// No operation lowers any of the three counters.
pub proof fn lemma_counters_never_decrease(s: ArcState, k: Seq<char>, v: Seq<char>)
    ensures
        s.after_insert(k, v).inserted >= s.inserted,
        s.after_insert(k, v).evicted >= s.evicted,
        s.after_insert(k, v).removed >= s.removed,
        s.after_remove(k).inserted >= s.inserted,
        s.after_remove(k).evicted >= s.evicted,
        s.after_remove(k).removed >= s.removed,
        s.cleared().inserted >= s.inserted,
        s.cleared().evicted >= s.evicted,
        s.cleared().removed >= s.removed,
        s.after_get(k, v).inserted == s.inserted && s.after_get(k, v).evicted == s.evicted
            && s.after_get(k, v).removed == s.removed,
        s.with_live_value(k, v).inserted == s.inserted && s.with_live_value(k, v).evicted == s.evicted
            && s.with_live_value(k, v).removed == s.removed,
{
}

} // verus!
