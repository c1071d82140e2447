//! The recency-ordered lists that the cache is built from, and their model.
//!
//! Each list is an `xlru_cache::LruCache`. Its contents are modelled as a
//! sequence of entries, least recently used first, keyed by the key's
//! characters. The functions here state what each call into the list does
//! to that sequence.
use std::collections::hash_map::RandomState;
use std::hash::{BuildHasher, Hash};
use vstd::prelude::*;
use xlru_cache::LruCache;

verus! {

#[verifier::external_type_specification]
#[verifier::external_body]
#[verifier::reject_recursive_types(K)]
#[verifier::reject_recursive_types(V)]
#[verifier::reject_recursive_types(S)]
pub struct ExLruCache<K: Eq + Hash, V, S: BuildHasher>(LruCache<K, V, S>);

/// The entries of a list of live items, least recently used first.
pub uninterp spec fn live_entries(c: LruCache<String, String>) -> Seq<(Seq<char>, Seq<char>)>;

/// The size bound that a list of live items was created with.
pub uninterp spec fn live_bound(c: LruCache<String, String>) -> nat;

/// The entries of a list of history keys, least recently used first.
pub uninterp spec fn ghost_entries(c: LruCache<String, ()>) -> Seq<(Seq<char>, ())>;

/// The size bound that a list of history keys was created with.
pub uninterp spec fn ghost_bound(c: LruCache<String, ()>) -> nat;

/// Some entry of `s` has key `k`.
pub open spec fn has_key<V>(s: Seq<(Seq<char>, V)>, k: Seq<char>) -> bool {
    exists|i: int| 0 <= i < s.len() && (#[trigger] s[i]).0 == k
}

/// No two entries of `s` share a key.
pub open spec fn distinct_keys<V>(s: Seq<(Seq<char>, V)>) -> bool {
    forall|i: int, j: int|
        0 <= i < s.len() && 0 <= j < s.len() && i != j ==> (#[trigger] s[i]).0 != (#[trigger] s[j]).0
}

/// No key has an entry in both `a` and `b`.
pub open spec fn disjoint_keys<A, B>(a: Seq<(Seq<char>, A)>, b: Seq<(Seq<char>, B)>) -> bool {
    forall|k: Seq<char>|
        #![trigger has_key(a, k)]
        #![trigger has_key(b, k)]
        !(has_key(a, k) && has_key(b, k))
}

/// The position of the entry with key `k`.
pub open spec fn key_pos<V>(s: Seq<(Seq<char>, V)>, k: Seq<char>) -> int {
    choose|i: int| 0 <= i < s.len() && (#[trigger] s[i]).0 == k
}

/// The value stored under `k`, if any.
pub open spec fn lookup<V>(s: Seq<(Seq<char>, V)>, k: Seq<char>) -> Option<V> {
    if has_key(s, k) {
        Some(s[key_pos(s, k)].1)
    } else {
        None
    }
}

/// `s` with the entry of key `k` taken out.
pub open spec fn without<V>(s: Seq<(Seq<char>, V)>, k: Seq<char>) -> Seq<(Seq<char>, V)> {
    if has_key(s, k) {
        s.remove(key_pos(s, k))
    } else {
        s
    }
}

/// `s` with the entry of key `k`, if any, holding `v` in the same place.
pub open spec fn with_value<V>(s: Seq<(Seq<char>, V)>, k: Seq<char>, v: V) -> Seq<(Seq<char>, V)> {
    if has_key(s, k) {
        s.update(key_pos(s, k), (k, v))
    } else {
        s
    }
}

/// `s` after storing `v` under `k` as the most recently used entry; when that
/// takes the list past `bound`, its least recently used entry leaves.
pub open spec fn put<V>(s: Seq<(Seq<char>, V)>, k: Seq<char>, v: V, bound: nat) -> Seq<(Seq<char>, V)> {
    let t = without(s, k).push((k, v));
    if t.len() > bound {
        t.drop_first()
    } else {
        t
    }
}

/// The chosen position holds the key; with distinct keys it is the only one.
pub proof fn lemma_key_pos<V>(s: Seq<(Seq<char>, V)>, k: Seq<char>)
    requires
        has_key(s, k),
    ensures
        0 <= key_pos(s, k) < s.len(),
        s[key_pos(s, k)].0 == k,
        distinct_keys(s) ==> forall|i: int| 0 <= i < s.len() && #[trigger] s[i].0 == k ==> i == key_pos(s, k),
{
}

/// Taking a key out keeps keys distinct and removes exactly that key.
pub proof fn lemma_without<V>(s: Seq<(Seq<char>, V)>, k: Seq<char>)
    requires
        distinct_keys(s),
    ensures
        distinct_keys(without(s, k)),
        !has_key(without(s, k), k),
        without(s, k).len() == if has_key(s, k) { s.len() - 1 } else { s.len() as int },
        forall|j: Seq<char>| #[trigger] has_key(without(s, k), j) <==> (has_key(s, j) && j != k),
{
    if has_key(s, k) {
        lemma_key_pos(s, k);
        let p = key_pos(s, k);
        let t = s.remove(p);
        assert forall|j: Seq<char>| #[trigger] has_key(t, j) <==> (has_key(s, j) && j != k) by {
            if has_key(t, j) {
                let m = choose|m: int| 0 <= m < t.len() && (#[trigger] t[m]).0 == j;
                if m < p {
                    assert(s[m] == t[m]);
                } else {
                    assert(s[m + 1] == t[m]);
                }
            }
            if has_key(s, j) && j != k {
                let i = choose|i: int| 0 <= i < s.len() && (#[trigger] s[i]).0 == j;
                if i < p {
                    assert(t[i] == s[i]);
                } else {
                    assert(t[i - 1] == s[i]);
                }
            }
        }
        assert forall|i: int, j: int|
            0 <= i < t.len() && 0 <= j < t.len() && i != j implies (#[trigger] t[i]).0 != (#[trigger] t[j]).0 by {
            let si = if i < p { i } else { i + 1 };
            let sj = if j < p { j } else { j + 1 };
            assert(t[i] == s[si]);
            assert(t[j] == s[sj]);
        }
    }
}

/// Appending a new key keeps keys distinct and adds exactly that key.
pub proof fn lemma_push<V>(s: Seq<(Seq<char>, V)>, k: Seq<char>, v: V)
    requires
        distinct_keys(s),
        !has_key(s, k),
    ensures
        distinct_keys(s.push((k, v))),
        forall|j: Seq<char>| #[trigger] has_key(s.push((k, v)), j) <==> (has_key(s, j) || j == k),
{
    let t = s.push((k, v));
    assert forall|j: Seq<char>| #[trigger] has_key(t, j) <==> (has_key(s, j) || j == k) by {
        if has_key(t, j) {
            let m = choose|m: int| 0 <= m < t.len() && (#[trigger] t[m]).0 == j;
            if m < s.len() {
                assert(s[m] == t[m]);
            }
        }
        if has_key(s, j) {
            let i = choose|i: int| 0 <= i < s.len() && (#[trigger] s[i]).0 == j;
            assert(t[i] == s[i]);
        }
        if j == k {
            assert(t[s.len() as int] == (k, v));
        }
    }
    assert forall|i: int, j: int|
        0 <= i < t.len() && 0 <= j < t.len() && i != j implies (#[trigger] t[i]).0 != (#[trigger] t[j]).0 by {
        if i == s.len() {
            assert(t[j] == s[j]);
        } else if j == s.len() {
            assert(t[i] == s[i]);
        } else {
            assert(t[i] == s[i]);
            assert(t[j] == s[j]);
        }
    }
}

/// Dropping the least recently used entry removes exactly its key.
pub proof fn lemma_drop_first<V>(s: Seq<(Seq<char>, V)>)
    requires
        distinct_keys(s),
        s.len() > 0,
    ensures
        distinct_keys(s.drop_first()),
        forall|j: Seq<char>| #[trigger] has_key(s.drop_first(), j) <==> (has_key(s, j) && j != s[0].0),
{
    let t = s.drop_first();
    assert forall|j: Seq<char>| #[trigger] has_key(t, j) <==> (has_key(s, j) && j != s[0].0) by {
        if has_key(t, j) {
            let m = choose|m: int| 0 <= m < t.len() && (#[trigger] t[m]).0 == j;
            assert(s[m + 1] == t[m]);
        }
        if has_key(s, j) && j != s[0].0 {
            let i = choose|i: int| 0 <= i < s.len() && (#[trigger] s[i]).0 == j;
            assert(t[i - 1] == s[i]);
        }
    }
    assert forall|i: int, j: int|
        0 <= i < t.len() && 0 <= j < t.len() && i != j implies (#[trigger] t[i]).0 != (#[trigger] t[j]).0 by {
        assert(t[i] == s[i + 1]);
        assert(t[j] == s[j + 1]);
    }
}

/// Setting a value in place keeps the same keys.
pub proof fn lemma_with_value<V>(s: Seq<(Seq<char>, V)>, k: Seq<char>, v: V)
    requires
        distinct_keys(s),
    ensures
        distinct_keys(with_value(s, k, v)),
        with_value(s, k, v).len() == s.len(),
        forall|j: Seq<char>| #[trigger] has_key(with_value(s, k, v), j) <==> has_key(s, j),
{
    if has_key(s, k) {
        lemma_key_pos(s, k);
        let p = key_pos(s, k);
        let t = with_value(s, k, v);
        assert forall|j: Seq<char>| #[trigger] has_key(t, j) <==> has_key(s, j) by {
            if has_key(t, j) {
                let m = choose|m: int| 0 <= m < t.len() && (#[trigger] t[m]).0 == j;
                assert(t[m].0 == s[m].0);
            }
            if has_key(s, j) {
                let i = choose|i: int| 0 <= i < s.len() && (#[trigger] s[i]).0 == j;
                assert(t[i].0 == s[i].0);
            }
        }
        assert forall|i: int, j: int|
            0 <= i < t.len() && 0 <= j < t.len() && i != j implies (#[trigger] t[i]).0 != (#[trigger] t[j]).0 by {
            assert(t[i].0 == s[i].0);
            assert(t[j].0 == s[j].0);
        }
    }
}

/// Storing an entry keeps keys distinct and adds no key but the stored
/// one, which is present. Below the bound it is a plain append.
pub proof fn lemma_put<V>(s: Seq<(Seq<char>, V)>, k: Seq<char>, v: V, bound: nat)
    requires
        distinct_keys(s),
        bound > 0,
    ensures
        distinct_keys(put(s, k, v, bound)),
        has_key(put(s, k, v, bound), k),
        s.len() <= bound ==> put(s, k, v, bound).len() <= bound,
        put(s, k, v, bound).len() <= without(s, k).len() + 1,
        without(s, k).len() + 1 <= bound ==> put(s, k, v, bound) == without(s, k).push((k, v)),
        put(s, k, v, bound).len() == s.len() + 1 ==> forall|j: Seq<char>|
            has_key(s, j) ==> #[trigger] has_key(put(s, k, v, bound), j),
        forall|j: Seq<char>| #[trigger] has_key(put(s, k, v, bound), j) ==> (has_key(s, j) || j == k),
{
    lemma_without(s, k);
    let w = without(s, k);
    lemma_push(w, k, v);
    let t = w.push((k, v));
    assert(has_key(t, k));
    if t.len() > bound {
        lemma_drop_first(t);
        assert(t[t.len() - 1] == (k, v));
        assert(t.drop_first()[t.len() - 2] == (k, v));
        assert(has_key(t.drop_first(), k));
    }
}

/// Setting a key's value to the one it holds changes nothing.
pub proof fn lemma_with_same_value<V>(s: Seq<(Seq<char>, V)>, k: Seq<char>)
    requires
        has_key(s, k),
    ensures
        with_value(s, k, lookup(s, k).unwrap()) == s,
{
    lemma_key_pos(s, k);
    assert(with_value(s, k, lookup(s, k).unwrap()) =~= s);
}

/// Relies on `LruCache::new`: an empty list with the given size bound.
#[verifier::external_body]
pub(crate) fn live_new(bound: usize) -> (r: LruCache<String, String>)
    ensures
        live_entries(r) == Seq::<(Seq<char>, Seq<char>)>::empty(),
        live_bound(r) == bound,
{
    LruCache::new(bound)
}

/// Relies on `LruCache::with_hasher`: an empty list with the given size bound
/// and hash builder.
#[verifier::external_body]
pub(crate) fn live_with_hasher(bound: usize, hash_builder: RandomState) -> (r: LruCache<String, String>)
    ensures
        live_entries(r) == Seq::<(Seq<char>, Seq<char>)>::empty(),
        live_bound(r) == bound,
{
    LruCache::with_hasher(bound, hash_builder)
}

/// Relies on `RandomState::clone`, to hand one hash builder to each list.
pub assume_specification[ <RandomState as Clone>::clone ](s: &RandomState) -> RandomState;

/// Relies on `LruCache::insert`: the entry is stored (or overwritten) as the
/// most recently used one, and the least recently used entry leaves when
/// the list grows past its bound.
#[verifier::external_body]
pub(crate) fn live_insert(c: &mut LruCache<String, String>, k: String, v: String)
    ensures
        live_entries(*final(c)) == put(live_entries(*old(c)), k@, v@, live_bound(*old(c))),
        live_bound(*final(c)) == live_bound(*old(c)),
{
    c.insert(k, v);
}

/// Relies on `LruCache::remove`: takes the entry of the key out and hands
/// back its value.
#[verifier::external_body]
pub(crate) fn live_remove(c: &mut LruCache<String, String>, k: &String) -> (r: Option<String>)
    ensures
        r.is_some() == has_key(live_entries(*old(c)), k@),
        r.is_some() ==> r.unwrap()@ == lookup(live_entries(*old(c)), k@).unwrap(),
        live_entries(*final(c)) == without(live_entries(*old(c)), k@),
        live_bound(*final(c)) == live_bound(*old(c)),
{
    c.remove(k)
}

/// Relies on `LruCache::remove_lru`: takes out the least recently used
/// entry; its key is handed back.
#[verifier::external_body]
pub(crate) fn live_remove_lru(c: &mut LruCache<String, String>) -> (r: Option<String>)
    ensures
        live_entries(*old(c)).len() == 0 ==> r.is_none() && live_entries(*final(c)) == live_entries(*old(c)),
        live_entries(*old(c)).len() > 0 ==> r.is_some() && r.unwrap()@ == live_entries(*old(c))[0].0
            && live_entries(*final(c)) == live_entries(*old(c)).drop_first(),
        live_bound(*final(c)) == live_bound(*old(c)),
{
    c.remove_lru().map(|e| e.0)
}

/// Relies on `LruCache::peek_mut`: a handle on the value of the key, without
/// touching the recency order.
#[verifier::external_body]
pub(crate) fn live_peek_mut<'a>(c: &'a mut LruCache<String, String>, k: &String) -> (r: Option<&'a mut String>)
    ensures
        r.is_some() == has_key(live_entries(*old(c)), k@),
        r.is_some() ==> (*r.unwrap())@ == lookup(live_entries(*old(c)), k@).unwrap()
            && live_entries(*final(c)) == with_value(live_entries(*old(c)), k@, (*final(r.unwrap()))@),
        r.is_none() ==> live_entries(*final(c)) == live_entries(*old(c)),
        live_bound(*final(c)) == live_bound(*old(c)),
{
    c.peek_mut(k)
}

/// Relies on `LruCache::get_mut`: a handle on the value of the key, which
/// becomes the most recently used entry.
#[verifier::external_body]
pub(crate) fn live_get_mut<'a>(c: &'a mut LruCache<String, String>, k: &String) -> (r: Option<&'a mut String>)
    ensures
        r.is_some() == has_key(live_entries(*old(c)), k@),
        r.is_some() ==> (*r.unwrap())@ == lookup(live_entries(*old(c)), k@).unwrap()
            && live_entries(*final(c)) == without(live_entries(*old(c)), k@).push((k@, (*final(r.unwrap()))@)),
        r.is_none() ==> live_entries(*final(c)) == live_entries(*old(c)),
        live_bound(*final(c)) == live_bound(*old(c)),
{
    c.get_mut(k)
}

/// Relies on `LruCache::len`: the number of entries.
#[verifier::external_body]
pub(crate) fn live_len(c: &LruCache<String, String>) -> (r: usize)
    ensures
        r == live_entries(*c).len(),
{
    c.len()
}

/// Relies on `LruCache::clear`: every entry leaves; the bound stays.
#[verifier::external_body]
pub(crate) fn live_clear(c: &mut LruCache<String, String>)
    ensures
        live_entries(*final(c)) == Seq::<(Seq<char>, Seq<char>)>::empty(),
        live_bound(*final(c)) == live_bound(*old(c)),
{
    c.clear()
}

/// Relies on `LruCache::iter`: the entries, least recently used first,
/// copied out.
#[verifier::external_body]
pub(crate) fn live_items(c: &LruCache<String, String>) -> (r: Vec<(String, String)>)
    ensures
        r@.len() == live_entries(*c).len(),
        forall|i: int|
            0 <= i < r@.len() ==> (#[trigger] r@[i]).0@ == live_entries(*c)[i].0
                && r@[i].1@ == live_entries(*c)[i].1,
{
    c.iter().map(|(k, v)| (k.clone(), v.clone())).collect()
}

/// Relies on `LruCache::new`: an empty list with the given size bound.
#[verifier::external_body]
pub(crate) fn ghost_new(bound: usize) -> (r: LruCache<String, ()>)
    ensures
        ghost_entries(r) == Seq::<(Seq<char>, ())>::empty(),
        ghost_bound(r) == bound,
{
    LruCache::new(bound)
}

/// Relies on `LruCache::with_hasher`: an empty list with the given size bound
/// and hash builder.
#[verifier::external_body]
pub(crate) fn ghost_with_hasher(bound: usize, hash_builder: RandomState) -> (r: LruCache<String, ()>)
    ensures
        ghost_entries(r) == Seq::<(Seq<char>, ())>::empty(),
        ghost_bound(r) == bound,
{
    LruCache::with_hasher(bound, hash_builder)
}

/// Relies on `LruCache::peek_mut`: a handle on the entry of the key,
/// without touching the recency order.
#[verifier::external_body]
pub(crate) fn ghost_peek_mut<'a>(c: &'a mut LruCache<String, ()>, k: &String) -> (r: Option<&'a mut ()>)
    ensures
        r.is_some() == has_key(ghost_entries(*old(c)), k@),
        r.is_some() ==> ghost_entries(*final(c)) == with_value(ghost_entries(*old(c)), k@, *final(r.unwrap())),
        r.is_none() ==> ghost_entries(*final(c)) == ghost_entries(*old(c)),
        ghost_bound(*final(c)) == ghost_bound(*old(c)),
{
    c.peek_mut(k)
}

/// Relies on `LruCache::insert`: the key is stored as the most recently used
/// entry, and the least recently used entry leaves when the list grows past
/// its bound.
#[verifier::external_body]
pub(crate) fn ghost_insert(c: &mut LruCache<String, ()>, k: String)
    ensures
        ghost_entries(*final(c)) == put(ghost_entries(*old(c)), k@, (), ghost_bound(*old(c))),
        ghost_bound(*final(c)) == ghost_bound(*old(c)),
{
    c.insert(k, ());
}

/// Relies on `LruCache::remove`: takes the entry of the key out.
#[verifier::external_body]
pub(crate) fn ghost_remove(c: &mut LruCache<String, ()>, k: &String)
    ensures
        ghost_entries(*final(c)) == without(ghost_entries(*old(c)), k@),
        ghost_bound(*final(c)) == ghost_bound(*old(c)),
{
    c.remove(k);
}

/// Relies on `LruCache::remove_lru`: takes out the least recently used entry.
#[verifier::external_body]
pub(crate) fn ghost_remove_lru(c: &mut LruCache<String, ()>)
    ensures
        ghost_entries(*old(c)).len() == 0 ==> ghost_entries(*final(c)) == ghost_entries(*old(c)),
        ghost_entries(*old(c)).len() > 0 ==> ghost_entries(*final(c)) == ghost_entries(*old(c)).drop_first(),
        ghost_bound(*final(c)) == ghost_bound(*old(c)),
{
    c.remove_lru();
}

/// Relies on `LruCache::len`: the number of entries.
#[verifier::external_body]
pub(crate) fn ghost_len(c: &LruCache<String, ()>) -> (r: usize)
    ensures
        r == ghost_entries(*c).len(),
{
    c.len()
}

/// Relies on `LruCache::clear`: every entry leaves; the bound stays.
#[verifier::external_body]
pub(crate) fn ghost_clear(c: &mut LruCache<String, ()>)
    ensures
        ghost_entries(*final(c)) == Seq::<(Seq<char>, ())>::empty(),
        ghost_bound(*final(c)) == ghost_bound(*old(c)),
{
    c.clear()
}

} // verus!
