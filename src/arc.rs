//! The adaptive replacement cache.
//!
//! Four recency-ordered lists: `recent` holds items seen once, `frequent`
//! items seen at least twice, and the two history lists hold the keys most
//! lately evicted from each. The target size `p` of `recent` moves up when a
//! key evicted from `recent` returns, and down when one evicted from
//! `frequent` returns.
use crate::lru::{
    disjoint_keys, distinct_keys, ghost_bound, ghost_clear, ghost_entries, ghost_insert, ghost_len,
    ghost_new, ghost_peek_mut, ghost_remove, ghost_remove_lru, ghost_with_hasher, has_key,
    lemma_drop_first, lemma_key_pos, lemma_push, lemma_put, lemma_with_same_value, lemma_with_value,
    lemma_without, live_bound, live_clear, live_entries, live_get_mut, live_insert, live_items,
    live_len, live_new, live_peek_mut, live_remove, live_remove_lru, live_with_hasher, lookup, put,
    with_value, without,
};
use std::collections::hash_map::RandomState;
use vstd::prelude::*;
use xlru_cache::LruCache;

verus! {

/// The abstract state of a cache.
pub struct ArcState {
    pub recent: Seq<(Seq<char>, Seq<char>)>,
    pub frequent: Seq<(Seq<char>, Seq<char>)>,
    pub recent_ghost: Seq<(Seq<char>, ())>,
    pub frequent_ghost: Seq<(Seq<char>, ())>,
    pub capacity: nat,
    pub p: nat,
    pub inserted: nat,
    pub evicted: nat,
    pub removed: nat,
}

impl ArcState {
    /// Number of live items.
    pub open spec fn live_len(self) -> nat {
        self.recent.len() + self.frequent.len()
    }

    /// The key has a live entry.
    pub open spec fn is_live(self, k: Seq<char>) -> bool {
        has_key(self.frequent, k) || has_key(self.recent, k)
    }

    /// The key is found in one of the four lists.
    pub open spec fn is_known(self, k: Seq<char>) -> bool {
        self.is_live(k) || has_key(self.frequent_ghost, k) || has_key(self.recent_ghost, k)
    }

    /// The value of a live key, looked up in `frequent` first.
    pub open spec fn value_of(self, k: Seq<char>) -> Option<Seq<char>> {
        if has_key(self.frequent, k) {
            lookup(self.frequent, k)
        } else {
            lookup(self.recent, k)
        }
    }

    /// The live entries, those of `frequent` first; each list least
    /// recently used first.
    pub open spec fn items(self) -> Seq<(Seq<char>, Seq<char>)> {
        self.frequent + self.recent
    }

    /// Number of history keys.
    pub open spec fn ghost_len(self) -> nat {
        self.recent_ghost.len() + self.frequent_ghost.len()
    }

    /// The lists' shape: `p` within the capacity, distinct keys in each list,
    /// no key in two lists, each live list's length a `usize`, and the live
    /// lists together at most one over the capacity.
    pub open spec fn shaped(self) -> bool {
        &&& 0 < self.capacity <= usize::MAX
        &&& self.p <= self.capacity
        &&& distinct_keys(self.recent)
        &&& distinct_keys(self.frequent)
        &&& distinct_keys(self.recent_ghost)
        &&& distinct_keys(self.frequent_ghost)
        &&& self.recent.len() <= list_bound()
        &&& self.frequent.len() <= list_bound()
        &&& self.live_len() <= self.capacity + 1
        &&& self.exclusive()
    }

    /// What holds after every operation: the lists' shape, and the history
    /// lists together within the capacity.
    pub open spec fn valid(self) -> bool {
        &&& self.shaped()
        &&& self.ghost_len() <= self.capacity
    }

    /// No key is in two of the four lists.
    pub open spec fn exclusive(self) -> bool {
        &&& disjoint_keys(self.recent, self.frequent)
        &&& disjoint_keys(self.recent, self.recent_ghost)
        &&& disjoint_keys(self.recent, self.frequent_ghost)
        &&& disjoint_keys(self.frequent, self.recent_ghost)
        &&& disjoint_keys(self.frequent, self.frequent_ghost)
        &&& disjoint_keys(self.recent_ghost, self.frequent_ghost)
    }

    /// The live lists are full: room must be made before another item comes in.
    pub open spec fn is_full(self) -> bool {
        self.live_len() >= self.capacity
    }

    /// Room is made by evicting from `recent` rather than `frequent`.
    pub open spec fn evicts_recent(self, prefer_frequent_eviction: bool) -> bool {
        self.recent.len() > 0 && (self.recent.len() > self.p || (self.recent.len() == self.p
            && prefer_frequent_eviction))
    }

    /// One live list loses its least recently used entry, whose key goes to
    /// the matching history list.
    pub open spec fn replaced(self, prefer_frequent_eviction: bool) -> ArcState {
        if self.evicts_recent(prefer_frequent_eviction) {
            ArcState {
                recent: self.recent.drop_first(),
                recent_ghost: put(self.recent_ghost, self.recent[0].0, (), list_bound()),
                ..self
            }
        } else if self.frequent.len() > 0 {
            ArcState {
                frequent: self.frequent.drop_first(),
                frequent_ghost: put(self.frequent_ghost, self.frequent[0].0, (), list_bound()),
                ..self
            }
        } else {
            self
        }
    }

    /// Room made for one more live item, where the live lists are full.
    pub open spec fn with_room(self, prefer_frequent_eviction: bool) -> ArcState {
        if self.is_full() {
            self.replaced(prefer_frequent_eviction)
        } else {
            self
        }
    }

    /// `p` after a key of `frequent_ghost` returns.
    pub open spec fn p_lowered(self) -> nat {
        let b1 = self.recent_ghost.len();
        let b2 = self.frequent_ghost.len();
        let delta = if b1 > b2 { b1 / b2 } else { 1 };
        if delta < self.p { (self.p - delta) as nat } else { 0 }
    }

    /// `p` after a key of `recent_ghost` returns.
    pub open spec fn p_raised(self) -> nat {
        let b1 = self.recent_ghost.len();
        let b2 = self.frequent_ghost.len();
        let delta = if b2 > b1 { b2 / b1 } else { 1 };
        if delta <= self.capacity - self.p { self.p + delta } else { self.capacity }
    }

    /// The state after `insert(k, v)`.
    pub open spec fn after_insert(self, k: Seq<char>, v: Seq<char>) -> ArcState {
        if has_key(self.frequent, k) {
            ArcState { frequent: put(self.frequent, k, v, list_bound()), ..self }
        } else if has_key(self.recent, k) {
            ArcState {
                recent: without(self.recent, k),
                frequent: put(self.frequent, k, v, list_bound()),
                ..self
            }
        } else if has_key(self.frequent_ghost, k) {
            let s1 = ArcState { p: self.p_lowered(), ..self };
            let s2 = s1.with_room(true);
            ArcState {
                frequent_ghost: without(s2.frequent_ghost, k),
                frequent: put(s2.frequent, k, v, list_bound()),
                ..s2
            }
        } else if has_key(self.recent_ghost, k) {
            let s1 = ArcState { p: self.p_raised(), ..self };
            let s2 = s1.with_room(false);
            ArcState {
                recent_ghost: without(s2.recent_ghost, k),
                frequent: put(s2.frequent, k, v, list_bound()),
                ..s2
            }
        } else {
            let s1 = self.with_room(false);
            let s2 = if s1.recent_ghost.len() > s1.capacity - s1.p {
                ArcState {
                    recent_ghost: s1.recent_ghost.drop_first(),
                    evicted: s1.evicted + 1,
                    ..s1
                }
            } else {
                s1
            };
            let s3 = if s2.frequent_ghost.len() > s2.p {
                ArcState {
                    frequent_ghost: s2.frequent_ghost.drop_first(),
                    evicted: s2.evicted + 1,
                    ..s2
                }
            } else {
                s2
            };
            ArcState {
                recent: put(s3.recent, k, v, list_bound()),
                inserted: s3.inserted + 1,
                ..s3
            }
        }
    }

    /// The state with the value of the live key `k` set to `v`, in place.
    pub open spec fn with_live_value(self, k: Seq<char>, v: Seq<char>) -> ArcState {
        if has_key(self.frequent, k) {
            ArcState { frequent: with_value(self.frequent, k, v), ..self }
        } else {
            ArcState { recent: with_value(self.recent, k, v), ..self }
        }
    }

    /// A key of `recent` moved, value intact, to `frequent`.
    pub open spec fn promoted(self, k: Seq<char>) -> ArcState {
        if has_key(self.recent, k) {
            ArcState {
                recent: without(self.recent, k),
                frequent: put(self.frequent, k, lookup(self.recent, k).unwrap(), list_bound()),
                ..self
            }
        } else {
            self
        }
    }

    /// The state after `get_mut(k)` on a live key, whose value the caller
    /// leaves as `v`: promoted, and most recently used in `frequent`.
    pub open spec fn after_get(self, k: Seq<char>, v: Seq<char>) -> ArcState {
        let s = self.promoted(k);
        ArcState { frequent: without(s.frequent, k).push((k, v)), ..s }
    }

    /// The state after `remove(k)`: the key leaves all four lists.
    pub open spec fn after_remove(self, k: Seq<char>) -> ArcState {
        ArcState {
            recent: without(self.recent, k),
            frequent: without(self.frequent, k),
            recent_ghost: without(self.recent_ghost, k),
            frequent_ghost: without(self.frequent_ghost, k),
            removed: if self.is_live(k) { self.removed + 1 } else { self.removed },
            ..self
        }
    }

    /// The state after `clear()`: all four lists empty; `p` and the counters
    /// stay.
    pub open spec fn cleared(self) -> ArcState {
        ArcState {
            recent: Seq::empty(),
            frequent: Seq::empty(),
            recent_ghost: Seq::empty(),
            frequent_ghost: Seq::empty(),
            ..self
        }
    }

    /// A cache with nothing in it.
    pub open spec fn empty(capacity: nat) -> ArcState {
        ArcState {
            recent: Seq::empty(),
            frequent: Seq::empty(),
            recent_ghost: Seq::empty(),
            frequent_ghost: Seq::empty(),
            capacity,
            p: 0,
            inserted: 0,
            evicted: 0,
            removed: 0,
        }
    }

    /// How many of the four lists hold the key.
    pub open spec fn holders(self, k: Seq<char>) -> nat {
        one_if(has_key(self.recent, k)) + one_if(has_key(self.frequent, k)) + one_if(
            has_key(self.recent_ghost, k),
        ) + one_if(has_key(self.frequent_ghost, k))
    }

    /// The one case in which an insert leaves the live lists over the
    /// capacity: a key not live and not in `frequent_ghost` comes in while
    /// `recent` fills the whole capacity, `frequent` is empty and `p`, once
    /// adapted, equals the capacity, so that no live list gives up an entry.
    pub open spec fn overfills(self, k: Seq<char>) -> bool {
        &&& !self.is_live(k)
        &&& !has_key(self.frequent_ghost, k)
        &&& self.frequent.len() == 0
        &&& self.recent.len() == self.capacity
        &&& (if has_key(self.recent_ghost, k) { self.p_raised() } else { self.p }) == self.capacity
    }
}

/// The size bound each list is made with: high enough that no list ever
/// drops an entry by itself.
pub open spec fn list_bound() -> nat {
    usize::MAX as nat
}

/// One for true, zero for false.
pub open spec fn one_if(b: bool) -> nat {
    if b { 1 } else { 0 }
}

/// Making room keeps the lists' shape. It takes one live entry out, unless
/// `frequent` is empty and `recent` is not the list to evict from. The
/// history lists gain at most one key, and keep all of theirs when they do.
pub proof fn lemma_replaced(s: ArcState, prefer_frequent_eviction: bool)
    requires
        s.shaped(),
    ensures
        s.replaced(prefer_frequent_eviction).shaped(),
        s.replaced(prefer_frequent_eviction).live_len() + 1 == s.live_len() || (s.frequent.len() == 0
            && !s.evicts_recent(prefer_frequent_eviction) && s.replaced(prefer_frequent_eviction) == s),
        s.replaced(prefer_frequent_eviction).ghost_len() <= s.ghost_len() + 1,
        s.replaced(prefer_frequent_eviction).ghost_len() == s.ghost_len() + 1 ==> (forall|j: Seq<char>|
            has_key(s.recent_ghost, j) ==> #[trigger] has_key(s.replaced(prefer_frequent_eviction).recent_ghost, j)),
        s.replaced(prefer_frequent_eviction).ghost_len() == s.ghost_len() + 1 ==> (forall|j: Seq<char>|
            has_key(s.frequent_ghost, j) ==> #[trigger] has_key(s.replaced(prefer_frequent_eviction).frequent_ghost, j)),
        forall|j: Seq<char>| #[trigger] has_key(s.replaced(prefer_frequent_eviction).recent, j) ==> has_key(s.recent, j),
        forall|j: Seq<char>|
            has_key(s.recent, j) && !#[trigger] has_key(s.replaced(prefer_frequent_eviction).recent, j)
                ==> s.evicts_recent(prefer_frequent_eviction) && j == s.recent[0].0,
        forall|j: Seq<char>|
            has_key(s.frequent, j) && !#[trigger] has_key(s.replaced(prefer_frequent_eviction).frequent, j)
                ==> !s.evicts_recent(prefer_frequent_eviction) && j == s.frequent[0].0,
        s.replaced(prefer_frequent_eviction).recent.len() <= s.recent.len(),
        s.replaced(prefer_frequent_eviction).frequent.len() <= s.frequent.len(),
        forall|j: Seq<char>| #[trigger] has_key(s.replaced(prefer_frequent_eviction).frequent, j) ==> has_key(s.frequent, j),
        forall|j: Seq<char>| #[trigger] has_key(s.replaced(prefer_frequent_eviction).recent_ghost, j)
            ==> has_key(s.recent_ghost, j) || has_key(s.recent, j),
        forall|j: Seq<char>| #[trigger] has_key(s.replaced(prefer_frequent_eviction).frequent_ghost, j)
            ==> has_key(s.frequent_ghost, j) || has_key(s.frequent, j),
{
    if s.evicts_recent(prefer_frequent_eviction) {
        lemma_drop_first(s.recent);
        lemma_put(s.recent_ghost, s.recent[0].0, (), list_bound());
        lemma_without(s.recent_ghost, s.recent[0].0);
        assert(has_key(s.recent, s.recent[0].0));
    } else if s.frequent.len() > 0 {
        lemma_drop_first(s.frequent);
        lemma_put(s.frequent_ghost, s.frequent[0].0, (), list_bound());
        lemma_without(s.frequent_ghost, s.frequent[0].0);
        assert(has_key(s.frequent, s.frequent[0].0));
    }
}

/// Every insert keeps the invariant: `p` stays within the capacity, no key
/// is in two lists, each list keeps distinct keys, the history lists stay
/// within the capacity, and the live lists at most one over it.
pub proof fn lemma_insert_keeps_valid(s: ArcState, k: Seq<char>, v: Seq<char>)
    requires
        s.valid(),
    ensures
        s.after_insert(k, v).valid(),
        s.after_insert(k, v).is_live(k),
{
    if has_key(s.frequent, k) {
        lemma_put(s.frequent, k, v, list_bound());
        lemma_without(s.frequent, k);
    } else if has_key(s.recent, k) {
        lemma_without(s.recent, k);
        lemma_put(s.frequent, k, v, list_bound());
        lemma_without(s.frequent, k);
    } else if has_key(s.frequent_ghost, k) {
        lemma_frequent_ghost_hit(s, k, v);
    } else if has_key(s.recent_ghost, k) {
        lemma_recent_ghost_hit(s, k, v);
    } else {
        lemma_cold_miss(s, k, v);
    }
}

/// The invariant is kept when a key of `frequent_ghost` returns.
proof fn lemma_frequent_ghost_hit(s: ArcState, k: Seq<char>, v: Seq<char>)
    requires
        s.valid(),
        !s.is_live(k),
        has_key(s.frequent_ghost, k),
    ensures
        s.after_insert(k, v).valid(),
        s.after_insert(k, v).is_live(k),
{
    let s1 = ArcState { p: s.p_lowered(), ..s };
    assert(s1.valid());
    lemma_replaced(s1, true);
    let s2 = s1.with_room(true);
    lemma_without(s2.frequent_ghost, k);
    lemma_put(s2.frequent, k, v, list_bound());
    lemma_without(s2.frequent, k);
    assert(!has_key(s2.recent, k));
    assert(!has_key(s2.recent_ghost, k));
    if s2.ghost_len() == s1.ghost_len() + 1 {
        assert(has_key(s2.frequent_ghost, k));
    }
}

/// The invariant is kept when a key of `recent_ghost` returns.
proof fn lemma_recent_ghost_hit(s: ArcState, k: Seq<char>, v: Seq<char>)
    requires
        s.valid(),
        !s.is_live(k),
        !has_key(s.frequent_ghost, k),
        has_key(s.recent_ghost, k),
    ensures
        s.after_insert(k, v).valid(),
        s.after_insert(k, v).is_live(k),
{
    let s1 = ArcState { p: s.p_raised(), ..s };
    assert(s1.valid());
    lemma_replaced(s1, false);
    let s2 = s1.with_room(false);
    lemma_without(s2.recent_ghost, k);
    lemma_put(s2.frequent, k, v, list_bound());
    lemma_without(s2.frequent, k);
    assert(!has_key(s2.recent, k));
    assert(!has_key(s2.frequent_ghost, k));
    if s2.ghost_len() == s1.ghost_len() + 1 {
        assert(has_key(s2.recent_ghost, k));
    }
}

/// The invariant is kept when a key unknown to all four lists comes in.
proof fn lemma_cold_miss(s: ArcState, k: Seq<char>, v: Seq<char>)
    requires
        s.valid(),
        !s.is_known(k),
    ensures
        s.after_insert(k, v).valid(),
        s.after_insert(k, v).is_live(k),
{
    lemma_replaced(s, false);
    let s1 = s.with_room(false);
    assert(s1.shaped() && s1.ghost_len() <= s1.capacity + 1);
    let s2 = if s1.recent_ghost.len() > s1.capacity - s1.p {
        lemma_drop_first(s1.recent_ghost);
        ArcState { recent_ghost: s1.recent_ghost.drop_first(), evicted: s1.evicted + 1, ..s1 }
    } else {
        s1
    };
    assert(s2.shaped());
    let s3 = if s2.frequent_ghost.len() > s2.p {
        lemma_drop_first(s2.frequent_ghost);
        ArcState { frequent_ghost: s2.frequent_ghost.drop_first(), evicted: s2.evicted + 1, ..s2 }
    } else {
        s2
    };
    assert(s3.shaped());
    assert(s3.ghost_len() <= s3.capacity);
    lemma_put(s3.recent, k, v, list_bound());
    lemma_without(s3.recent, k);
    assert(!has_key(s3.frequent, k));
    assert(!has_key(s3.recent_ghost, k));
    assert(!has_key(s3.frequent_ghost, k));
    assert(s.after_insert(k, v) == ArcState {
        recent: put(s3.recent, k, v, list_bound()),
        inserted: s3.inserted + 1,
        ..s3
    });
}

/// An insert into live lists within the capacity keeps them within it,
/// except where `overfills` holds.
pub proof fn lemma_insert_within_capacity(s: ArcState, k: Seq<char>, v: Seq<char>)
    requires
        s.valid(),
        s.live_len() <= s.capacity,
        !s.overfills(k),
    ensures
        s.after_insert(k, v).live_len() <= s.capacity,
{
    lemma_insert_keeps_valid(s, k, v);
    if has_key(s.frequent, k) {
        lemma_put(s.frequent, k, v, list_bound());
        lemma_without(s.frequent, k);
    } else if has_key(s.recent, k) {
        lemma_without(s.recent, k);
        lemma_put(s.frequent, k, v, list_bound());
        lemma_without(s.frequent, k);
    } else if has_key(s.frequent_ghost, k) {
        let s1 = ArcState { p: s.p_lowered(), ..s };
        lemma_replaced(s1, true);
        let s2 = s1.with_room(true);
        lemma_put(s2.frequent, k, v, list_bound());
        lemma_without(s2.frequent, k);
    } else if has_key(s.recent_ghost, k) {
        let s1 = ArcState { p: s.p_raised(), ..s };
        lemma_replaced(s1, false);
        let s2 = s1.with_room(false);
        lemma_put(s2.frequent, k, v, list_bound());
        lemma_without(s2.frequent, k);
    } else {
        lemma_replaced(s, false);
        let s1 = s.with_room(false);
        lemma_put(s1.recent, k, v, list_bound());
        lemma_without(s1.recent, k);
    }
}

/// Whether a live list has an entry for the key; the list is left as it was.
fn live_has(c: &mut LruCache<String, String>, k: &String) -> (r: bool)
    ensures
        r == has_key(live_entries(*old(c)), k@),
        live_entries(*final(c)) == live_entries(*old(c)),
        live_bound(*final(c)) == live_bound(*old(c)),
{
    let found = live_peek_mut(c, k);
    let r = found.is_some();
    proof {
        if r {
            lemma_with_same_value(live_entries(*old(c)), k@);
        }
    }
    r
}

/// Whether a history list has an entry for the key; the list is left as it
/// was.
fn ghost_has(c: &mut LruCache<String, ()>, k: &String) -> (r: bool)
    ensures
        r == has_key(ghost_entries(*old(c)), k@),
        ghost_entries(*final(c)) == ghost_entries(*old(c)),
        ghost_bound(*final(c)) == ghost_bound(*old(c)),
{
    let found = ghost_peek_mut(c, k);
    let r = found.is_some();
    proof {
        if r {
            lemma_with_same_value(ghost_entries(*old(c)), k@);
        }
    }
    r
}

/// A fixed-capacity cache under the adaptive replacement policy.
pub struct ArcCache {
    recent_set: LruCache<String, String>,
    recent_evicted: LruCache<String, ()>,
    frequent_set: LruCache<String, String>,
    frequent_evicted: LruCache<String, ()>,
    capacity: usize,
    p: usize,
    inserted: u64,
    evicted: u64,
    removed: u64,
}

impl View for ArcCache {
    type V = ArcState;

    closed spec fn view(&self) -> ArcState {
        ArcState {
            recent: live_entries(self.recent_set),
            frequent: live_entries(self.frequent_set),
            recent_ghost: ghost_entries(self.recent_evicted),
            frequent_ghost: ghost_entries(self.frequent_evicted),
            capacity: self.capacity as nat,
            p: self.p as nat,
            inserted: self.inserted as nat,
            evicted: self.evicted as nat,
            removed: self.removed as nat,
        }
    }
}

impl ArcCache {
    /// Each of the four lists was made with `list_bound()` as bound.
    closed spec fn bounds_ok(&self) -> bool {
        &&& live_bound(self.recent_set) == list_bound()
        &&& live_bound(self.frequent_set) == list_bound()
        &&& ghost_bound(self.recent_evicted) == list_bound()
        &&& ghost_bound(self.frequent_evicted) == list_bound()
    }

    /// The cache is well formed: its state is valid.
    pub closed spec fn wf(&self) -> bool {
        &&& self@.valid()
        &&& self.bounds_ok()
    }

    /// Creates an empty cache that holds at most `capacity` items; fails
    /// when `capacity` is zero.
    pub fn new(capacity: usize) -> (r: Result<ArcCache, &'static str>)
        ensures
            r.is_err() == (capacity == 0),
            r.is_ok() ==> r.unwrap().wf() && r.unwrap()@ == ArcState::empty(capacity as nat),
    {
        if capacity == 0 {
            return Err("Cache length cannot be zero");
        }
        let cache = ArcCache {
            recent_set: live_new(usize::MAX),
            recent_evicted: ghost_new(usize::MAX),
            frequent_set: live_new(usize::MAX),
            frequent_evicted: ghost_new(usize::MAX),
            capacity,
            p: 0,
            inserted: 0,
            evicted: 0,
            removed: 0,
        };
        Ok(cache)
    }

    /// Creates an empty cache that holds at most `capacity` items and hashes
    /// keys with `hash_builder`; fails when `capacity` is zero.
    pub fn with_hasher(capacity: usize, hash_builder: RandomState) -> (r: Result<ArcCache, &'static str>)
        ensures
            r.is_err() == (capacity == 0),
            r.is_ok() ==> r.unwrap().wf() && r.unwrap()@ == ArcState::empty(capacity as nat),
    {
        if capacity == 0 {
            return Err("Cache length cannot be zero");
        }
        let cache = ArcCache {
            recent_set: live_with_hasher(usize::MAX, hash_builder.clone()),
            recent_evicted: ghost_with_hasher(usize::MAX, hash_builder.clone()),
            frequent_set: live_with_hasher(usize::MAX, hash_builder.clone()),
            frequent_evicted: ghost_with_hasher(usize::MAX, hash_builder),
            capacity,
            p: 0,
            inserted: 0,
            evicted: 0,
            removed: 0,
        };
        Ok(cache)
    }

    /// Whether `key` has a live entry. Nothing changes.
    pub fn contains_key(&mut self, key: &String) -> (r: bool)
        requires
            old(self).wf(),
        ensures
            final(self).wf(),
            r == old(self)@.is_live(key@),
            final(self)@ == old(self)@,
    {
        live_has(&mut self.frequent_set, key) || live_has(&mut self.recent_set, key)
    }

    /// Whether the live lists are full.
    fn is_full(&self) -> (r: bool)
        ensures
            r == self@.is_full(),
    {
        let frequent_len = live_len(&self.frequent_set);
        frequent_len >= self.capacity || live_len(&self.recent_set) >= self.capacity - frequent_len
    }

    /// Evicts the least recently used entry of one live list into the
    /// matching history list.
    fn replace(&mut self, prefer_frequent_eviction: bool)
        requires
            old(self).bounds_ok(),
        ensures
            final(self).bounds_ok(),
            final(self).capacity == old(self).capacity,
            final(self)@ == old(self)@.replaced(prefer_frequent_eviction),
    {
        let recent_set_len = live_len(&self.recent_set);
        if recent_set_len > 0 && (recent_set_len > self.p || (recent_set_len == self.p
            && prefer_frequent_eviction)) {
            if let Some(old_key) = live_remove_lru(&mut self.recent_set) {
                ghost_insert(&mut self.recent_evicted, old_key);
            }
        } else if let Some(old_key) = live_remove_lru(&mut self.frequent_set) {
            ghost_insert(&mut self.frequent_evicted, old_key);
        }
    }

    /// Stores `value` under `key` by the adaptive policy; returns whether the
    /// key was already known to the cache, live or in a history list.
    pub fn insert(&mut self, key: String, value: String) -> (r: bool)
        requires
            old(self).wf(),
            old(self)@.inserted < u64::MAX,
            old(self)@.evicted + 2 <= u64::MAX,
        ensures
            final(self).wf(),
            final(self)@ == old(self)@.after_insert(key@, value@),
            r == old(self)@.is_known(key@),
    {
        proof {
            lemma_insert_keeps_valid(self@, key@, value@);
        }
        if live_has(&mut self.frequent_set, &key) {
            live_insert(&mut self.frequent_set, key, value);
            return true;
        }
        if live_has(&mut self.recent_set, &key) {
            live_remove(&mut self.recent_set, &key);
            live_insert(&mut self.frequent_set, key, value);
            return true;
        }
        if ghost_has(&mut self.frequent_evicted, &key) {
            let recent_evicted_len = ghost_len(&self.recent_evicted);
            let frequent_evicted_len = ghost_len(&self.frequent_evicted);
            let delta: usize = if recent_evicted_len > frequent_evicted_len {
                recent_evicted_len / frequent_evicted_len
            } else {
                1
            };
            if delta < self.p {
                self.p = self.p - delta;
            } else {
                self.p = 0;
            }
            if self.is_full() {
                self.replace(true);
            }
            ghost_remove(&mut self.frequent_evicted, &key);
            live_insert(&mut self.frequent_set, key, value);
            return true;
        }
        if ghost_has(&mut self.recent_evicted, &key) {
            let recent_evicted_len = ghost_len(&self.recent_evicted);
            let frequent_evicted_len = ghost_len(&self.frequent_evicted);
            let delta: usize = if frequent_evicted_len > recent_evicted_len {
                frequent_evicted_len / recent_evicted_len
            } else {
                1
            };
            if delta <= self.capacity - self.p {
                self.p = self.p + delta;
            } else {
                self.p = self.capacity;
            }
            if self.is_full() {
                self.replace(false);
            }
            ghost_remove(&mut self.recent_evicted, &key);
            live_insert(&mut self.frequent_set, key, value);
            return true;
        }
        if self.is_full() {
            self.replace(false);
        }
        if ghost_len(&self.recent_evicted) > self.capacity - self.p {
            ghost_remove_lru(&mut self.recent_evicted);
            self.evicted = self.evicted + 1;
        }
        if ghost_len(&self.frequent_evicted) > self.p {
            ghost_remove_lru(&mut self.frequent_evicted);
            self.evicted = self.evicted + 1;
        }
        live_insert(&mut self.recent_set, key, value);
        self.inserted = self.inserted + 1;
        false
    }
    /// A handle on the value of a live key, looked up in `frequent` first,
    /// without touching the recency order.
    pub fn peek_mut(&mut self, key: &String) -> (r: Option<&mut String>)
        requires
            old(self).wf(),
        ensures
            r.is_some() == old(self)@.is_live(key@),
            r.is_some() ==> (*r.unwrap())@ == old(self)@.value_of(key@).unwrap()
                && final(self)@ == old(self)@.with_live_value(key@, (*final(r.unwrap()))@),
            r.is_none() ==> final(self)@ == old(self)@,
            final(self).wf(),
    {
        proof {
            lemma_with_value_keeps_valid(self@, key@);
        }
        let found = live_peek_mut(&mut self.frequent_set, key);
        if found.is_some() {
            found
        } else {
            live_peek_mut(&mut self.recent_set, key)
        }
    }

    /// A handle on the value of a live key. A key of `recent` is first moved,
    /// value intact, to `frequent`; the key becomes the most recently used
    /// of `frequent`.
    pub fn get_mut(&mut self, key: &String) -> (r: Option<&mut String>)
        requires
            old(self).wf(),
        ensures
            r.is_some() == old(self)@.is_live(key@),
            r.is_some() ==> (*r.unwrap())@ == old(self)@.value_of(key@).unwrap()
                && final(self)@ == old(self)@.after_get(key@, (*final(r.unwrap()))@),
            r.is_none() ==> final(self)@ == old(self)@,
            final(self).wf(),
    {
        proof {
            lemma_get_keeps_valid(self@, key@);
        }
        if let Some(value) = live_remove(&mut self.recent_set, key) {
            live_insert(&mut self.frequent_set, key.clone(), value);
        }
        live_get_mut(&mut self.frequent_set, key)
    }

    /// Takes `key` out of all four lists; hands back its value where it was
    /// live, and counts that removal.
    pub fn remove(&mut self, key: &String) -> (r: Option<String>)
        requires
            old(self).wf(),
            old(self)@.is_live(key@) ==> old(self)@.removed < u64::MAX,
        ensures
            final(self).wf(),
            r.is_some() == old(self)@.is_live(key@),
            r.is_some() ==> r.unwrap()@ == old(self)@.value_of(key@).unwrap(),
            final(self)@ == old(self)@.after_remove(key@),
    {
        proof {
            lemma_remove_keeps_valid(self@, key@);
        }
        let removed_frequent = live_remove(&mut self.frequent_set, key);
        let removed_recent = live_remove(&mut self.recent_set, key);
        ghost_remove(&mut self.frequent_evicted, key);
        ghost_remove(&mut self.recent_evicted, key);
        let found = match removed_frequent {
            Some(value) => Some(value),
            None => removed_recent,
        };
        match found {
            Some(value) => {
                self.removed = self.removed + 1;
                Some(value)
            },
            None => None,
        }
    }

    /// Empties all four lists; `p` and the counters stay.
    pub fn clear(&mut self)
        requires
            old(self).wf(),
        ensures
            final(self).wf(),
            final(self)@ == old(self)@.cleared(),
    {
        live_clear(&mut self.recent_set);
        ghost_clear(&mut self.recent_evicted);
        live_clear(&mut self.frequent_set);
        ghost_clear(&mut self.frequent_evicted);
    }

    /// The number of live items, or `usize::MAX` where that number does not
    /// fit in a `usize`.
    pub fn len(&self) -> (r: usize)
        ensures
            r == if self@.live_len() <= usize::MAX { self@.live_len() } else { usize::MAX as nat },
    {
        let recent_len = live_len(&self.recent_set);
        let frequent_len = live_len(&self.frequent_set);
        if recent_len > usize::MAX - frequent_len {
            usize::MAX
        } else {
            recent_len + frequent_len
        }
    }

    /// Whether no item is live.
    pub fn is_empty(&self) -> (r: bool)
        ensures
            r == (self@.live_len() == 0),
    {
        live_len(&self.recent_set) == 0 && live_len(&self.frequent_set) == 0
    }

    /// The number of items in `frequent`.
    pub fn frequent_len(&self) -> (r: usize)
        ensures
            r == self@.frequent.len(),
    {
        live_len(&self.frequent_set)
    }

    /// The number of items in `recent`.
    pub fn recent_len(&self) -> (r: usize)
        ensures
            r == self@.recent.len(),
    {
        live_len(&self.recent_set)
    }

    /// How many cold misses were inserted.
    pub fn inserted(&self) -> (r: u64)
        ensures
            r == self@.inserted,
    {
        self.inserted
    }

    /// How many keys were dropped from a history list to keep it short.
    pub fn evicted(&self) -> (r: u64)
        ensures
            r == self@.evicted,
    {
        self.evicted
    }

    /// How many live items `remove` took out.
    pub fn removed(&self) -> (r: u64)
        ensures
            r == self@.removed,
    {
        self.removed
    }

    /// The live items: those of `frequent`, then those of `recent`; each
    /// list least recently used first.
    pub fn into_iter(&self) -> (r: ArcCacheIterator)
        ensures
            r.wf(),
            r@ == self@.items(),
    {
        let mut items = live_items(&self.frequent_set);
        let mut rest = live_items(&self.recent_set);
        items.append(&mut rest);
        let r = ArcCacheIterator { items, pos: 0 };
        proof {
            assert(r@ =~= self@.items());
        }
        r
    }
}

/// A pass over the live items of a cache.
pub struct ArcCacheIterator {
    items: Vec<(String, String)>,
    pos: usize,
}

impl View for ArcCacheIterator {
    type V = Seq<(Seq<char>, Seq<char>)>;

    /// The items not yet handed out.
    closed spec fn view(&self) -> Seq<(Seq<char>, Seq<char>)> {
        Seq::new(
            (self.items@.len() - self.pos) as nat,
            |i: int| (self.items@[self.pos + i].0@, self.items@[self.pos + i].1@),
        )
    }
}

impl ArcCacheIterator {
    /// The position lies within the items.
    pub closed spec fn wf(&self) -> bool {
        self.pos <= self.items@.len()
    }

    /// Hands out the next item, or `None` when none is left.
    pub fn next(&mut self) -> (r: Option<(String, String)>)
        requires
            old(self).wf(),
        ensures
            final(self).wf(),
            old(self)@.len() == 0 ==> r.is_none() && final(self)@ == old(self)@,
            old(self)@.len() > 0 ==> r.is_some() && r.unwrap().0@ == old(self)@[0].0 && r.unwrap().1@
                == old(self)@[0].1 && final(self)@ == old(self)@.drop_first(),
    {
        if self.pos >= self.items.len() {
            return None;
        }
        let key = self.items[self.pos].0.clone();
        let value = self.items[self.pos].1.clone();
        self.pos = self.pos + 1;
        proof {
            assert(self@ =~= old(self)@.drop_first());
        }
        Some((key, value))
    }
}

/// Setting the value of a live key in place keeps the invariant.
proof fn lemma_with_value_keeps_valid(s: ArcState, k: Seq<char>)
    requires
        s.valid(),
    ensures
        forall|v: Seq<char>| #[trigger] s.with_live_value(k, v).valid(),
{
    assert forall|v: Seq<char>| #[trigger] s.with_live_value(k, v).valid() by {
        lemma_with_value(s.frequent, k, v);
        lemma_with_value(s.recent, k, v);
    }
}

/// `get_mut` keeps the invariant, whatever value the caller leaves.
proof fn lemma_get_keeps_valid(s: ArcState, k: Seq<char>)
    requires
        s.valid(),
    ensures
        s.promoted(k).valid(),
        s.promoted(k).is_live(k) == s.is_live(k),
        s.is_live(k) ==> has_key(s.promoted(k).frequent, k),
        s.is_live(k) ==> lookup(s.promoted(k).frequent, k) == s.value_of(k),
        forall|v: Seq<char>| s.is_live(k) ==> #[trigger] s.after_get(k, v).valid(),
{
    let t = s.promoted(k);
    if has_key(s.recent, k) {
        lemma_without(s.recent, k);
        lemma_without(s.frequent, k);
        lemma_put(s.frequent, k, lookup(s.recent, k).unwrap(), list_bound());
        assert(t.valid());
    }
    if s.is_live(k) {
        lemma_without(t.frequent, k);
        assert forall|v: Seq<char>| s.is_live(k) implies #[trigger] s.after_get(k, v).valid() by {
            lemma_push(without(t.frequent, k), k, v);
        }
        lemma_key_pos(t.frequent, k);
    }
}

/// `remove` keeps the invariant.
pub(crate) proof fn lemma_remove_keeps_valid(s: ArcState, k: Seq<char>)
    requires
        s.valid(),
    ensures
        s.after_remove(k).valid(),
{
    lemma_without(s.recent, k);
    lemma_without(s.frequent, k);
    lemma_without(s.recent_ghost, k);
    lemma_without(s.frequent_ghost, k);
}

/// A well-formed cache has `p` within its capacity, and each key in at most
/// one of its four lists. Every operation keeps a cache well formed.
pub proof fn lemma_cache_invariant(c: &ArcCache)
    requires
        c.wf(),
    ensures
        c@.valid(),
        c@.p <= c@.capacity,
        forall|k: Seq<char>| #[trigger] c@.holders(k) <= 1,
{
}

} // verus!
