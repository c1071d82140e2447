use arc_cache::ArcCache;
use std::collections::hash_map::RandomState;

fn s(text: &str) -> String {
    text.to_string()
}

fn pair(k: &str, v: &str) -> Option<(String, String)> {
    Some((s(k), s(v)))
}

#[test]
fn test_arc() {
    let mut arc = ArcCache::new(2).unwrap();
    arc.insert(s("testkey"), s("testvalue"));
    assert!(arc.contains_key(&s("testkey")));
    arc.insert(s("testkey2"), s("testvalue2"));
    assert!(arc.contains_key(&s("testkey2")));
    arc.insert(s("testkey3"), s("testvalue3"));
    assert!(arc.contains_key(&s("testkey3")));
    assert!(arc.contains_key(&s("testkey2")));
    assert!(!arc.contains_key(&s("testkey")));
    arc.insert(s("testkey"), s("testvalue"));
    assert!(arc.get_mut(&s("testkey")).is_some());
    assert!(arc.get_mut(&s("testkey-nx")).is_none());

    let mut it = arc.into_iter();
    assert_eq!(it.next(), pair("testkey", "testvalue"));
    assert_eq!(it.next(), pair("testkey3", "testvalue3"));
    assert_eq!(it.next(), None);
}

#[test]
fn test_custom_hasher() {
    let mut arc = ArcCache::with_hasher(2, RandomState::new()).unwrap();
    arc.insert(s("1"), s("testvalue"));
    assert!(arc.contains_key(&s("1")));
    arc.insert(s("2"), s("testvalue2"));
    assert!(arc.contains_key(&s("2")));
    arc.insert(s("3"), s("testvalue3"));
    assert!(arc.contains_key(&s("3")));
    assert!(arc.contains_key(&s("2")));
    assert!(!arc.contains_key(&s("1")));
    arc.insert(s("1"), s("testvalue"));
    assert!(arc.get_mut(&s("1")).is_some());
    assert!(arc.get_mut(&s("666")).is_none());

    let mut it = arc.into_iter();
    assert_eq!(it.next(), pair("1", "testvalue"));
    assert_eq!(it.next(), pair("3", "testvalue3"));
    assert_eq!(it.next(), None);
}

#[test]
fn zero_capacity_is_refused() {
    assert!(ArcCache::new(0).is_err());
    assert!(ArcCache::with_hasher(0, RandomState::new()).is_err());
    let arc = ArcCache::new(1).unwrap();
    assert!(arc.is_empty());
    assert_eq!(arc.len(), 0);
    assert_eq!(arc.inserted(), 0);
    assert_eq!(arc.evicted(), 0);
    assert_eq!(arc.removed(), 0);
}

#[test]
fn cold_miss_evicts_least_recent() {
    let mut arc = ArcCache::new(2).unwrap();
    assert!(!arc.insert(s("A"), s("a")));
    assert!(!arc.insert(s("B"), s("b")));
    assert!(!arc.insert(s("C"), s("c")));
    assert!(arc.contains_key(&s("C")));
    assert!(arc.contains_key(&s("B")));
    assert!(!arc.contains_key(&s("A")));
    assert_eq!(arc.len(), 2);
    assert_eq!(arc.recent_len(), 2);
    assert_eq!(arc.inserted(), 3);
}

#[test]
fn ghost_hit_promotes_to_frequent() {
    let mut arc = ArcCache::new(2).unwrap();
    arc.insert(s("A"), s("a"));
    arc.insert(s("B"), s("b"));
    arc.insert(s("C"), s("c"));
    // A now lives only in the history of `recent`.
    assert!(arc.insert(s("A"), s("a2")));
    assert_eq!(arc.frequent_len(), 1);
    assert_eq!(arc.get_mut(&s("A")).map(|v| v.clone()), Some(s("a2")));
    assert!(arc.get_mut(&s("never")).is_none());
    assert_eq!(arc.inserted(), 3);
}

#[test]
fn remove_then_insert_is_cold() {
    let mut arc = ArcCache::new(2).unwrap();
    arc.insert(s("A"), s("a"));
    arc.insert(s("B"), s("b"));
    arc.insert(s("C"), s("c"));
    // A is in history; removing it forgets that history.
    assert_eq!(arc.remove(&s("A")), None);
    assert_eq!(arc.removed(), 0);
    assert!(!arc.insert(s("A"), s("a")));
    assert_eq!(arc.recent_len(), 2);
    assert_eq!(arc.frequent_len(), 0);
    assert_eq!(arc.inserted(), 4);
}

#[test]
fn remove_returns_live_value() {
    let mut arc = ArcCache::new(3).unwrap();
    arc.insert(s("A"), s("a"));
    arc.insert(s("B"), s("b"));
    arc.insert(s("B"), s("b2"));
    assert_eq!(arc.remove(&s("B")), Some(s("b2")));
    assert_eq!(arc.remove(&s("A")), Some(s("a")));
    assert_eq!(arc.removed(), 2);
    assert_eq!(arc.remove(&s("A")), None);
    assert_eq!(arc.removed(), 2);
    assert!(arc.is_empty());
}

#[test]
fn overwrite_of_frequent_key() {
    let mut arc = ArcCache::new(3).unwrap();
    arc.insert(s("A"), s("a"));
    arc.insert(s("A"), s("a2"));
    arc.insert(s("B"), s("b"));
    assert_eq!(arc.frequent_len(), 1);
    assert_eq!(arc.len(), 2);
    assert!(arc.insert(s("A"), s("a3")));
    assert_eq!(arc.len(), 2);
    assert_eq!(arc.frequent_len(), 1);
    assert_eq!(arc.peek_mut(&s("A")).map(|v| v.clone()), Some(s("a3")));
}

#[test]
fn peek_mut_changes_value_in_place() {
    let mut arc = ArcCache::new(3).unwrap();
    arc.insert(s("A"), s("a"));
    arc.insert(s("B"), s("b"));
    if let Some(v) = arc.peek_mut(&s("A")) {
        *v = s("changed");
    }
    assert_eq!(arc.recent_len(), 2);
    let mut it = arc.into_iter();
    assert_eq!(it.next(), pair("A", "changed"));
    assert_eq!(it.next(), pair("B", "b"));
    assert_eq!(it.next(), None);
    assert!(arc.peek_mut(&s("C")).is_none());
}

#[test]
fn iteration_puts_frequent_first() {
    let mut arc = ArcCache::new(2).unwrap();
    arc.insert(s("A"), s("a"));
    arc.insert(s("B"), s("b"));
    assert!(arc.get_mut(&s("B")).is_some());
    let mut it = arc.into_iter();
    assert_eq!(it.next(), pair("B", "b"));
    assert_eq!(it.next(), pair("A", "a"));
    assert_eq!(it.next(), None);
    assert_eq!(it.next(), None);
}

#[test]
fn history_trim_counts_evictions() {
    let mut arc = ArcCache::new(2).unwrap();
    for k in ["A", "B", "C", "A", "D"] {
        arc.insert(s(k), s(k));
    }
    assert_eq!(arc.evicted(), 0);
    arc.insert(s("E"), s("E"));
    assert_eq!(arc.evicted(), 1);
    assert_eq!(arc.inserted(), 5);
}

#[test]
fn counters_survive_clear() {
    let mut arc = ArcCache::new(2).unwrap();
    for k in ["A", "B", "C", "A", "D", "E"] {
        arc.insert(s(k), s(k));
    }
    assert_eq!(arc.remove(&s("E")), Some(s("E")));
    let before = (arc.inserted(), arc.evicted(), arc.removed());
    arc.clear();
    assert!(arc.is_empty());
    assert_eq!((arc.inserted(), arc.evicted(), arc.removed()), before);
    assert!(!arc.insert(s("A"), s("A")));
    assert!(arc.inserted() > before.0);
}

#[test]
fn returning_history_key_can_overfill_once() {
    let mut arc = ArcCache::new(2).unwrap();
    for k in ["A", "B", "C", "A", "D"] {
        arc.insert(s(k), s(k));
    }
    // B sits in the history of `recent`; its return raises `p` to the
    // capacity while `recent` is full and `frequent` empty.
    assert!(arc.insert(s("B"), s("B")));
    assert_eq!(arc.recent_len(), 2);
    assert_eq!(arc.frequent_len(), 1);
    assert_eq!(arc.len(), 3);
    // The next cold insert evicts from `frequent` and still adds one item.
    assert!(!arc.insert(s("F"), s("F")));
    assert_eq!(arc.frequent_len(), 0);
    assert_eq!(arc.recent_len(), 3);
}

#[test]
fn promotion_keeps_every_live_item() {
    let mut arc = ArcCache::new(2).unwrap();
    for k in ["A", "B", "C", "A", "D", "B"] {
        arc.insert(s(k), s(k));
    }
    assert_eq!(arc.len(), 3);
    assert!(arc.get_mut(&s("C")).is_some());
    assert!(arc.get_mut(&s("D")).is_some());
    assert_eq!(arc.len(), 3);
    assert_eq!(arc.frequent_len(), 3);
    assert_eq!(arc.peek_mut(&s("B")).map(|v| v.clone()), Some(s("B")));
}

#[test]
fn history_trim_is_counted() {
    let mut arc = ArcCache::new(2).unwrap();
    for k in ["1", "2", "3", "4"] {
        arc.insert(s(k), s(k));
    }
    assert_eq!(arc.evicted(), 0);
    arc.insert(s("5"), s("5"));
    assert_eq!(arc.evicted(), 1);
    // Key 1 left the history for good: it comes back as a cold miss.
    assert!(!arc.insert(s("1"), s("1")));
}

#[test]
fn contains_key_keeps_recency_order() {
    let mut arc = ArcCache::new(2).unwrap();
    arc.insert(s("A"), s("a"));
    arc.insert(s("B"), s("b"));
    assert!(arc.contains_key(&s("A")));
    arc.insert(s("C"), s("c"));
    assert!(!arc.contains_key(&s("A")));
    assert!(arc.contains_key(&s("B")));
    let mut it = arc.into_iter();
    assert_eq!(it.next(), pair("B", "b"));
    assert_eq!(it.next(), pair("C", "c"));
    assert_eq!(it.next(), None);
}
