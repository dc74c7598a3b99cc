//! Tests of the freshness oracle, the monotonic cache slot and the cache
//! path layout.

use trellis::cache::{cache_is_fresh, cache_path, max_mtime, FreshSlot};

#[test]
fn freshness_boundaries() {
    // Fresh iff cache >= source and cache >= every auxiliary stamp.
    assert!(cache_is_fresh(100, 100, &vec![50, 99, 100]));
    assert!(cache_is_fresh(100, 150, &vec![150]));
    // One aux stamp above the cache flips it.
    assert!(!cache_is_fresh(100, 150, &vec![151]));
    // Cache one tick below the source flips it.
    assert!(!cache_is_fresh(100, 99, &vec![]));
    // No aux stamps: only the source matters.
    assert!(cache_is_fresh(100, 100, &vec![]));
}

#[test]
fn max_of_stamps() {
    assert_eq!(max_mtime(&vec![]), 0);
    assert_eq!(max_mtime(&vec![3, 9, 5]), 9);
}

#[test]
fn cache_path_layout() {
    assert_eq!(cache_path("/site/.build", "posts/hello"), "/site/.build/posts/hello.html");
    assert_eq!(cache_path("cache", "index"), "cache/index.html");
}

#[test]
fn store_monotonic_in_either_order() {
    // Two recomputations, stamps 10 < 20, completing in either order, leave
    // the slot holding the fresher value.
    let mut a: FreshSlot<String> = FreshSlot::new("base".to_string(), 5);
    a.store_if_fresher(10, "first".to_string());
    a.store_if_fresher(20, "second".to_string());
    assert_eq!(a.stamp, 20);
    assert_eq!(a.value, "second");

    let mut b: FreshSlot<String> = FreshSlot::new("base".to_string(), 5);
    b.store_if_fresher(20, "second".to_string());
    b.store_if_fresher(10, "first".to_string());
    assert_eq!(b.stamp, 20);
    assert_eq!(b.value, "second");
}

#[test]
fn stale_write_never_clobbers() {
    let mut s: FreshSlot<String> = FreshSlot::new("fresh".to_string(), 100);
    s.store_if_fresher(40, "stale".to_string());
    assert_eq!(s.stamp, 100);
    assert_eq!(s.value, "fresh");
}

#[test]
fn equal_stamp_replaces() {
    let mut s: FreshSlot<String> = FreshSlot::new("old".to_string(), 7);
    s.store_if_fresher(7, "new".to_string());
    assert_eq!(s.value, "new");
}

#[test]
fn read_fresh_respects_stamp() {
    let s: FreshSlot<String> = FreshSlot::new("css".to_string(), 10);
    assert_eq!(s.read_fresh(10), Some(&"css".to_string()));
    assert!(s.read_fresh(11).is_none());
}
