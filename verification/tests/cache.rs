use dsh_desktop::cache::MemoCache;
use std::sync::Arc;

#[test]
fn hit_on_key_and_hash() {
    let mut c = MemoCache::new(2, 2);
    assert!(c.get("a", 1).is_none());
    c.put("a", 1, Arc::new("x"), 3);
    assert_eq!(*c.get("a", 1).unwrap(), "x");
    assert!(c.get("a", 2).is_none());
}

#[test]
fn clear_on_cap() {
    let mut c = MemoCache::new(2, 2);
    c.put("a", 1, Arc::new("x"), 3);
    c.put("b", 1, Arc::new("y"), 3);
    c.put("c", 1, Arc::new("z"), 3);
    assert!(c.get("a", 1).is_none());
    assert_eq!(*c.get("c", 1).unwrap(), "z");
}

#[test]
fn short_content_not_cached() {
    let mut c = MemoCache::new(2, 2);
    c.put("s", 1, Arc::new("s"), 1);
    assert!(c.get("s", 1).is_none());
}

#[test]
fn a_second_value_replaces_the_first() {
    let mut c = MemoCache::new(2, 2);
    c.put("a", 1, Arc::new("x"), 3);
    c.put("a", 2, Arc::new("y"), 3);
    assert!(c.get("a", 1).is_none());
    assert_eq!(*c.get("a", 2).unwrap(), "y");
}
