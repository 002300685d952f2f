use aer::fingerprint::cache_aside;
use aer::fingerprint::fingerprint;
use aer::fingerprint::fingerprint_decision;
use aer::fingerprint::fingerprint_of_content;
use aer::fingerprint::MemoryStore;

#[test]
fn test_fingerprint_decision_hit_miss_and_unreadable() {
    // A hit keeps the cached value and writes nothing back.
    let (v, wb) = fingerprint_decision(Some("cached".to_string()), Some(b"bytes"));
    assert_eq!(v, "cached");
    assert_eq!(wb, None);
    // A miss with readable content hashes it and writes the digest back.
    let (v, wb) = fingerprint_decision(None, Some(b"bytes"));
    assert_eq!(v, fingerprint_of_content(b"bytes"));
    assert_eq!(wb, Some(v.clone()));
    // A miss with unreadable content is marked empty and stores nothing.
    let (v, wb) = fingerprint_decision(None, None);
    assert_eq!(v, "");
    assert_eq!(wb, None);
}

#[test]
fn test_fingerprint_of_content_is_a_decimal_digest() {
    let a = fingerprint_of_content(b"hello world");
    assert!(!a.is_empty());
    assert!(a.chars().all(|c| c.is_ascii_digit()));
    assert_eq!(a, fingerprint_of_content(b"hello world"));
}

#[test]
fn test_first_lookup_misses_and_populates_the_store() {
    let mut store = MemoryStore::new();
    assert_eq!(store.get("a.jpg"), None);
    let v1 = fingerprint("root/a.jpg", "root", b"content", &mut store);
    assert_eq!(v1, fingerprint_of_content(b"content"));
    // The store now holds the digest under the root-relative key.
    assert_eq!(store.get("a.jpg"), Some(v1));
}

#[test]
fn test_repeated_lookup_returns_cached_value_without_reading() {
    let mut store = MemoryStore::new();
    let v1 = fingerprint("root/a.jpg", "root", b"content", &mut store);
    // The second lookup is served from the store: the content handed in is
    // different, and the answer is still the cached digest.
    let v2 = fingerprint("root/a.jpg", "root", b"edited in place", &mut store);
    assert_eq!(v2, v1);
    assert_ne!(v2, fingerprint_of_content(b"edited in place"));
}

#[test]
fn test_cache_aside_distinguishes_keys() {
    let mut store = MemoryStore::new();
    let va = cache_aside("a", b"same content", &mut store);
    let vb = cache_aside("b", b"same content", &mut store);
    // Same content, distinct keys: both digests equal, both cached.
    assert_eq!(va, vb);
    assert_eq!(store.get("a"), Some(va));
    assert_eq!(store.get("b"), Some(vb));
}

#[test]
fn test_set_overwrites_earlier_value() {
    let mut store = MemoryStore::new();
    store.set("k", "one");
    store.set("k", "two");
    assert_eq!(store.get("k"), Some("two".to_string()));
}
