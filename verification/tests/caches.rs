use bytes::Bytes;

use chilled_crates::cache::{FilteredMemo, IndexEntry, MetadataCache, MEMO_BUCKET_SECS};

#[test]
fn memo_memo_respects_validator_and_bucket() {
    let mut memo = FilteredMemo::new();
    memo.put("a".into(), "etag1".into(), 10, Bytes::from_static(b"x"));
    assert_eq!(memo.get("a", "etag1", 10), Some(Bytes::from_static(b"x")));
    // Different source content -> miss.
    assert_eq!(memo.get("a", "etag2", 10), None);
    // Different cutoff bucket -> miss.
    assert_eq!(memo.get("a", "etag1", 11), None);
    // Unknown crate -> miss.
    assert_eq!(memo.get("b", "etag1", 10), None);
}

#[test]
fn main_memo_respects_validator_and_bucket() {
    let mut memo = FilteredMemo::new();
    memo.put("a".into(), "etag1".into(), 10, Bytes::from_static(b"x"));
    assert_eq!(memo.get("a", "etag1", 10), Some(Bytes::from_static(b"x")));
    // Different source content -> miss.
    assert_eq!(memo.get("a", "etag2", 10), None);
    // Different cutoff bucket -> miss.
    assert_eq!(memo.get("a", "etag1", 11), None);
    // Unknown crate -> miss.
    assert_eq!(memo.get("b", "etag1", 10), None);
}

#[test]
fn memo_keeps_one_entry_per_crate() {
    let mut memo = FilteredMemo::new();
    memo.put("a".into(), "etag1".into(), 10, Bytes::from_static(b"x"));
    memo.put("a".into(), "etag2".into(), 11, Bytes::from_static(b"y"));
    assert_eq!(memo.get("a", "etag1", 10), None);
    assert_eq!(memo.get("a", "etag2", 11), Some(Bytes::from_static(b"y")));
    assert_eq!(MEMO_BUCKET_SECS, 3600);
}

#[test]
fn memo_is_cleared_at_capacity() {
    let mut memo = FilteredMemo::new();
    for i in 0..8192 {
        memo.put(format!("c{i}"), "v".into(), 1, Bytes::from_static(b"x"));
    }
    assert!(memo.get("c0", "v", 1).is_some());
    // A known crate replaces its own entry.
    memo.put("c0".into(), "w".into(), 1, Bytes::from_static(b"z"));
    assert_eq!(memo.get("c0", "w", 1), Some(Bytes::from_static(b"z")));
    assert!(memo.get("c1", "v", 1).is_some());
    // A new one clears the memo first.
    memo.put("new".into(), "v".into(), 1, Bytes::from_static(b"x"));
    assert!(memo.get("new", "v", 1).is_some());
    assert_eq!(memo.get("c0", "w", 1), None);
    assert_eq!(memo.get("c1", "v", 1), None);
}

#[test]
fn store_fetch_invalidate_round_trip() {
    let mut cache = MetadataCache::new();
    let mut entry = IndexEntry::new("serde");
    entry.set_etag("\"abc\"");

    assert_eq!(cache.fetch("serde"), None);
    cache.store(&entry);
    assert_eq!(cache.fetch("serde"), Some(entry.clone()));
    cache.invalidate(&entry);
    assert_eq!(cache.fetch("serde"), None);
}

#[test]
fn metadata_cache_is_cleared_at_capacity() {
    let mut cache = MetadataCache::new();
    for i in 0..8192 {
        cache.store(&IndexEntry::new(&format!("c{i}")));
    }
    let mut known = IndexEntry::new("c5");
    known.set_etag("\"new\"");
    cache.store(&known);
    assert_eq!(cache.fetch("c5"), Some(known));
    assert!(cache.fetch("c6").is_some());
    cache.store(&IndexEntry::new("other"));
    assert!(cache.fetch("other").is_some());
    assert_eq!(cache.fetch("c5"), None);
    assert_eq!(cache.fetch("c6"), None);
}
