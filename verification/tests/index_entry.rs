use std::time::Instant;

use chilled_crates::cache::{CrateInfo, IndexEntry};
use chilled_crates::time::{Duration, Timestamp};

#[test]
fn test_from_url() {
    assert_eq!(IndexEntry::try_from_index_url(""), None);
    assert_eq!(IndexEntry::try_from_index_url("abc"), None);
    assert_eq!(IndexEntry::try_from_index_url("a/bc"), None);
    assert_eq!(IndexEntry::try_from_index_url("a/b/c/d"), None);

    assert_eq!(
        IndexEntry::try_from_index_url("1/a"),
        Some(IndexEntry::new("a"))
    );
    assert_eq!(
        IndexEntry::try_from_index_url("2/ab"),
        Some(IndexEntry::new("ab"))
    );
    assert_eq!(
        IndexEntry::try_from_index_url("3/a/abc"),
        Some(IndexEntry::new("abc"))
    );
    assert_eq!(
        IndexEntry::try_from_index_url("ab/cd/abcd"),
        Some(IndexEntry::new("abcd"))
    );
}

#[test]
fn test_to_url() {
    assert_eq!(IndexEntry::new("").to_index_url(), "");
    assert_eq!(IndexEntry::new("a").to_index_url(), "1/a");
    assert_eq!(IndexEntry::new("ab").to_index_url(), "2/ab");
    assert_eq!(IndexEntry::new("abc").to_index_url(), "3/a/abc");
    assert_eq!(IndexEntry::new("abcd").to_index_url(), "ab/cd/abcd");
}

#[test]
fn index_urls_round_trip() {
    for name in ["a", "ab", "abc", "abcd", "serde_json", "x11-dl", "12", "1", "2"] {
        let entry = IndexEntry::new(name);
        let url = entry.to_index_url();
        assert_eq!(IndexEntry::try_from_index_url(&url), Some(IndexEntry::new(name)));
        assert_eq!(entry.to_file_path(), url);
    }
}

#[test]
fn index_urls_of_multibyte_names() {
    // The directories are cut by bytes.
    assert_eq!(IndexEntry::new("é").to_index_url(), "2/é");
    assert_eq!(IndexEntry::new("aé").to_index_url(), "3/a/aé");
    assert_eq!(IndexEntry::new("éé").to_index_url(), "é/é/éé");
}

#[test]
fn crafted_index_paths_are_rejected() {
    for path in ["1/a/b", "1", "2/..", "ab/cd/..", "ab/cd/http:", "ab/cd/", "/a/b", "a/b/c.d"] {
        let entry = IndexEntry::try_from_index_url(path);
        if path == "/a/b" {
            // The first segments are not looked at.
            assert_eq!(entry, Some(IndexEntry::new("b")));
        } else {
            assert_eq!(entry, None, "{path}");
        }
    }
}

#[test]
fn equivalent_matches_on_etag() {
    let mut a = IndexEntry::new("serde");
    let mut b = IndexEntry::new("serde");
    a.set_etag("\"x\"");
    b.set_etag("\"x\"");
    assert!(a.is_equivalent(&b));
    b.set_etag("\"y\"");
    assert!(!a.is_equivalent(&b));
}

#[test]
fn equivalent_matches_on_last_modified_when_no_etag() {
    let when = "Sun, 06 Nov 1994 08:49:37 GMT";
    let mut a = IndexEntry::new("serde");
    let mut b = IndexEntry::new("serde");
    a.set_last_modified(when);
    b.set_last_modified(when);
    assert!(a.is_equivalent(&b));
    b.set_last_modified("Mon, 07 Nov 1994 08:49:37 GMT");
    assert!(!a.is_equivalent(&b));
}

#[test]
fn equivalent_false_when_no_metadata() {
    // Two bare entries carry no validators, so equivalence cannot be proven.
    let a = IndexEntry::new("serde");
    let b = IndexEntry::new("serde");
    assert!(!a.is_equivalent(&b));
}

#[test]
fn expiry_tracks_atime_and_ttl() {
    // No access time recorded yet -> never considered expired.
    let mut entry = IndexEntry::new("serde");
    assert!(!entry.is_expired_with_ttl(&Duration::from_secs(3600)));

    entry.set_last_updated();
    // A generous TTL is not yet expired; a zero TTL is, once any time passes.
    assert!(!entry.is_expired_with_ttl(&Duration::from_secs(3600)));
    let start = Instant::now();
    while start.elapsed() < std::time::Duration::from_millis(2) {}
    assert!(entry.is_expired_with_ttl(&Duration::from_secs(0)));
}

#[test]
fn update_times_are_renewed() {
    let mut entry = IndexEntry::new("serde");
    assert_eq!(entry.since_update(), Duration::from_secs(0));
    let early = Instant::now();
    let Some(earlier) = early.checked_sub(std::time::Duration::from_secs(50)) else {
        return;
    };
    entry.set_last_updated_at(earlier);
    assert!(entry.since_update() >= Duration::from_secs(50));
    assert!(entry.is_expired_with_ttl(&Duration::from_secs(40)));
    // A second check renews the time.
    entry.set_last_updated();
    assert!(entry.since_update() < Duration::from_secs(40));
    assert!(!entry.is_expired_with_ttl(&Duration::from_secs(40)));
}

#[test]
fn expiry_is_strict() {
    let ttl = Duration::new(5, 1).unwrap();
    let mut entry = IndexEntry::new("serde");
    assert!(!entry.is_expired_after(&Duration::from_secs(9), &ttl));
    entry.set_last_updated();
    assert!(!entry.is_expired_after(&Duration::from_secs(5), &ttl));
    assert!(!entry.is_expired_after(&ttl, &ttl));
    assert!(entry.is_expired_after(&Duration::new(5, 2).unwrap(), &ttl));
    assert!(entry.is_expired_after(&Duration::from_secs(6), &ttl));
}

#[test]
fn metadata_accessors() {
    let mut entry = IndexEntry::new("serde");
    assert_eq!(entry.name(), "serde");
    assert_eq!(entry.etag(), None);
    assert_eq!(entry.mtime(), None);
    assert_eq!(entry.last_modified(), None);
    entry.set_etag("\"abc\"");
    assert_eq!(entry.etag(), Some("\"abc\""));
    let time = Timestamp::new(784_111_777, 5).unwrap();
    entry.set_mtime(time);
    assert_eq!(entry.mtime(), Some(time));
    assert_eq!(
        entry.last_modified().as_deref(),
        Some("Sun, 06 Nov 1994 08:49:37 GMT")
    );
    let copy = entry.clone();
    assert_eq!(copy, entry);
    // The nanoseconds do not show in an HTTP date.
    entry.set_last_modified("Sun, 06 Nov 1994 08:49:37 GMT");
    assert_eq!(entry.mtime(), Timestamp::new(784_111_777, 0));
    assert!(copy.is_equivalent(&entry));
    entry.set_last_modified("yesterday");
    assert_eq!(entry.mtime(), None);
}

#[test]
fn download_urls() {
    let info = CrateInfo::try_from_download_url("serde/1.0.0/download").unwrap();
    assert_eq!(info.name(), "serde");
    assert_eq!(info.version(), "1.0.0");
    assert_eq!(info, CrateInfo::new("serde", "1.0.0"));
    assert_eq!(info.to_download_url(), "serde/1.0.0/download");
    assert_eq!(info.to_file_path(), "serde/serde-1.0.0.crate");
    assert_eq!(info.clone(), info);
    for path in [
        "",
        "serde",
        "serde/1.0.0",
        "serde/1.0.0/",
        "serde/1.0.0/Download",
        "serde/1.0.0/download/",
        "serde/1.0.0/download/x",
        "../1.0.0/download",
        "serde//download",
        "serde/127.0.0.1:9999/download",
        "serde/./download",
        "serde/../download",
    ] {
        assert_eq!(CrateInfo::try_from_download_url(path), None, "{path}");
    }
}
