use std::time::Instant;

use chilled_crates::address::WebUrl;
use chilled_crates::cache::{FilteredMemo, IndexEntry, MetadataCache};
use chilled_crates::config::{parse_overrides, Config};
use chilled_crates::http::{Body, FetchError, Response};
use chilled_crates::routes::index::{
    entry_validator, gen_config_json_file, index_not_modified, index_request, is_config_json_url,
    proxy_config_json, serve_window, IndexRequest,
};
use chilled_crates::routes::index_steps::{
    fetch_failed, fetched, fetched_at, filter_done, find_done, handle_entry_at, handle_index,
    lookup_at, lookup_elapsed, read_done, serve, serve_at, serve_at_time, write_done,
    write_done_at, write_done_at_time, IndexFetch, IndexServe, IndexStep, ReadPurpose, ServeStep,
    UpstreamReply,
};
use chilled_crates::time::{Duration, Timestamp};

const OLD: &str = "{\"vers\":\"1\",\"pubtime\":\"1970-01-01T00:00:10Z\"}\n";
const NEW: &str = "{\"vers\":\"2\",\"pubtime\":\"2999-01-01T00:00:00Z\"}\n";
const DATE: &str = "Sun, 06 Nov 1994 08:49:37 GMT";

fn config(cooldown: u64, overrides: &str) -> Config {
    Config::new(
        WebUrl::parse("https://index.crates.io/").unwrap(),
        WebUrl::parse("https://crates.io/").unwrap(),
        WebUrl::parse("http://proxy.test/").unwrap(),
        "/cache",
        Duration::from_secs(3600),
        Duration::from_secs(cooldown),
        parse_overrides(overrides),
        false,
    )
}

fn body(data: &[&str]) -> Vec<u8> {
    data.concat().into_bytes()
}

fn response_body(r: &Response) -> Vec<u8> {
    match &r.body {
        Body::Empty => Vec::new(),
        Body::Text(s) => s.as_bytes().to_vec(),
        Body::Data(d) => d.to_vec(),
    }
}

fn respond(step: IndexStep) -> Response {
    match step {
        IndexStep::Respond(r) => r,
        _ => panic!("expected a response"),
    }
}

fn fetch(step: IndexStep) -> IndexFetch {
    match step {
        IndexStep::Fetch(f) => f,
        _ => panic!("expected a fetch"),
    }
}

fn serve_job(step: IndexStep) -> IndexServe {
    match step {
        IndexStep::Serve(job) => job,
        _ => panic!("expected something to serve"),
    }
}

fn reply(status: u16, etag: &str, data: Vec<u8>) -> UpstreamReply {
    UpstreamReply {
        status,
        etag: Some(etag.to_string()),
        last_modified: Some(DATE.to_string()),
        data,
    }
}

/// Serves an entry to the end.
fn serve_all(config: &Config, memo: &mut FilteredMemo, job: IndexServe) -> Response {
    match serve(config, memo, job) {
        ServeStep::Respond(r) => r,
        ServeStep::Filter(job, ticket) => {
            let filtered = job.run();
            filter_done(config, memo, ticket, Some(filtered))
        }
    }
}

#[test]
fn config_json_points_downloads_at_proxy() {
    assert!(is_config_json_url("config.json"));
    assert!(!is_config_json_url("/config.json"));
    assert!(!is_config_json_url("config.jso"));
    let c = config(0, "");
    // `dl` is rewritten to this proxy; `api` is the upstream, both trimmed.
    assert_eq!(
        gen_config_json_file(&c).unwrap(),
        r#"{"dl":"http://proxy.test/api/v1/crates","api":"https://crates.io"}"#
    );
    let step = handle_index(&c, &MetadataCache::new(), "config.json", None, None);
    assert!(matches!(step, IndexStep::ConfigJson));
    let url = || WebUrl::parse("http://x/").unwrap();
    let bad = Config::new(
        url(),
        url(),
        WebUrl::parse("mailto:a@b").unwrap(),
        "",
        Duration::from_secs(1),
        Duration::from_secs(1),
        parse_overrides(""),
        false,
    );
    assert_eq!(gen_config_json_file(&bad), None);
}

#[test]
fn config_json_keeps_the_path_of_the_proxy() {
    let url = |s: &str| WebUrl::parse(s).unwrap();
    for proxy in ["http://h/p/", "http://h/p"] {
        let c = Config::new(
            url("http://x/"),
            url("https://crates.io/mirror//"),
            url(proxy),
            "",
            Duration::from_secs(1),
            Duration::from_secs(1),
            parse_overrides(""),
            false,
        );
        assert_eq!(
            gen_config_json_file(&c).unwrap(),
            r#"{"dl":"http://h/p/api/v1/crates","api":"https://crates.io/mirror"}"#
        );
    }
    assert_eq!(
        proxy_config_json("http://h//", "http://u/"),
        r#"{"dl":"http://h/api/v1/crates","api":"http://u"}"#
    );
}

#[test]
fn malformed_paths_are_not_found() {
    let c = config(0, "");
    for path in ["", "serde", "a/b", "se/rd/..", "se/rd/x/y"] {
        let r = respond(handle_index(&c, &MetadataCache::new(), path, None, None));
        assert_eq!(r.status, 404);
        assert!(matches!(r.body, Body::Empty));
    }
}

#[test]
fn requests_are_read() {
    match index_request("se/rd/serde", Some("W/\"abc.cd60\""), Some(DATE)) {
        IndexRequest::Entry(entry, window) => {
            assert_eq!(entry.name(), "serde");
            assert_eq!(entry.etag(), Some("\"abc\""));
            // The entity tag wins over the date.
            assert_eq!(entry.mtime(), None);
            assert_eq!(window, Some(60));
        }
        _ => panic!("expected an entry"),
    }
    match index_request("se/rd/serde", None, Some(DATE)) {
        IndexRequest::Entry(entry, window) => {
            assert_eq!(entry.etag(), None);
            assert_eq!(entry.last_modified().as_deref(), Some(DATE));
            assert_eq!(window, None);
        }
        _ => panic!("expected an entry"),
    }
    assert!(matches!(index_request("config.json", None, None), IndexRequest::ConfigJson));
    assert!(matches!(index_request("x", None, None), IndexRequest::Malformed));
}

#[test]
fn validators() {
    let mut entry = IndexEntry::new("serde");
    assert_eq!(entry_validator(&entry), "");
    entry.set_last_modified(DATE);
    assert_eq!(entry_validator(&entry), DATE);
    let plain = index_not_modified(&entry, None);
    assert_eq!(plain.status, 304);
    assert_eq!(plain.last_modified.as_deref(), Some(DATE));
    assert_eq!(plain.etag, None);
    entry.set_etag("\"abc\"");
    assert_eq!(entry_validator(&entry), "\"abc\"");
    let filtered = index_not_modified(&entry, Some(60));
    assert_eq!(filtered.status, 304);
    assert_eq!(filtered.content_type, None);
    assert_eq!(filtered.etag.as_deref(), Some("W/\"abc.cd60\""));
    assert_eq!(filtered.last_modified, None);
    assert!(matches!(filtered.body, Body::Empty));
}

#[test]
fn windows() {
    assert_eq!(serve_window(&config(60, "exempt"), "serde"), Some(60));
    assert_eq!(serve_window(&config(60, "exempt"), "Exempt"), None);
    assert_eq!(serve_window(&config(0, ""), "serde"), None);
}

#[test]
fn cold_requests_fetch_from_upstream() {
    let c = config(60, "");
    let mut metadata = MetadataCache::new();
    let mut memo = FilteredMemo::new();
    // Nothing cached: look for the file, then ask the upstream.
    let query = match handle_index(&c, &metadata, "se/rd/serde", None, None) {
        IndexStep::FindFile(query) => query,
        _ => panic!("expected a search"),
    };
    assert_eq!(query.name(), "serde");
    assert_eq!(query.file_path(), "se/rd/serde");
    let f = fetch(find_done(query, None));
    assert_eq!(f.name(), "serde");
    let request = f.upstream(&c).unwrap();
    assert_eq!(request.url, "https://index.crates.io/se/rd/serde");
    assert_eq!(request.accept_encoding, Some("identity"));
    assert_eq!(request.if_none_match, None);
    assert_eq!(request.if_modified_since, None);
    // The new file is stored, remembered and served filtered.
    let write = match fetched(&c, &mut metadata, f, reply(200, "\"e1\"", body(&[OLD, NEW]))) {
        IndexStep::WriteFile(write) => write,
        _ => panic!("expected a file to store"),
    };
    assert_eq!(write.name(), "serde");
    assert_eq!(write.file_path(), "se/rd/serde");
    assert_eq!(write.data(), body(&[OLD, NEW]).as_slice());
    assert_eq!(write.mtime(), Timestamp::new(784_111_777, 0));
    assert_eq!(metadata.fetch("serde"), None);
    let job = serve_job(write_done(&c, &mut metadata, write));
    let remembered = metadata.fetch("serde").unwrap();
    assert_eq!(remembered.etag(), Some("\"e1\""));
    let r = serve_all(&c, &mut memo, job);
    assert_eq!(r.status, 200);
    assert_eq!(r.content_type, Some("text/plain"));
    assert_eq!(r.etag.as_deref(), Some("W/\"e1.cd60\""));
    assert_eq!(r.last_modified, None);
    assert_eq!(response_body(&r), body(&[OLD]));
}

#[test]
fn cached_files_give_conditional_requests() {
    let c = config(0, "");
    let metadata = MetadataCache::new();
    let query = match handle_index(&c, &metadata, "se/rd/serde", Some("\"x\""), None) {
        IndexStep::FindFile(query) => query,
        _ => panic!("expected a search"),
    };
    // With a file, its modification time takes the place of the client's tag.
    let f = fetch(find_done(query, Timestamp::new(784_111_777, 9)));
    let request = f.upstream(&c).unwrap();
    assert_eq!(request.if_none_match, None);
    assert_eq!(request.if_modified_since.as_deref(), Some(DATE));
    // Without one, the client's tag is asked for.
    let query = match handle_index(&c, &metadata, "se/rd/serde", Some("\"x\""), None) {
        IndexStep::FindFile(query) => query,
        _ => panic!("expected a search"),
    };
    let request = fetch(find_done(query, None)).upstream(&c).unwrap();
    assert_eq!(request.if_none_match.as_deref(), Some("\"x\""));
    assert_eq!(request.if_modified_since, None);
}

fn warm_metadata() -> MetadataCache {
    let mut metadata = MetadataCache::new();
    let mut entry = IndexEntry::new("serde");
    entry.set_etag("\"e1\"");
    entry.set_last_modified(DATE);
    entry.set_last_updated();
    metadata.store(&entry);
    metadata
}

#[test]
fn unchanged_copies_are_kept() {
    let c = config(60, "");
    let metadata = warm_metadata();
    let r = respond(handle_index(&c, &metadata, "se/rd/serde", Some("W/\"e1.cd60\""), None));
    assert_eq!(r.status, 304);
    assert_eq!(r.etag.as_deref(), Some("W/\"e1.cd60\""));
    // An unfiltered copy is kept only while the crate is served unfiltered.
    let exempt = config(60, "serde");
    let r = respond(handle_index(&exempt, &metadata, "se/rd/serde", Some("\"e1\""), None));
    assert_eq!(r.status, 304);
    assert_eq!(r.etag.as_deref(), Some("\"e1\""));
    assert_eq!(r.last_modified.as_deref(), Some(DATE));
}

#[test]
fn changed_windows_invalidate_copies() {
    let metadata = warm_metadata();
    for tag in ["W/\"e1.cd60\"", "\"e1\""] {
        let step = handle_index(&config(61, ""), &metadata, "se/rd/serde", Some(tag), None);
        assert!(matches!(step, IndexStep::ReadFile(_)), "{tag}");
    }
    let step = handle_index(&config(0, ""), &metadata, "se/rd/serde", Some("W/\"e1.cd60\""), None);
    assert!(matches!(step, IndexStep::ReadFile(_)));
}

#[test]
fn warm_files_are_served_without_a_fetch() {
    let c = config(60, "");
    let mut metadata = warm_metadata();
    let mut memo = FilteredMemo::new();
    let read = match handle_index(&c, &metadata, "se/rd/serde", None, None) {
        IndexStep::ReadFile(read) => read,
        _ => panic!("expected a file to read"),
    };
    assert!(matches!(read.purpose, ReadPurpose::Warm(_)));
    let job = serve_job(read_done(read, Some(body(&[OLD, NEW])), &mut metadata));
    assert_eq!(response_body(&serve_all(&c, &mut memo, job)), body(&[OLD]));
    // A missing file is fetched anew.
    let read = match handle_index(&c, &metadata, "se/rd/serde", None, None) {
        IndexStep::ReadFile(read) => read,
        _ => panic!("expected a file to read"),
    };
    assert!(matches!(read_done(read, None, &mut metadata), IndexStep::FindFile(_)));
    assert!(metadata.fetch("serde").is_some());
}

#[test]
fn expired_entries_are_refreshed() {
    let c = config(60, "");
    let mut cached = IndexEntry::new("serde");
    cached.set_etag("\"e1\"");
    let entry = IndexEntry::new("serde");
    let step = lookup_at(&c, entry, None, Some(cached), true, Some(5));
    let request = fetch(step).upstream(&c).unwrap();
    assert_eq!(request.if_none_match.as_deref(), Some("\"e1\""));
}

#[test]
fn entries_expire_after_the_cache_ttl() {
    // The Time-to-Live is 3600 seconds, the cooldown 60.
    let c = config(60, "");
    let cached = || {
        let mut cached = IndexEntry::new("serde");
        cached.set_etag("\"e1\"");
        cached.set_last_updated();
        Some(cached)
    };
    let step = |elapsed: Duration| {
        lookup_elapsed(&c, IndexEntry::new("serde"), None, cached(), &elapsed, Some(5))
    };
    assert!(matches!(step(Duration::from_secs(61)), IndexStep::ReadFile(_)));
    assert!(matches!(step(Duration::from_secs(3600)), IndexStep::ReadFile(_)));
    assert!(matches!(step(Duration::new(3600, 1).unwrap()), IndexStep::Fetch(_)));
    let elapsed = Duration::from_secs(3601);
    let entry = IndexEntry::new("serde");
    assert!(matches!(
        lookup_elapsed(&c, entry, None, None, &elapsed, Some(5)),
        IndexStep::FindFile(_)
    ));
}

#[test]
fn entries_are_looked_up_at_a_time() {
    let c = config(60, "");
    let cached = || {
        let mut cached = IndexEntry::new("serde");
        cached.set_etag("\"e1\"");
        Some(cached)
    };
    let entry = || {
        let mut entry = IndexEntry::new("serde");
        entry.set_etag("\"e1\"");
        entry
    };
    let zero = Duration::from_secs(0);
    let r = respond(handle_entry_at(&c, entry(), Some(60), cached(), &zero, Some(1000)));
    assert_eq!(r.etag.as_deref(), Some("W/\"e1.cd60\""));
    // A clock before 1970 gives no window.
    let step = handle_entry_at(&c, entry(), Some(60), cached(), &zero, None);
    assert!(matches!(step, IndexStep::ReadFile(_)));
    let r = respond(handle_entry_at(&c, entry(), None, cached(), &zero, None));
    assert_eq!(r.etag.as_deref(), Some("\"e1\""));
}

#[test]
fn expired_entries_are_refetched_through_the_route() {
    let c = config(60, "");
    let Some(early) = Instant::now().checked_sub(std::time::Duration::from_secs(3700)) else {
        return;
    };
    let mut metadata = MetadataCache::new();
    let mut cached = IndexEntry::new("serde");
    cached.set_etag("\"e1\"");
    cached.set_last_updated_at(early);
    metadata.store(&cached);
    let f = fetch(handle_index(&c, &metadata, "se/rd/serde", None, None));
    // The answer renews the time of the check.
    let checked = Instant::now();
    let r = fetched_at(&c, &mut metadata, f, reply(304, "\"e1\"", Vec::new()), checked, Some(9));
    assert!(matches!(r, IndexStep::ReadFile(_)));
    let mut renewed = cached.clone();
    renewed.set_last_modified(DATE);
    renewed.set_last_updated_at(checked);
    assert_eq!(metadata.fetch("serde"), Some(renewed));
    let step = handle_index(&c, &metadata, "se/rd/serde", None, None);
    assert!(matches!(step, IndexStep::ReadFile(_)));
}

fn expired_fetch(c: &Config, tag: &str, window: Option<u64>, cutoff: Option<u64>) -> IndexFetch {
    let mut cached = IndexEntry::new("serde");
    cached.set_etag("\"e1\"");
    let mut entry = IndexEntry::new("serde");
    entry.set_etag(tag);
    fetch(lookup_at(c, entry, window, Some(cached), true, cutoff))
}

#[test]
fn confirmed_entries() {
    let c = config(60, "");
    let mut metadata = MetadataCache::new();
    // The client has the copy that the upstream confirms, at the same window.
    let f = expired_fetch(&c, "\"e1\"", Some(60), Some(5));
    let r = respond(fetched(&c, &mut metadata, f, reply(304, "\"e1\"", Vec::new())));
    assert_eq!(r.status, 304);
    assert_eq!(r.etag.as_deref(), Some("W/\"e1.cd60\""));
    assert_eq!(metadata.fetch("serde").unwrap().etag(), Some("\"e1\""));
    // At another window it has to be served the file.
    let f = expired_fetch(&c, "\"e1\"", None, Some(5));
    let read = match fetched(&c, &mut metadata, f, reply(304, "\"e1\"", Vec::new())) {
        IndexStep::ReadFile(read) => read,
        _ => panic!("expected a file to read"),
    };
    assert_eq!(read.query.name(), "serde");
    assert!(matches!(read.purpose, ReadPurpose::Revalidated(_)));
    let job = serve_job(read_done(read, Some(body(&[OLD])), &mut metadata));
    assert_eq!(job.data, body(&[OLD]));
    assert_eq!(job.entry.etag(), Some("\"e1\""));
    // If the file is gone, the metadata are forgotten.
    let f = expired_fetch(&c, "\"e2\"", Some(60), Some(5));
    let read = match fetched(&c, &mut metadata, f, reply(304, "\"e1\"", Vec::new())) {
        IndexStep::ReadFile(read) => read,
        _ => panic!("expected a file to read"),
    };
    assert!(metadata.fetch("serde").is_some());
    let r = respond(read_done(read, None, &mut metadata));
    assert_eq!(r.status, 503);
    assert_eq!(metadata.fetch("serde"), None);
}

#[test]
fn stored_entries_answer_the_client() {
    let c = config(60, "");
    let mut metadata = MetadataCache::new();
    let f = expired_fetch(&c, "\"e2\"", Some(60), Some(5));
    let write = match fetched(&c, &mut metadata, f, reply(200, "\"e2\"", body(&[OLD]))) {
        IndexStep::WriteFile(write) => write,
        _ => panic!("expected a file to store"),
    };
    // The client has exactly what the upstream has just sent.
    let r = respond(write_done_at(&c, &mut metadata, write, Some(5)));
    assert_eq!(r.status, 304);
    assert_eq!(r.etag.as_deref(), Some("W/\"e2.cd60\""));
    assert_eq!(metadata.fetch("serde").unwrap().etag(), Some("\"e2\""));
}

#[test]
fn stored_entries_are_tagged_by_the_time() {
    let c = config(60, "");
    let mut metadata = MetadataCache::new();
    for (now, tag) in [(Some(1000), "W/\"e2.cd60\""), (None, "\"e2\"")] {
        let f = expired_fetch(&c, "\"e2\"", Some(60), Some(5));
        let write = match fetched(&c, &mut metadata, f, reply(200, "\"e2\"", body(&[OLD]))) {
            IndexStep::WriteFile(write) => write,
            _ => panic!("expected a file to store"),
        };
        let r = respond(write_done_at_time(&c, &mut metadata, write, now));
        assert_eq!((r.status, r.etag.as_deref()), (304, Some(tag)));
    }
}

#[test]
fn other_statuses_are_forwarded() {
    let c = config(60, "");
    let mut metadata = MetadataCache::new();
    let f = expired_fetch(&c, "\"e1\"", None, Some(5));
    let r = respond(fetched(&c, &mut metadata, f, reply(404, "\"e1\"", b"no \xff".to_vec())));
    assert_eq!(r.status, 404);
    assert_eq!(r.content_type, Some("application/json; charset=utf-8"));
    // Bytes that are no text are replaced.
    assert_eq!(response_body(&r), "no \u{fffd}".as_bytes().to_vec());
    assert_eq!(metadata.fetch("serde"), None);
}

#[test]
fn forwarded_texts_keep_their_bytes() {
    let c = config(60, "");
    let mut metadata = MetadataCache::new();
    let text = "upstream says no – ✗\r\n\u{0}";
    let f = expired_fetch(&c, "\"e1\"", None, Some(5));
    let r = respond(fetched(&c, &mut metadata, f, reply(451, "\"e1\"", text.into())));
    assert_eq!(r.status, 451);
    assert_eq!(r.etag, None);
    assert_eq!(r.last_modified, None);
    assert_eq!(response_body(&r), text.as_bytes().to_vec());
}

#[test]
fn failures_fall_back_to_the_cached_file() {
    let c = config(60, "");
    let mut metadata = MetadataCache::new();
    let mut memo = FilteredMemo::new();
    let f = expired_fetch(&c, "\"e1\"", None, Some(5));
    let read = match fetch_failed(f, FetchError::Http("connection \"refused\"".to_string())) {
        IndexStep::ReadFile(read) => read,
        _ => panic!("expected a file to read"),
    };
    assert_eq!(read.query.file_path(), "se/rd/serde");
    let job = serve_job(read_done(read, Some(body(&[NEW, OLD])), &mut metadata));
    assert_eq!(response_body(&serve_all(&c, &mut memo, job)), body(&[OLD]));
    let f = expired_fetch(&c, "\"e1\"", None, Some(5));
    let read = match fetch_failed(f, FetchError::Http("connection \"refused\"".to_string())) {
        IndexStep::ReadFile(read) => read,
        _ => panic!("expected a file to read"),
    };
    let r = respond(read_done(read, None, &mut metadata));
    assert_eq!(r.status, 502);
    assert_eq!(
        response_body(&r),
        br#"{"errors":[{"detail":"connection \"refused\""}]}"#.to_vec()
    );
    let f = expired_fetch(&c, "\"e1\"", None, Some(5));
    let read = match fetch_failed(f, FetchError::TooLarge) {
        IndexStep::ReadFile(read) => read,
        _ => panic!("expected a file to read"),
    };
    let r = respond(read_done(read, None, &mut metadata));
    assert_eq!(
        response_body(&r),
        br#"{"errors":[{"detail":"response body too large"}]}"#.to_vec()
    );
}

fn job(data: Vec<u8>) -> IndexServe {
    let c = config(0, "");
    let mut metadata = warm_metadata();
    let read = match handle_index(&c, &metadata, "se/rd/serde", None, None) {
        IndexStep::ReadFile(read) => read,
        _ => panic!("expected a file to read"),
    };
    serve_job(read_done(read, Some(data), &mut metadata))
}

#[test]
fn exempt_entries_are_served_verbatim() {
    for c in [config(60, "serde"), config(0, "")] {
        let mut memo = FilteredMemo::new();
        let r = serve_all(&c, &mut memo, job(body(&[OLD, NEW])));
        assert_eq!(r.status, 200);
        assert_eq!(r.etag.as_deref(), Some("\"e1\""));
        assert_eq!(r.last_modified.as_deref(), Some(DATE));
        assert_eq!(response_body(&r), body(&[OLD, NEW]));
    }
}

#[test]
fn filtered_bodies_are_memoized_by_the_hour() {
    let c = config(60, "");
    let mut memo = FilteredMemo::new();
    let cutoff = 7200;
    match serve_at(&c, &memo, job(body(&[OLD, NEW])), Some(cutoff)) {
        ServeStep::Filter(work, ticket) => {
            assert_eq!(work.cutoff, 7200);
            assert_eq!(ticket.bucket, 2);
            let filtered = work.run();
            assert_eq!(filtered, body(&[OLD]));
            let r = filter_done(&c, &mut memo, ticket, Some(filtered));
            assert_eq!(response_body(&r), body(&[OLD]));
        }
        _ => panic!("expected something to filter"),
    }
    // Within the hour the memo answers, whatever the file holds.
    match serve_at(&c, &memo, job(Vec::new()), Some(cutoff + 3599)) {
        ServeStep::Respond(r) => {
            assert_eq!(r.status, 200);
            assert_eq!(r.etag.as_deref(), Some("W/\"e1.cd60\""));
            assert_eq!(response_body(&r), body(&[OLD]));
        }
        _ => panic!("expected a response"),
    }
    // In the next hour it does not.
    assert!(matches!(
        serve_at(&c, &memo, job(Vec::new()), Some(cutoff + 3600)),
        ServeStep::Filter(_, _)
    ));
}

#[test]
fn entries_are_served_at_a_time() {
    let c = config(60, "");
    let memo = FilteredMemo::new();
    match serve_at_time(&c, &memo, job(body(&[OLD, NEW])), Some(7260)) {
        ServeStep::Filter(work, ticket) => {
            assert_eq!(work.cutoff, 7200);
            assert_eq!(ticket.bucket, 2);
        }
        _ => panic!("expected something to filter"),
    }
    assert!(matches!(
        serve_at_time(&c, &memo, job(body(&[OLD, NEW])), None),
        ServeStep::Respond(_)
    ));
}

#[test]
fn failed_filters_are_reported() {
    let c = config(60, "");
    let mut memo = FilteredMemo::new();
    match serve_at(&c, &memo, job(body(&[OLD])), Some(7200)) {
        ServeStep::Filter(_, ticket) => {
            let r = filter_done(&c, &mut memo, ticket, None);
            assert_eq!(r.status, 500);
            assert!(response_body(&r).is_empty());
        }
        _ => panic!("expected something to filter"),
    }
    assert_eq!(memo.get("serde", "\"e1\"", 2), None);
}
