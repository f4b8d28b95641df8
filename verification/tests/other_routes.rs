use chilled_crates::address::WebUrl;
use chilled_crates::cache::CrateInfo;
use chilled_crates::config::{parse_overrides, Config};
use chilled_crates::http::{Body, FetchError, Response};
use chilled_crates::routes::download::{
    crate_fetched, crate_read, crate_request, crate_stored, gate_at, handle_download,
    handle_download_at, index_read, is_success, CrateReply, DownloadStep, GateCheck,
};
use chilled_crates::routes::metrics::{metrics_json, scan_cached_crates, CacheDir, CacheFile};
use chilled_crates::routes::status::{handle_healthz, handle_home};
use chilled_crates::time::Duration;

fn config(cooldown: u64, overrides: &str, restrict: bool) -> Config {
    Config::new(
        WebUrl::parse("https://index.crates.io/").unwrap(),
        WebUrl::parse("https://crates.io/").unwrap(),
        WebUrl::parse("http://proxy.test/").unwrap(),
        "/cache",
        Duration::from_secs(3600),
        Duration::from_secs(cooldown),
        parse_overrides(overrides),
        restrict,
    )
}

fn response_body(r: &Response) -> Vec<u8> {
    match &r.body {
        Body::Empty => Vec::new(),
        Body::Text(s) => s.as_bytes().to_vec(),
        Body::Data(d) => d.to_vec(),
    }
}

fn respond(step: DownloadStep) -> Response {
    match step {
        DownloadStep::Respond(r) => r,
        _ => panic!("expected a response"),
    }
}

#[test]
fn home_reports_running() {
    let resp = handle_home();
    assert_eq!(resp.status, 200);
    assert_eq!(resp.content_type, Some("application/json; charset=utf-8"));
    assert_eq!(response_body(&resp), br#"{"status":"running"}"#.to_vec());
}

#[test]
fn healthz_is_ok() {
    let resp = handle_healthz();
    assert_eq!(resp.status, 200);
    assert!(resp.content_type.unwrap().starts_with("text/plain"));
    assert_eq!(response_body(&resp), b"ok\n".to_vec());
}

#[test]
fn malformed_downloads_are_not_found() {
    let c = config(60, "", true);
    for path in ["", "serde/1.0.0", "serde/1.0.0/upload", "a:b/1/download", "serde/../download"] {
        assert_eq!(respond(handle_download(&c, path)).status, 404);
    }
}

#[test]
fn downloads_are_gated_only_when_restricted() {
    let path = "serde/1.0.0/download";
    assert!(matches!(
        handle_download(&config(60, "", true), path),
        DownloadStep::ReadIndex(_)
    ));
    for c in [config(60, "", false), config(0, "", true), config(60, "SERDE", true)] {
        assert!(matches!(handle_download(&c, path), DownloadStep::ReadCrate(_)));
    }
}

#[test]
fn downloads_are_gated_at_a_time() {
    let c = config(60, "exempt", true);
    let body = |path: &str, now: Option<u64>| match handle_download_at(&c, path, now) {
        DownloadStep::ReadIndex(check) => {
            let line = "{\"vers\":\"1\",\"pubtime\":\"1970-01-01T00:00:40Z\"}";
            Some(matches!(
                index_read(check, Some(line.as_bytes().to_vec())),
                DownloadStep::ReadCrate(_)
            ))
        }
        DownloadStep::ReadCrate(_) => None,
        _ => panic!("expected a file to read"),
    };
    // The version is 60 seconds old at 100.
    assert_eq!(body("serde/1/download", Some(100)), Some(true));
    assert_eq!(body("serde/1/download", Some(99)), Some(false));
    assert_eq!(body("exempt/1/download", Some(99)), None);
    // A clock before 1970 gives no cutoff.
    assert_eq!(body("serde/1/download", None), None);
    assert_eq!(respond(handle_download_at(&c, "serde", Some(99))).status, 404);
}

fn check(cutoff: u64) -> GateCheck {
    let info = CrateInfo::new("serde", "1.0.0");
    match gate_at(&config(60, "", true), info, Some(cutoff)) {
        DownloadStep::ReadIndex(check) => check,
        _ => panic!("expected an index file to read"),
    }
}

#[test]
fn too_new_versions_are_refused() {
    let body = "{\"vers\":\"1.0.0\",\"pubtime\":\"1970-01-01T00:00:10Z\"}\n\
                {\"vers\":\"1.0.1\"}\n";
    assert_eq!(check(10).index_path(), "se/rd/serde");
    assert_eq!(check(10).crate_info(), &CrateInfo::new("serde", "1.0.0"));
    let data = || Some(body.as_bytes().to_vec());
    assert!(matches!(index_read(check(10), data()), DownloadStep::ReadCrate(_)));
    let r = respond(index_read(check(9), data()));
    assert_eq!(r.status, 403);
    assert!(response_body(&r).is_empty());
}

#[test]
fn the_restriction_is_fail_closed() {
    // No cached index, one that is no text, one without the version, and one
    // without a publication time.
    for data in [
        None,
        Some(vec![0xff, 0xfe]),
        Some(b"{\"vers\":\"2.0.0\",\"pubtime\":\"1970-01-01T00:00:10Z\"}".to_vec()),
        Some(b"{\"vers\":\"1.0.0\"}".to_vec()),
    ] {
        assert_eq!(respond(index_read(check(u64::MAX), data)).status, 403);
    }
}

#[test]
fn cached_crates_are_served_verbatim() {
    let info = CrateInfo::new("serde", "1.0.0");
    let r = respond(crate_read(info.clone(), Some(vec![0, 159, 146, 150])));
    assert_eq!(r.status, 200);
    assert_eq!(r.content_type, Some("application/x-tar"));
    assert_eq!(response_body(&r), vec![0, 159, 146, 150]);
    assert!(matches!(crate_read(info, None), DownloadStep::Fetch(_)));
}

#[test]
fn crates_are_fetched_from_upstream() {
    let c = config(60, "", true);
    let info = CrateInfo::new("serde", "1.0.0");
    let request = crate_request(&c, &info).unwrap();
    assert_eq!(request.url, "https://crates.io/api/v1/crates/serde/1.0.0/download");
    assert_eq!(request.accept_encoding, None);
    match crate_fetched(info, CrateReply::Received(vec![1, 2, 3])) {
        DownloadStep::StoreCrate(info, data) => {
            assert_eq!(info.to_file_path(), "serde/serde-1.0.0.crate");
            assert_eq!(response_body(&crate_stored(data)), vec![1, 2, 3]);
        }
        _ => panic!("expected a crate file to store"),
    }
}

#[test]
fn upstream_failures_are_reported() {
    let info = || CrateInfo::new("serde", "1.0.0");
    let r = respond(crate_fetched(info(), CrateReply::Refused(404, Some("nope".to_string()))));
    assert_eq!((r.status, response_body(&r)), (404, b"nope".to_vec()));
    let r = respond(crate_fetched(info(), CrateReply::Refused(500, None)));
    assert_eq!(r.status, 500);
    assert_eq!(
        response_body(&r),
        br#"{"errors":[{"detail":"upstream error"}]}"#.to_vec()
    );
    let r = respond(crate_fetched(info(), CrateReply::Failed(FetchError::TooLarge)));
    assert_eq!((r.status, response_body(&r)), (507, Vec::new()));
    let failure = FetchError::Http("timed out".to_string());
    let r = respond(crate_fetched(info(), CrateReply::Failed(failure)));
    assert_eq!(r.status, 502);
    assert_eq!(
        response_body(&r),
        br#"{"errors":[{"detail":"timed out"}]}"#.to_vec()
    );
    assert!(!is_success(199));
    assert!(is_success(200));
    assert!(is_success(299));
    assert!(!is_success(300));
}

fn dir(name: &str, is_dir: bool, files: &[(&str, Option<u64>)]) -> CacheDir {
    CacheDir {
        name: name.to_string(),
        is_dir,
        files: files
            .iter()
            .map(|(name, mtime)| CacheFile {
                name: name.to_string(),
                mtime: *mtime,
            })
            .collect(),
    }
}

#[test]
fn metrics_empty_when_enabled_with_no_cache() {
    assert_eq!(
        metrics_json(&Vec::new()),
        r#"{"service":"chilled-crates","cached_count":0,"crates":[]}"#
    );
}

#[test]
fn metrics_lists_cached_crate_after_download() {
    let info = CrateInfo::new("serde", "1.0.0");
    let path = info.to_file_path();
    let (dir_name, file) = path.split_once('/').unwrap();
    let dirs = vec![dir(dir_name, true, &[(file, Some(1_780_376_385))])];
    assert_eq!(
        metrics_json(&dirs),
        r#"{"service":"chilled-crates","cached_count":1,"crates":[{"name":"serde","version":"1.0.0","cached_at":1780376385}]}"#
    );
}

#[test]
fn malformed_cache_files_are_skipped() {
    let dirs = vec![
        dir("serde", false, &[("serde-1.0.0.crate", Some(1))]),
        dir("..", true, &[("..-1.0.0.crate", Some(1))]),
        dir(
            "cfg-if",
            true,
            &[
                ("cfg-if-1.0.0.crate", None),
                ("cfg-if-1.0.0.crate.tmp", Some(1)),
                ("cfg-1.0.0.crate", Some(1)),
                ("cfg-if-.crate", Some(1)),
                ("cfg-if.crate", Some(1)),
                (".crate", Some(1)),
                ("cfg-if-a b.crate", Some(1)),
            ],
        ),
    ];
    let items = scan_cached_crates(&dirs);
    assert_eq!(items.len(), 1);
    assert_eq!(items[0].name, "cfg-if");
    assert_eq!(items[0].version, "1.0.0");
    assert_eq!(items[0].cached_at, 0);
}

#[test]
fn metrics_are_sorted() {
    let dirs = vec![
        dir("b", true, &[("b-10.0.0.crate", Some(3)), ("b-9.0.0.crate", Some(2))]),
        dir("ab", true, &[("ab-1.crate", Some(9))]),
        dir("a", true, &[("a-2.crate", Some(9)), ("a-1.crate", Some(8))]),
        dir("B", true, &[("B-1.crate", Some(4))]),
    ];
    let list = "{\"name\":\"B\",\"version\":\"1\",\"cached_at\":4},\
                {\"name\":\"a\",\"version\":\"1\",\"cached_at\":8},\
                {\"name\":\"a\",\"version\":\"2\",\"cached_at\":9},\
                {\"name\":\"ab\",\"version\":\"1\",\"cached_at\":9},\
                {\"name\":\"b\",\"version\":\"10.0.0\",\"cached_at\":3},\
                {\"name\":\"b\",\"version\":\"9.0.0\",\"cached_at\":2}";
    assert_eq!(
        metrics_json(&dirs),
        format!("{{\"service\":\"chilled-crates\",\"cached_count\":6,\"crates\":[{list}]}}")
    );
}
