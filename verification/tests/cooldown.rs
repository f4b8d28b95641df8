use chilled_crates::cooldown::{
    cutoff_from, filter_body, filter_index, line_pubtime_secs, parse_duration, parse_rfc3339z,
    version_pubtime,
};
use chilled_crates::time::{Duration, SECS_PER_DAY};

#[test]
fn duration_units() {
    assert_eq!(parse_duration("3600"), Ok(Duration::from_secs(3600)));
    assert_eq!(parse_duration("3600s"), Ok(Duration::from_secs(3600)));
    assert_eq!(parse_duration("30m"), Ok(Duration::from_secs(1800)));
    assert_eq!(parse_duration("12h"), Ok(Duration::from_secs(43_200)));
    assert_eq!(parse_duration("7d"), Ok(Duration::from_secs(604_800)));
    assert_eq!(parse_duration("1w"), Ok(Duration::from_secs(604_800)));
    assert_eq!(parse_duration("0"), Ok(Duration::from_secs(0)));
    assert_eq!(parse_duration(" 7d "), Ok(Duration::from_secs(604_800)));
}

#[test]
fn duration_rejects() {
    assert!(parse_duration("").is_err());
    assert!(parse_duration("1M").is_err()); // months unsupported
    assert!(parse_duration("1y").is_err()); // years unsupported
    assert!(parse_duration("abc").is_err());
    assert!(parse_duration("d").is_err());
    assert!(parse_duration("7dd").is_err());
}

#[test]
fn duration_overflow() {
    // A bare value at the u64 ceiling parses; multiplying by a unit overflows.
    let max = u64::MAX.to_string();
    assert_eq!(parse_duration(&max), Ok(Duration::from_secs(u64::MAX)));
    let err = parse_duration(&format!("{max}w")).unwrap_err();
    assert!(err.contains("too large"), "unexpected error: {err}");
    // A value that does not even fit in u64 is a parse error, not overflow.
    assert!(parse_duration("99999999999999999999999").is_err());
}

#[test]
fn duration_messages() {
    assert_eq!(parse_duration("  "), Err("empty duration".to_string()));
    assert_eq!(
        parse_duration("7x"),
        Err("invalid duration unit 'x' in '7x' (use s, m, h, d, or w)".to_string())
    );
    // The unit is the last byte of the text, whatever character it belongs to.
    assert_eq!(
        parse_duration("7é"),
        Err("invalid duration unit '\u{a9}' in '7é' (use s, m, h, d, or w)".to_string())
    );
    assert_eq!(
        parse_duration("-7d"),
        Err("invalid duration value in '-7d'".to_string())
    );
    assert_eq!(
        parse_duration("18446744073709551615m"),
        Err("duration '18446744073709551615m' is too large".to_string())
    );
    assert_eq!(parse_duration("+7d"), Ok(Duration::from_secs(604_800)));
    assert_eq!(parse_duration("007s"), Ok(Duration::from_secs(7)));
    // Unicode white space is trimmed too.
    assert_eq!(parse_duration("\u{3000}2h\u{a0}"), Ok(Duration::from_secs(7200)));
}

#[test]
fn cutoff_disabled_when_zero() {
    assert_eq!(cutoff_from(1_000_000, Duration::from_secs(0)), None);
    assert_eq!(
        cutoff_from(1_000_000, Duration::from_secs(SECS_PER_DAY)),
        Some(1_000_000 - SECS_PER_DAY)
    );
}

#[test]
fn cutoff_stops_at_zero() {
    assert_eq!(cutoff_from(10, Duration::from_secs(11)), Some(0));
    assert_eq!(cutoff_from(11, Duration::from_secs(11)), Some(0));
    // A window below one second counts as none.
    assert_eq!(cutoff_from(10, Duration::new(0, 5).unwrap()), None);
}

#[test]
fn filter_drops_too_new() {
    let body = "{\"name\":\"a\",\"vers\":\"1\",\"pubtime\":\"2026-01-01T00:00:00Z\"}\n\
                {\"name\":\"a\",\"vers\":\"2\",\"pubtime\":\"2026-03-20T00:00:00Z\"}\n";
    // cutoff = 2026-02-01: the 03-20 release is newer → dropped.
    let cutoff = parse_rfc3339z("2026-02-01T00:00:00Z").unwrap();
    let out = String::from_utf8(filter_body(body, cutoff)).unwrap();
    assert!(out.contains(r#""vers":"1""#));
    assert!(!out.contains(r#""vers":"2""#));
}

#[test]
fn filter_keeps_lines_without_pubtime() {
    // Blank lines, lines with no pubtime, and a missing trailing newline are
    // all preserved verbatim, regardless of cutoff.
    let body = "\n{\"name\":\"a\",\"vers\":\"1\"}\nnot json";
    let out = String::from_utf8(filter_body(body, 0)).unwrap();
    assert_eq!(out, body);
}

#[test]
fn filter_preserves_crlf_endings() {
    let body = "{\"vers\":\"1\",\"pubtime\":\"2026-01-01T00:00:00Z\"}\r\n\
                {\"vers\":\"2\",\"pubtime\":\"2026-03-20T00:00:00Z\"}\r\n";
    let cutoff = parse_rfc3339z("2026-02-01T00:00:00Z").unwrap();
    let out = String::from_utf8(filter_body(body, cutoff)).unwrap();
    // The kept line retains its CRLF; the too-new line is dropped whole.
    assert_eq!(
        out,
        "{\"vers\":\"1\",\"pubtime\":\"2026-01-01T00:00:00Z\"}\r\n"
    );
}

#[test]
fn filter_keeps_line_at_cutoff_boundary() {
    // Only strictly-newer-than-cutoff is dropped; pubtime == cutoff stays.
    let pubtime = "2026-03-20T00:00:00Z";
    let cutoff = parse_rfc3339z(pubtime).unwrap();
    let body = format!("{{\"vers\":\"1\",\"pubtime\":\"{pubtime}\"}}\n");
    let out = String::from_utf8(filter_body(&body, cutoff)).unwrap();
    assert_eq!(out, body);
    // One second older a cutoff and the same line is dropped.
    assert!(String::from_utf8(filter_body(&body, cutoff - 1))
        .unwrap()
        .is_empty());
}

#[test]
fn filter_index_passes_through_non_utf8() {
    // Invalid UTF-8 is returned untouched rather than mangled.
    let data = [0xff, 0xfe, 0x00, 0x01];
    assert_eq!(filter_index(&data, 0), data.to_vec());
}

#[test]
fn filter_index_filters_text_with_multibyte_characters() {
    let old = "{\"note\":\"naïve – ✓\",\"pubtime\":\"2020-01-01T00:00:00Z\"}\n";
    let new = "{\"note\":\"日本語\",\"pubtime\":\"2030-01-01T00:00:00Z\"}\n";
    let end = "{\"note\":\"ü\"}";
    let cutoff = parse_rfc3339z("2025-01-01T00:00:00Z").unwrap();
    let body = format!("{old}{new}{end}");
    assert_eq!(
        filter_index(body.as_bytes(), cutoff),
        format!("{old}{end}").into_bytes()
    );
    assert_eq!(filter_index(b"", cutoff), Vec::<u8>::new());
}

#[test]
fn filters_compose_to_the_earlier_cutoff() {
    let body = "{\"vers\":\"1\",\"pubtime\":\"1970-01-01T00:00:10Z\"}\n\
                {\"vers\":\"2\",\"pubtime\":\"1970-01-01T00:00:20Z\"}\n\
                {\"vers\":\"3\",\"pubtime\":\"1970-01-01T00:00:30Z\"}\n";
    let once = filter_index(body.as_bytes(), 20);
    assert_eq!(filter_index(&once, 20), once);
    assert_eq!(filter_index(&once, 10), filter_index(body.as_bytes(), 10));
    assert_eq!(filter_index(&once, 30), once);
    assert_eq!(filter_index(body.as_bytes(), 30), body.as_bytes().to_vec());
    assert_eq!(
        String::from_utf8(filter_index(body.as_bytes(), 10)).unwrap(),
        "{\"vers\":\"1\",\"pubtime\":\"1970-01-01T00:00:10Z\"}\n"
    );
}

#[test]
fn version_pubtime_finds_exact_version() {
    let body = "{\"name\":\"a\",\"vers\":\"1.0.0\",\"pubtime\":\"2026-01-01T00:00:00Z\"}\n\
                {\"name\":\"a\",\"vers\":\"1.0.1\",\"pubtime\":\"2026-03-20T00:00:00Z\"}\n";
    assert_eq!(
        version_pubtime(body, "1.0.1"),
        parse_rfc3339z("2026-03-20T00:00:00Z")
    );
    // Absent version -> None.
    assert_eq!(version_pubtime(body, "9.9.9"), None);
}

#[test]
fn version_pubtime_requires_full_version_match() {
    // The closing quote in the needle prevents `1.0` matching `1.0.1`.
    let body = r#"{"name":"a","vers":"1.0.1","pubtime":"2026-03-20T00:00:00Z"}"#;
    assert_eq!(version_pubtime(body, "1.0"), None);
    assert_eq!(
        version_pubtime(body, "1.0.1"),
        parse_rfc3339z("2026-03-20T00:00:00Z")
    );
}

#[test]
fn version_pubtime_none_without_pubtime() {
    let body = r#"{"name":"a","vers":"1.0.0"}"#;
    assert_eq!(version_pubtime(body, "1.0.0"), None);
}

#[test]
fn version_pubtime_takes_the_first_line() {
    let body = "{\"vers\":\"1\"}\n{\"vers\":\"1\",\"pubtime\":\"1970-01-01T00:00:01Z\"}\n";
    assert_eq!(version_pubtime(body, "1"), None);
    let crlf = "{\"vers\":\"1\",\"pubtime\":\"1970-01-01T00:00:01Z\"}\r\n";
    assert_eq!(version_pubtime(crlf, "1"), Some(1));
}

#[test]
fn index_and_download_agree() {
    let body = "{\"vers\":\"1\",\"pubtime\":\"1970-01-01T00:00:10Z\"}\r\r\n\
                {\"vers\":\"2\",\"pubtime\":\"1970-01-01T00:00:20Z\"}\n";
    let shown = String::from_utf8(filter_body(body, 10)).unwrap();
    assert_eq!(version_pubtime(body, "1"), Some(10));
    assert_eq!(version_pubtime(&shown, "1"), Some(10));
    assert_eq!(version_pubtime(body, "2"), Some(20));
    assert_eq!(version_pubtime(&shown, "2"), None);
}

#[test]
fn rfc3339_epoch() {
    assert_eq!(parse_rfc3339z("1970-01-01T00:00:00Z"), Some(0));
}

#[test]
fn rfc3339_sample() {
    // 2026-03-20T03:13:45Z
    let got = parse_rfc3339z("2026-03-20T03:13:45Z").unwrap();
    // 2026-03-20 is day 20532 since 1970-01-01 (56y * 365 + 14 leap days + 78 days into 2026).
    assert_eq!(got, 20532 * 86_400 + 3 * 3600 + 13 * 60 + 45);
}

#[test]
fn rfc3339_fractional() {
    assert_eq!(
        parse_rfc3339z("2026-03-20T03:13:45.999Z"),
        parse_rfc3339z("2026-03-20T03:13:45Z"),
    );
}

#[test]
fn rfc3339_fields() {
    assert_eq!(parse_rfc3339z("1970-01-01T23:59:60Z"), Some(86_400));
    assert_eq!(parse_rfc3339z("1970-01-01T00:00:07.1.2Z"), Some(7));
    assert_eq!(parse_rfc3339z("1972-02-29T00:00:00Z"), Some(789 * 86_400));
    // A day past the end of its month counts on.
    assert_eq!(
        parse_rfc3339z("1970-02-30T00:00:00Z"),
        parse_rfc3339z("1970-03-02T00:00:00Z")
    );
    assert_eq!(parse_rfc3339z("+1970-1-1T0:0:0Z"), Some(0));
    assert_eq!(
        parse_rfc3339z("2147483647-12-31T23:59:59Z"),
        Some(67_767_976_233_532_799)
    );
}

#[test]
fn rfc3339_rejects() {
    assert_eq!(parse_rfc3339z(""), None);
    assert_eq!(parse_rfc3339z("1970-01-01T00:00:00"), None);
    assert_eq!(parse_rfc3339z("1970-01-01 00:00:00Z"), None);
    assert_eq!(parse_rfc3339z("1970-01-01-01T00:00:00Z"), None);
    assert_eq!(parse_rfc3339z("1970-01T00:00:00Z"), None);
    assert_eq!(parse_rfc3339z("1970-01-01T00:00Z"), None);
    assert_eq!(parse_rfc3339z("1970-01-01T00:00:00:00Z"), None);
    assert_eq!(parse_rfc3339z("1970-13-01T00:00:00Z"), None);
    assert_eq!(parse_rfc3339z("1970-00-01T00:00:00Z"), None);
    assert_eq!(parse_rfc3339z("1970-01-32T00:00:00Z"), None);
    assert_eq!(parse_rfc3339z("1970-01-01T24:00:00Z"), None);
    assert_eq!(parse_rfc3339z("1970-01-01T00:60:00Z"), None);
    assert_eq!(parse_rfc3339z("1970-01-01T00:00:61Z"), None);
    assert_eq!(parse_rfc3339z("1969-12-31T23:59:59Z"), None);
    assert_eq!(parse_rfc3339z("2147483648-01-01T00:00:00Z"), None);
}

#[test]
fn line_with_pubtime() {
    let line = r#"{"name":"a","vers":"1","pubtime":"2026-03-20T03:13:45Z"}"#;
    assert_eq!(
        line_pubtime_secs(line),
        parse_rfc3339z("2026-03-20T03:13:45Z")
    );
}

#[test]
fn line_without_pubtime() {
    let line = r#"{"name":"a","vers":"1"}"#;
    assert_eq!(line_pubtime_secs(line), None);
}

#[test]
fn line_pubtime_realistic() {
    // Compact crates.io-style line with deps before pubtime.
    let line = r#"{"name":"serde","vers":"1.0.1","deps":[{"name":"x","req":"^1"}],"cksum":"ab","features":{},"yanked":false,"pubtime":"2026-03-20T03:13:45Z"}"#;
    assert_eq!(
        line_pubtime_secs(line),
        parse_rfc3339z("2026-03-20T03:13:45Z")
    );
}

#[test]
fn line_pubtime_value_not_key_is_ignored() {
    // A string *value* reading "pubtime" must not be mistaken for the key;
    // the real key still wins.
    let line = r#"{"note":"pubtime","pubtime":"2026-03-20T03:13:45Z"}"#;
    assert_eq!(
        line_pubtime_secs(line),
        parse_rfc3339z("2026-03-20T03:13:45Z")
    );
    // ...and with no real key, the value occurrence yields nothing.
    assert_eq!(line_pubtime_secs(r#"{"note":"pubtime"}"#), None);
}

#[test]
fn line_pubtime_layout() {
    let spaced = "{\"pubtime\" \t: \u{2003}\"1970-01-01T00:00:05Z\"}";
    assert_eq!(line_pubtime_secs(spaced), Some(5));
    // The first key decides, readable or not.
    assert_eq!(line_pubtime_secs(r#"{"pubtime":null,"pubtime":"1970-01-01T00:00:05Z"}"#), None);
    assert_eq!(line_pubtime_secs(r#"{"pubtime":"1970-01-01T00:00:05Z"#), None);
}

#[test]
fn too_new_versions_are_not_listed() {
    let body = "{\"vers\":\"1\",\"pubtime\":\"1970-01-01T00:00:10Z\"}\n\
                {\"vers\":\"2\",\"pubtime\":\"1970-01-01T00:00:20Z\"}\n";
    let shown = String::from_utf8(filter_body(body, 15)).unwrap();
    assert_eq!(version_pubtime(body, "2"), Some(20));
    assert_eq!(version_pubtime(&shown, "2"), None);
    assert!(!shown.contains("\"vers\":\"2\""));
}
