use bytes::Bytes;

use chilled_crates::http::{
    crate_response, error_response, fmt_http_date, format_json_error, json_escape, json_response,
    parse_http_date, Body, CappedBody, FetchError,
};
use chilled_crates::time::Timestamp;

#[test]
fn escapes_json_metacharacters() {
    assert_eq!(json_escape(r#"a"b\c"#), r#"a\"b\\c"#);
    assert_eq!(json_escape("line\nbreak\ttab"), "line\\nbreak\\ttab");
    assert_eq!(json_escape("ctrl\u{0001}"), "ctrl\\u0001");
    // Non-ASCII passes through unchanged (valid UTF-8 in a JSON string).
    assert_eq!(json_escape("café"), "café");
}

#[test]
fn escapes_every_control_character() {
    assert_eq!(json_escape("\r"), "\\r");
    assert_eq!(json_escape("\u{0}\u{b}\u{1f}"), "\\u0000\\u000b\\u001f");
    assert_eq!(json_escape("\u{20}\u{7f}"), "\u{20}\u{7f}");
}

#[test]
fn error_body_is_well_formed() {
    let body = format_json_error("bad \"quote\" and \\slash");
    assert_eq!(
        body,
        r#"{"errors":[{"detail":"bad \"quote\" and \\slash"}]}"#
    );
}

#[test]
fn response_builders() {
    let r = error_response(404);
    assert_eq!(r.status, 404);
    assert_eq!(r.content_type, None);
    assert_eq!(r.etag, None);
    assert_eq!(r.last_modified, None);
    assert!(matches!(r.body, Body::Empty));

    let r = json_response(502, "{}".to_string());
    assert_eq!(r.status, 502);
    assert_eq!(r.content_type, Some("application/json; charset=utf-8"));
    assert!(matches!(r.body, Body::Text(ref s) if s == "{}"));

    let r = crate_response(Bytes::from_static(b"\x1f\x8b"));
    assert_eq!(r.status, 200);
    assert_eq!(r.content_type, Some("application/x-tar"));
    assert!(matches!(r.body, Body::Data(ref d) if d.as_ref() == b"\x1f\x8b"));
}

#[test]
fn http_dates_are_formatted() {
    let date = |secs: u64| fmt_http_date(Timestamp::new(secs, 0).unwrap());
    assert_eq!(date(0), "Thu, 01 Jan 1970 00:00:00 GMT");
    assert_eq!(date(784_111_777), "Sun, 06 Nov 1994 08:49:37 GMT");
    assert_eq!(date(951_782_400), "Tue, 29 Feb 2000 00:00:00 GMT");
    assert_eq!(date(253_402_300_799), "Fri, 31 Dec 9999 23:59:59 GMT");
}

#[test]
fn http_dates_round_trip() {
    let mut secs: u64 = 0;
    while secs < 253_402_300_800 {
        let time = Timestamp::new(secs, 0).unwrap();
        assert_eq!(parse_http_date(&fmt_http_date(time)), Some(time));
        secs += 86_400 * 331 + 3_671;
    }
}

#[test]
fn http_dates_are_parsed_strictly() {
    let time = Timestamp::new(784_111_777, 0);
    assert_eq!(parse_http_date("Sun, 06 Nov 1994 08:49:37 GMT"), time);
    assert_eq!(parse_http_date("  Sun, 06 Nov 1994 08:49:37 GMT\t"), time);
    for bad in [
        "",
        "Mon, 06 Nov 1994 08:49:37 GMT",
        "Sun, 06 nov 1994 08:49:37 GMT",
        "Sun, 6 Nov 1994 08:49:37 GMT",
        "Sun, 06 Nov 1994 08:49:60 GMT",
        "Sun, 06 Nov 1994 24:49:37 GMT",
        "Sun, 06 Nov 1994 08:49:37 UTC",
        "Sun, 06 Nov 1994 08-49:37 GMT",
        "Thu, 31 Dec 1969 23:59:59 GMT",
        "Thu, 30 Feb 1995 00:00:00 GMT",
        "Sunday, 06-Nov-94 08:49:37 GMT",
        "Sun Nov  6 08:49:37 1994",
        "\u{a0}Sun, 06 Nov 1994 08:49:37 GMT",
    ] {
        assert_eq!(parse_http_date(bad), None, "{bad}");
    }
}

#[test]
fn timestamps_are_bounded() {
    assert!(Timestamp::new(253_402_300_799, 999_999_999).is_some());
    assert!(Timestamp::new(253_402_300_800, 0).is_none());
    assert!(Timestamp::new(0, 1_000_000_000).is_none());
    let t = Timestamp::new(7, 8).unwrap();
    assert_eq!((t.as_secs(), t.subsec_nanos()), (7, 8));
}

#[test]
fn capped_bodies() {
    // A declared length over the cap is rejected up front.
    assert!(matches!(
        CappedBody::new(Some(5), 4),
        Err(FetchError::TooLarge)
    ));
    let mut body = CappedBody::new(Some(4), 4).ok().unwrap();
    assert!(body.push(b"ab").is_ok());
    assert!(body.push(b"").is_ok());
    // So is a chunk that takes the body over it; nothing of it is kept.
    assert!(matches!(body.push(b"cde"), Err(FetchError::TooLarge)));
    assert!(body.push(b"cd").is_ok());
    assert_eq!(body.finish(), b"abcd".to_vec());
    let body = CappedBody::new(None, 0).ok().unwrap();
    assert_eq!(body.finish(), Vec::<u8>::new());
}

#[test]
fn fetch_errors_are_described() {
    assert_eq!(FetchError::TooLarge.message(), "response body too large");
    assert_eq!(FetchError::Http("refused".to_string()).message(), "refused");
}
