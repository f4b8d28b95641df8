use chilled_crates::routes::etag::{etag_inner, etag_window, filtered_etag, unmark_etag};

#[test]
fn index_etag_marker_round_trip() {
    let upstream = "\"abc123\"";
    let client = filtered_etag(upstream, 604_800);
    assert_eq!(client, "W/\"abc123.cd604800\"");
    // A client revalidation must recover the upstream strong validator.
    assert_eq!(unmark_etag(&client), "\"abc123\"");
    // A raw (unmarked) etag round-trips unchanged.
    assert_eq!(unmark_etag(upstream), "\"abc123\"");
    // The window is recoverable for the 304-safety check; unmarked = None.
    assert_eq!(etag_window(&client), Some(604_800));
    assert_eq!(etag_window(upstream), None);
}

#[test]
fn main_etag_marker_round_trip() {
    let upstream = "\"abc123\"";
    let client = filtered_etag(upstream, 604_800);
    assert_eq!(client, "W/\"abc123.cd604800\"");
    // A client revalidation must recover the upstream strong validator.
    assert_eq!(unmark_etag(&client), "\"abc123\"");
    // A raw (unmarked) etag round-trips unchanged.
    assert_eq!(unmark_etag(upstream), "\"abc123\"");
    // The window is recoverable for the 304-safety check; unmarked = None.
    assert_eq!(etag_window(&client), Some(604_800));
    assert_eq!(etag_window(upstream), None);
}

#[test]
fn etag_inner_strips_weak_prefix_and_quotes() {
    assert_eq!(etag_inner("W/\"abc\""), "abc");
    assert_eq!(etag_inner("\"abc\""), "abc");
    assert_eq!(etag_inner("abc"), "abc");
}

#[test]
fn etag_inner_edges() {
    assert_eq!(etag_inner(""), "");
    assert_eq!(etag_inner("W/"), "");
    assert_eq!(etag_inner("\"\"\""), "");
    assert_eq!(etag_inner("w/\"a\""), "w/\"a");
    assert_eq!(etag_inner("\"\"é\"x\"\""), "é\"x");
}

#[test]
fn unmark_etag_accepts_weak_input() {
    // A weak marked etag (as actually issued) recovers the strong form.
    assert_eq!(unmark_etag("W/\"abc.cd604800\""), "\"abc\"");
    // A weak *unmarked* etag has no `.cd` suffix to strip.
    assert_eq!(unmark_etag("W/\"abc\""), "\"abc\"");
}

#[test]
fn unmark_etag_strips_only_trailing_marker() {
    // rsplit_once on `.cd` peels just the final marker, so an etag whose own
    // bytes contain `.cd...` is preserved up to the real trailing marker.
    assert_eq!(unmark_etag("W/\"v.cd1.cd2\""), "\"v.cd1\"");
}

#[test]
fn etag_window_rejects_non_digit_marker() {
    // A `.cd` followed by non-digits is not a valid window marker.
    assert_eq!(etag_window("W/\"abc.cdNOPE\""), None);
    assert_eq!(etag_window("W/\"abc.cd\""), None);
}

#[test]
fn filtered_etag_with_zero_window() {
    // A zero window still produces a distinct, recoverable marker.
    let client = filtered_etag("\"abc\"", 0);
    assert_eq!(client, "W/\"abc.cd0\"");
    assert_eq!(etag_window(&client), Some(0));
    assert_eq!(unmark_etag(&client), "\"abc\"");
}

#[test]
fn windows_at_the_limit() {
    let client = filtered_etag("\"abc\"", u64::MAX);
    assert_eq!(client, "W/\"abc.cd18446744073709551615\"");
    assert_eq!(etag_window(&client), Some(u64::MAX));
    // A window that does not fit is none, but the marker still comes off.
    assert_eq!(etag_window("W/\"abc.cd18446744073709551616\""), None);
    assert_eq!(unmark_etag("W/\"abc.cd18446744073709551616\""), "\"abc\"");
    // A sign is no digit.
    assert_eq!(etag_window("\"abc.cd+1\""), None);
    assert_eq!(unmark_etag("\"abc.cd+1\""), "\"abc.cd+1\"");
}

#[test]
fn windows_have_their_own_etags() {
    assert_ne!(filtered_etag("\"abc\"", 1), filtered_etag("\"abc\"", 2));
    assert_ne!(filtered_etag("\"abc\"", 1), filtered_etag("\"abd\"", 1));
    // The weak and the strong form of one tag are marked alike.
    assert_eq!(filtered_etag("\"abc\"", 1), filtered_etag("W/\"abc\"", 1));
}
