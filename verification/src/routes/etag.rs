//! ETag rewriting for filtered index entries.
//!
//! Serving a *filtered* body under the upstream's strong ETag is incorrect: the
//! bytes no longer match the validator, so a shared cache could mix them up. For
//! filtered entries we therefore emit a *weak*, cooldown-tagged ETag derived
//! from the upstream one, and strip that tag back off when a client revalidates
//! (so the upstream conditional GET still uses the real validator).

use vstd::array::array_as_slice;
use vstd::prelude::*;
use vstd::slice::slice_subrange;

use crate::text;
use crate::text::{find_last, from_chars, parse_number, push_decimal, strip_end, strip_start, to_chars};

verus! {

/// What stands between the tag of the upstream and the cooldown window.
pub open spec fn marker() -> Seq<char> {
    seq!['.', 'c', 'd']
}

/// `s` in double quotes.
pub open spec fn quoted(s: Seq<char>) -> Seq<char> {
    seq!['"'] + s + seq!['"']
}

/// An ETag value without its weak prefix and surrounding quotes.
pub open spec fn inner(value: Seq<char>) -> Seq<char> {
    let rest = if value.len() >= 2 && value[0] == 'W' && value[1] == '/' {
        value.skip(2)
    } else {
        value
    };
    text::without_end(text::without_start(rest, '"'), '"')
}

/// The weak ETag that a filtered entry is served with.
pub open spec fn filtered(upstream: Seq<char>, secs: u64) -> Seq<char> {
    seq!['W', '/'] + quoted(inner(upstream) + marker() + text::decimal(secs as nat))
}

/// An ETag text cut at its last marker, if decimal digits and nothing else
/// follow that marker.
pub open spec fn marked_parts(s: Seq<char>) -> Option<(Seq<char>, Seq<char>)> {
    match text::last_at(s, marker(), s.len() - marker().len()) {
        Some(i) => {
            let digits = s.skip(i + marker().len());
            if digits.len() > 0 && text::all_digits(digits) {
                Some((s.take(i), digits))
            } else {
                None
            }
        },
        None => None,
    }
}

/// The upstream ETag that a client's ETag stands for.
pub open spec fn unmarked(client: Seq<char>) -> Seq<char> {
    match marked_parts(inner(client)) {
        Some((base, _)) => quoted(base),
        None => quoted(inner(client)),
    }
}

/// The cooldown window that a client's ETag was issued for.
pub open spec fn window(client: Seq<char>) -> Option<u64> {
    match marked_parts(inner(client)) {
        Some((_, digits)) => if text::digits_value(digits) <= u64::MAX {
            Some(text::digits_value(digits) as u64)
        } else {
            None
        },
        None => None,
    }
}

/// Strips an optional weak prefix and surrounding quotes from an ETag value.
pub fn etag_inner(value: &str) -> (r: &str)
    ensures
        r@ == inner(value@),
{
    let chars = to_chars(value);
    let all = chars.as_slice();
    let n: usize = all.len();
    let prefix: usize = if n >= 2 && all[0] == 'W' && all[1] == '/' {
        2
    } else {
        0
    };
    let rest = slice_subrange(all, prefix, n);
    assert(prefix == 2 ==> rest@ =~= value@.skip(2));
    assert(prefix == 0 ==> rest@ =~= value@);
    let head = strip_start(rest, '"');
    let body = strip_end(head, '"');
    let from: usize = n - head.len();
    let to: usize = from + body.len();
    assert(value@.subrange(from as int, to as int) =~= body@) by {
        assert forall|k: int| 0 <= k < body@.len() implies value@.subrange(
            from as int,
            to as int,
        )[k] == #[trigger] body@[k] by {
            assert(body@[k] == head@[k]);
            assert(head@[k] == rest@[rest@.len() - head@.len() + k]);
        }
    }
    value.substring_char(from, to)
}

/// Builds the client-facing weak ETag for a filtered entry from the upstream
/// strong ETag and the cooldown window.
pub fn filtered_etag(upstream_etag: &str, cooldown_secs: u64) -> (r: String)
    ensures
        r@ == filtered(upstream_etag@, cooldown_secs),
{
    let mut out = "W/\"".to_owned();
    out.append(etag_inner(upstream_etag));
    out.append(".cd");
    push_decimal(&mut out, cooldown_secs);
    out.push('"');
    proof {
        reveal_strlit("W/\"");
        reveal_strlit(".cd");
        assert(out@ =~= filtered(upstream_etag@, cooldown_secs));
    }
    out
}

/// Tests for a run of decimal digits.
fn only_digits(s: &[char]) -> (r: bool)
    ensures
        r == text::all_digits(s@),
{
    let mut i: usize = 0;
    while i < s.len()
        invariant
            i <= s@.len(),
            forall|j: int| 0 <= j < i ==> text::is_digit(#[trigger] s@[j]),
        decreases s@.len() - i,
    {
        let c = s[i];
        if !('0' <= c && c <= '9') {
            assert(!text::is_digit(s@[i as int]));
            return false;
        }
        i = i + 1;
    }
    true
}

/// Cuts an ETag text at its last marker.
fn split_marker(s: &[char]) -> (r: Option<(&[char], &[char])>)
    ensures
        match r {
            Some((base, digits)) => marked_parts(s@) == Some((base@, digits@)),
            None => marked_parts(s@) is None,
        },
{
    let mark_chars: [char; 3] = ['.', 'c', 'd'];
    let mark = array_as_slice(&mark_chars);
    assert(mark@ =~= marker());
    match find_last(s, mark) {
        Some(i) => {
            let n: usize = s.len();
            let base = slice_subrange(s, 0, i);
            let digits = slice_subrange(s, i + 3, n);
            assert(base@ =~= s@.take(i as int));
            assert(digits@ =~= s@.skip(i + 3));
            if digits.len() > 0 && only_digits(digits) {
                Some((base, digits))
            } else {
                None
            }
        },
        None => None,
    }
}

/// Recovers the upstream strong ETag form from a client `If-None-Match` value,
/// undoing [`filtered_etag`] so upstream revalidation matches.
pub fn unmark_etag(client_value: &str) -> (r: String)
    ensures
        r@ == unmarked(client_value@),
{
    let chars = to_chars(etag_inner(client_value));
    let base = match split_marker(chars.as_slice()) {
        Some((base, _)) => from_chars(base),
        None => from_chars(chars.as_slice()),
    };
    let mut out = String::new();
    out.push('"');
    out.append(base.as_str());
    out.push('"');
    assert(out@ =~= quoted(base@));
    out
}

/// Extracts the cooldown window (seconds) encoded in a client ETag marker, or
/// `None` if the ETag is unmarked (i.e. was issued for an unfiltered entry).
pub fn etag_window(client_value: &str) -> (r: Option<u64>)
    ensures
        r == window(client_value@),
{
    let chars = to_chars(etag_inner(client_value));
    match split_marker(chars.as_slice()) {
        Some((_, digits)) => {
            assert(text::is_digit(digits@[0]));
            parse_number(digits, u64::MAX)
        },
        None => None,
    }
}

// Laws.

proof fn lemma_without_ends(s: Seq<char>, c: char)
    ensures
        ({
            let head = text::without_start(s, c);
            let body = text::without_end(head, c);
            &&& head.len() > 0 ==> head[0] != c
            &&& body.len() > 0 ==> body.last() != c && body[0] != c
        }),
    decreases s.len(),
{
    if s.len() > 0 && s[0] == c {
        lemma_without_ends(s.drop_first(), c);
    } else {
        lemma_without_end(s, c);
    }
}

proof fn lemma_without_end(s: Seq<char>, c: char)
    ensures
        ({
            let body = text::without_end(s, c);
            &&& body.len() > 0 ==> body.last() != c && body[0] == s[0]
            &&& body.len() <= s.len()
        }),
    decreases s.len(),
{
    if s.len() > 0 && s.last() == c {
        lemma_without_end(s.drop_last(), c);
    }
}

/// Quotes around a text that has none at its ends come off again.
proof fn lemma_inner_of_quoted(s: Seq<char>)
    requires
        s.len() > 0 ==> s[0] != '"' && s.last() != '"',
    ensures
        text::without_end(text::without_start(quoted(s), '"'), '"') == s,
{
    let q = quoted(s);
    assert(q.drop_first() =~= s + seq!['"']);
    let rest = s + seq!['"'];
    if s.len() == 0 {
        assert(rest =~= seq!['"']);
        assert(rest.drop_first() =~= Seq::<char>::empty());
        assert(text::without_start(rest, '"') == text::without_start(rest.drop_first(), '"'));
        assert(text::without_start(rest, '"') =~= Seq::<char>::empty());
        assert(text::without_start(q, '"') =~= Seq::<char>::empty());
        assert(text::without_end(Seq::<char>::empty(), '"') =~= s);
    } else {
        assert(rest[0] == s[0]);
        assert(text::without_start(rest, '"') == rest);
        assert(rest.last() == '"');
        assert(rest.drop_last() =~= s);
        assert(text::without_end(s, '"') == s);
        assert(text::without_end(rest, '"') == text::without_end(rest.drop_last(), '"'));
        assert(text::without_start(q, '"') == text::without_start(q.drop_first(), '"'));
    }
}

/// The tag of a filtered entry, inside its quotes.
proof fn lemma_inner_of_filtered(upstream: Seq<char>, secs: u64)
    ensures
        inner(filtered(upstream, secs)) == inner(upstream) + marker() + text::decimal(secs as nat),
{
    let base = inner(upstream);
    let rest = if upstream.len() >= 2 && upstream[0] == 'W' && upstream[1] == '/' {
        upstream.skip(2)
    } else {
        upstream
    };
    lemma_without_ends(rest, '"');
    text::lemma_decimal(secs as nat);
    let digits = text::decimal(secs as nat);
    let s = base + marker() + digits;
    assert(text::is_digit(digits.last()));
    assert(s.last() == digits.last());
    assert(s[0] == (if base.len() > 0 { base[0] } else { '.' }));
    lemma_inner_of_quoted(s);
    let tag = filtered(upstream, secs);
    assert(tag[0] == 'W' && tag[1] == '/');
    assert(tag.skip(2) =~= quoted(s));
}

/// A marker that is put before digits is found as the last one.
proof fn lemma_marked_parts(base: Seq<char>, digits: Seq<char>)
    requires
        digits.len() > 0,
        text::all_digits(digits),
    ensures
        marked_parts(base + marker() + digits) == Some((base, digits)),
{
    let s = base + marker() + digits;
    let n = base.len() as int;
    let last = s.len() - marker().len();
    text::lemma_last_at(s, marker(), last);
    assert(s.subrange(n, n + 3) =~= marker());
    assert(text::occurs_at(s, marker(), n));
    match text::last_at(s, marker(), last) {
        Some(i) => {
            if i > n {
                assert(s.subrange(i, i + 3)[0] == s[i]);
                assert(marker()[0] == '.');
                if i >= n + 3 {
                    assert(s[i] == digits[i - n - 3]);
                }
            }
            assert(i == n);
        },
        None => {},
    }
    assert(s.take(n) =~= base);
    assert(s.skip(n + 3) =~= digits);
}

/// Marking an ETag and reading it back gives the upstream's tag, in its strong
/// form, and the window, for every tag and every window.
pub proof fn marked_etags_round_trip(upstream: Seq<char>, secs: u64)
    ensures
        unmarked(filtered(upstream, secs)) == quoted(inner(upstream)),
        window(filtered(upstream, secs)) == Some(secs),
{
    lemma_inner_of_filtered(upstream, secs);
    text::lemma_decimal(secs as nat);
    lemma_marked_parts(inner(upstream), text::decimal(secs as nat));
}

/// A strong ETag is a text in quotes that has no quote at its own ends.
pub open spec fn is_strong(etag: Seq<char>) -> bool {
    etag == quoted(inner(etag))
}

/// A strong upstream ETag survives the way to the client and back unchanged.
pub proof fn strong_etags_are_recovered(upstream: Seq<char>, secs: u64)
    requires
        is_strong(upstream),
    ensures
        unmarked(filtered(upstream, secs)) == upstream,
{
    marked_etags_round_trip(upstream, secs);
}

/// A strong ETag without a marker stands for itself and for no window.
pub proof fn plain_etags_stand_for_themselves(etag: Seq<char>)
    requires
        is_strong(etag),
        !text::contains(inner(etag), marker()),
    ensures
        unmarked(etag) == etag,
        window(etag) is None,
{
    let s = inner(etag);
    text::lemma_last_at(s, marker(), s.len() - marker().len());
    if text::last_at(s, marker(), s.len() - marker().len()) is Some {
        let i = text::last_at(s, marker(), s.len() - marker().len())->0;
        assert(text::occurs_at(s, marker(), i));
    }
}

/// Tags for different windows are different.
pub proof fn windows_have_their_own_etags(a: Seq<char>, b: Seq<char>, x: u64, y: u64)
    requires
        filtered(a, x) == filtered(b, y),
    ensures
        x == y,
        inner(a) == inner(b),
{
    marked_etags_round_trip(a, x);
    marked_etags_round_trip(b, y);
    assert(quoted(inner(a)).subrange(1, 1 + inner(a).len() as int) =~= inner(a));
    assert(quoted(inner(b)).subrange(1, 1 + inner(b).len() as int) =~= inner(b));
    assert(quoted(inner(a)).len() == inner(a).len() + 2);
    assert(quoted(inner(b)).len() == inner(b).len() + 2);
}

/// A weak prefix and all quotes at the ends come off a tag, and nothing else.
pub proof fn prefix_and_quotes_come_off(s: Seq<char>, before: nat, after: nat)
    requires
        s.len() > 0 ==> s[0] != '"' && s.last() != '"',
    ensures
        ({
            let quotes = Seq::new(before, |i: int| '"') + s + Seq::new(after, |i: int| '"');
            &&& inner("W/"@ + quotes) == s
            &&& before > 0 || s.len() < 2 || s[0] != 'W' || s[1] != '/' ==> inner(quotes) == s
        }),
{
    reveal_strlit("W/");
    let left = Seq::new(before, |i: int| '"');
    let right = Seq::new(after, |i: int| '"');
    let quotes = left + s + right;
    assert(("W/"@ + quotes).skip(2) =~= quotes);
    if s.len() > 0 {
        let tail = s + right;
        assert(quotes =~= left + tail);
        assert(tail[0] == s[0]);
        text::runs_are_taken_off(tail, '"', before);
        text::runs_are_taken_off(s, '"', after);
        if before > 0 {
            assert(quotes[0] == '"');
        } else {
            assert(quotes =~= tail);
            if s.len() == 1 && tail.len() >= 2 {
                assert(tail[1] == '"');
            }
        }
    } else {
        let all = Seq::new((before + after) as nat, |i: int| '"');
        assert(quotes =~= all + s);
        text::runs_are_taken_off(s, '"', (before + after) as nat);
        text::runs_are_taken_off(s, '"', 0);
        assert(s + Seq::new(0, |i: int| '"') =~= s);
        if quotes.len() > 0 {
            assert(quotes[0] == '"');
        }
    }
}

/// The tag of a filtered entry, spelled out.
pub proof fn filtered_tags_are_spelled_out(upstream: Seq<char>, secs: u64)
    ensures
        filtered(upstream, secs) == "W/\""@ + inner(upstream) + ".cd"@ + text::decimal(secs as nat)
            + "\""@,
{
    reveal_strlit("W/\"");
    reveal_strlit(".cd");
    reveal_strlit("\"");
    assert(filtered(upstream, secs) =~= "W/\""@ + inner(upstream) + ".cd"@ + text::decimal(
        secs as nat,
    ) + "\""@);
}

/// A tag that ends in `.cd` and digits stands for what is before them, and for
/// the window that the digits write, if 64 bits hold it.
pub proof fn marked_tags_are_read(client: Seq<char>, base: Seq<char>, digits: Seq<char>)
    requires
        inner(client) == base + ".cd"@ + digits,
        digits.len() > 0,
        text::all_digits(digits),
    ensures
        unmarked(client) == seq!['"'] + base + seq!['"'],
        text::digits_value(digits) <= u64::MAX ==> window(client) == Some(
            text::digits_value(digits) as u64,
        ),
        text::digits_value(digits) > u64::MAX ==> window(client) is None,
{
    reveal_strlit(".cd");
    assert(marker() =~= ".cd"@);
    lemma_marked_parts(base, digits);
}

/// Any other tag stands for itself, in its strong form, and for no window.
pub proof fn other_tags_are_not_marked(client: Seq<char>)
    requires
        forall|base: Seq<char>, digits: Seq<char>|
            digits.len() > 0 && text::all_digits(digits) ==> inner(client) != #[trigger] (base
                + ".cd"@ + digits),
    ensures
        unmarked(client) == seq!['"'] + inner(client) + seq!['"'],
        window(client) is None,
{
    reveal_strlit(".cd");
    assert(marker() =~= ".cd"@);
    let s = inner(client);
    text::lemma_last_at(s, marker(), s.len() - marker().len());
    if marked_parts(s) is Some {
        let i = text::last_at(s, marker(), s.len() - marker().len())->0;
        let (base, digits) = marked_parts(s)->0;
        assert(s =~= s.take(i) + s.subrange(i, i + 3) + s.skip(i + 3));
        assert(s == base + ".cd"@ + digits);
    }
}

} // verus!
