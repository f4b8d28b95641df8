//! Laws of the age-gating filter: what timestamps, index lines, index bodies
//! and durations mean, character by character.

use vstd::prelude::*;
use vstd::utf8::*;

use crate::calendar;
use crate::cooldown;
use crate::lines;
use crate::text;

verus! {

// Timestamps.

/// The text `<y>-<mo>-<d>T<h>:<mi>:<s>Z`.
pub open spec fn stamp_text(
    y: Seq<char>,
    mo: Seq<char>,
    d: Seq<char>,
    h: Seq<char>,
    mi: Seq<char>,
    s: Seq<char>,
) -> Seq<char> {
    y + seq!['-'] + mo + seq!['-'] + d + seq!['T'] + h + seq![':'] + mi + seq![':'] + s + seq!['Z']
}

proof fn lemma_digits_are_no_separators(s: Seq<char>, sep: char)
    requires
        text::all_digits(s),
        !text::is_digit(sep),
    ensures
        forall|j: int| 0 <= j < s.len() ==> !seq![sep].contains(#[trigger] s[j]),
{
    assert forall|j: int| 0 <= j < s.len() implies !seq![sep].contains(#[trigger] s[j]) by {
        assert(text::is_digit(s[j]));
    }
}

proof fn lemma_three_runs(a: Seq<char>, b: Seq<char>, c: Seq<char>, sep: char)
    requires
        text::all_digits(a),
        text::all_digits(b),
        text::all_digits(c),
        !text::is_digit(sep),
    ensures
        text::pieces(a + seq![sep] + (b + seq![sep] + c), seq![sep]) == seq![a, b, c],
{
    let seps = seq![sep];
    assert(seps[0] == sep);
    lemma_digits_are_no_separators(a, sep);
    lemma_digits_are_no_separators(b, sep);
    lemma_digits_are_no_separators(c, sep);
    text::lemma_pieces_cons(a, sep, b + seq![sep] + c, seps);
    text::lemma_pieces_cons(b, sep, c, seps);
    text::lemma_pieces_single(c, seps);
    assert(text::pieces(a + seq![sep] + (b + seq![sep] + c), seq![sep]) =~= seq![a, b, c]);
}

proof fn lemma_run_is_number(s: Seq<char>, max: nat)
    requires
        s.len() > 0,
        text::all_digits(s),
    ensures
        text::number(s, max) == (if text::digits_value(s) <= max {
            Some(text::digits_value(s))
        } else {
            None
        }),
{
    assert(text::is_digit(s[0]));
}

/// A timestamp of six runs of digits means what its fields say: the day number
/// of its date times the seconds of a day, and the seconds of its hours,
/// minutes and seconds. It has no meaning if a field is out of range or the
/// date is before 1970.
pub proof fn timestamps_mean_their_fields(
    y: Seq<char>,
    mo: Seq<char>,
    d: Seq<char>,
    h: Seq<char>,
    mi: Seq<char>,
    s: Seq<char>,
)
    requires
        y.len() > 0 && text::all_digits(y),
        mo.len() > 0 && text::all_digits(mo),
        d.len() > 0 && text::all_digits(d),
        h.len() > 0 && text::all_digits(h),
        mi.len() > 0 && text::all_digits(mi),
        s.len() > 0 && text::all_digits(s),
    ensures
        ({
            let year = text::digits_value(y) as int;
            let month = text::digits_value(mo) as int;
            let day = text::digits_value(d) as int;
            let hour = text::digits_value(h) as int;
            let minute = text::digits_value(mi) as int;
            let second = text::digits_value(s) as int;
            let days = calendar::day_number(year, month, day);
            if year <= 2_147_483_647 && 1 <= month <= 12 && 1 <= day <= 31 && hour < 24 && minute
                < 60 && second <= 60 && days >= 0 {
                cooldown::rfc3339z(stamp_text(y, mo, d, h, mi, s)) == Some(
                    (days * 86_400 + hour * 3_600 + minute * 60 + second) as nat,
                )
            } else {
                cooldown::rfc3339z(stamp_text(y, mo, d, h, mi, s)) is None
            }
        }),
{
    let stamp = stamp_text(y, mo, d, h, mi, s);
    let date = y + seq!['-'] + (mo + seq!['-'] + d);
    let time = h + seq![':'] + (mi + seq![':'] + s);
    let body = stamp.drop_last();
    assert(stamp.last() == 'Z');
    assert(body =~= date + seq!['T'] + time);
    let t = date.len() as int;
    let seps = seq!['T'];
    assert(seps[0] == 'T');
    assert forall|j: int| 0 <= j < t implies !seps.contains(#[trigger] body[j]) by {
        assert(body[j] == date[j]);
        if j < y.len() {
            assert(text::is_digit(y[j]));
        } else if j == y.len() {
        } else if j < y.len() + 1 + mo.len() {
            assert(text::is_digit(mo[j - y.len() - 1]));
        } else if j == y.len() + 1 + mo.len() {
        } else {
            assert(text::is_digit(d[j - y.len() - mo.len() - 2]));
        }
    }
    assert(body[t] == 'T');
    text::lemma_sep_index_is(body, seps, t);
    assert(body.take(t) =~= date);
    assert(body.skip(t + 1) =~= time);
    lemma_three_runs(y, mo, d, '-');
    lemma_three_runs(h, mi, s, ':');
    lemma_digits_are_no_separators(s, '.');
    text::lemma_pieces_single(s, seq!['.']);
    assert(text::pieces(s, seq!['.'])[0] == s);
    lemma_run_is_number(y, i32::MAX as nat);
    lemma_run_is_number(mo, u32::MAX as nat);
    lemma_run_is_number(d, u32::MAX as nat);
    lemma_run_is_number(h, u64::MAX as nat);
    lemma_run_is_number(mi, u64::MAX as nat);
    lemma_run_is_number(s, u64::MAX as nat);
}

proof fn lemma_two_digits(n: int)
    requires
        0 <= n < 100,
    ensures
        text::all_digits(seq![text::digit_char(n / 10), text::digit_char(n % 10)]),
        text::digits_value(seq![text::digit_char(n / 10), text::digit_char(n % 10)]) == n,
{
    let e = Seq::<char>::empty();
    let one = e.push(text::digit_char(n / 10));
    let two = one.push(text::digit_char(n % 10));
    text::digits_by_value(n / 10);
    text::digits_by_value(n % 10);
    text::digits_count_in_tens(e, 0, n / 10);
    text::digits_count_in_tens(one, 0, n % 10);
    assert(two =~= seq![text::digit_char(n / 10), text::digit_char(n % 10)]);
}

proof fn lemma_four_digits(n: int)
    requires
        0 <= n < 10_000,
    ensures
        ({
            let s = seq![
                text::digit_char(n / 1000),
                text::digit_char(n / 100 % 10),
                text::digit_char(n / 10 % 10),
                text::digit_char(n % 10),
            ];
            text::all_digits(s) && text::digits_value(s) == n
        }),
{
    let high = seq![text::digit_char(n / 100 / 10), text::digit_char(n / 100 % 10)];
    let three = high.push(text::digit_char(n / 10 % 10));
    let s = three.push(text::digit_char(n % 10));
    assert(n / 100 / 10 == n / 1000);
    lemma_two_digits(n / 100);
    text::digits_by_value(n / 10 % 10);
    text::digits_by_value(n % 10);
    text::digits_count_in_tens(high, 0, n / 10 % 10);
    text::digits_count_in_tens(three, 0, n % 10);
    assert forall|i: int| 0 <= i < s.len() implies text::is_digit(#[trigger] s[i]) by {
        if i < 2 {
            assert(s[i] == high[i]);
        }
    }
    assert(s =~= seq![
        text::digit_char(n / 1000),
        text::digit_char(n / 100 % 10),
        text::digit_char(n / 10 % 10),
        text::digit_char(n % 10),
    ]);
}

/// A number below 100 in two digits.
pub open spec fn two_digits(n: int) -> Seq<char> {
    seq![text::digit_char(n / 10), text::digit_char(n % 10)]
}

/// A year in four digits, or in more where it needs them.
pub open spec fn year_digits(y: int) -> Seq<char> {
    if y < 10_000 {
        seq![
            text::digit_char(y / 1000),
            text::digit_char(y / 100 % 10),
            text::digit_char(y / 10 % 10),
            text::digit_char(y % 10),
        ]
    } else {
        text::decimal(y as nat)
    }
}

/// Every moment from 1970 on is read as written: the text
/// `YYYY-MM-DDThh:mm:ssZ` of a date of the calendar and a time of the day is
/// that many seconds after 1970.
pub proof fn written_moments_are_read(y: int, m: int, d: int, h: int, mi: int, s: int)
    requires
        1970 <= y <= 2_147_483_647,
        calendar::valid_date(y, m, d),
        0 <= h < 24,
        0 <= mi < 60,
        0 <= s < 60,
    ensures
        calendar::day_number(y, m, d) >= 0,
        cooldown::rfc3339z(
            stamp_text(
                year_digits(y),
                two_digits(m),
                two_digits(d),
                two_digits(h),
                two_digits(mi),
                two_digits(s),
            ),
        ) == Some(
            (calendar::day_number(y, m, d) * 86_400 + h * 3_600 + mi * 60 + s) as nat,
        ),
{
    if y < 10_000 {
        lemma_four_digits(y);
    } else {
        text::lemma_decimal(y as nat);
    }
    lemma_two_digits(m);
    lemma_two_digits(d);
    lemma_two_digits(h);
    lemma_two_digits(mi);
    lemma_two_digits(s);
    calendar::days_are_counted_from_the_epoch(y, m, d);
    timestamps_mean_their_fields(
        year_digits(y),
        two_digits(m),
        two_digits(d),
        two_digits(h),
        two_digits(mi),
        two_digits(s),
    );
}

proof fn lemma_fields_joined(
    a: Seq<char>,
    b: Seq<char>,
    c: Seq<char>,
    d: Seq<char>,
    e: Seq<char>,
    f: Seq<char>,
    g: Seq<char>,
)
    ensures
        (a + seq!['-'] + b + seq!['-'] + c) + seq!['T'] + (d + seq![':'] + e + seq![':'] + (f + g))
            + seq!['Z'] == a + seq!['-'] + b + seq!['-'] + c + seq!['T'] + d + seq![':'] + e
            + seq![':'] + f + g + seq!['Z'],
{
    let date = a + seq!['-'] + b + seq!['-'] + c + seq!['T'];
    let time = d + seq![':'] + e + seq![':'];
    assert(date + (time + (f + g)) =~= date + time + f + g);
    assert(date + time =~= date + d + seq![':'] + e + seq![':']);
}

/// The parts of a readable timestamp: date and time before and behind the `T`,
/// and the seconds before the fraction.
proof fn lemma_readable_parts(stamp: Seq<char>) -> (r: (
    Seq<Seq<char>>,
    Seq<Seq<char>>,
    Seq<char>,
    Seq<char>,
))
    requires
        cooldown::rfc3339z(stamp) is Some,
    ensures
        r.0.len() == 3,
        r.1.len() == 3,
        r.1[2] == r.2 + r.3,
        r.2 == text::pieces(r.1[2], seq!['.'])[0],
        r.3.len() == 0 || r.3[0] == '.',
        stamp == (r.0[0] + seq!['-'] + r.0[1] + seq!['-'] + r.0[2]) + seq!['T'] + (r.1[0]
            + seq![':'] + r.1[1] + seq![':'] + (r.2 + r.3)) + seq!['Z'],
        cooldown::rfc3339z(stamp) == cooldown::civil_secs(r.0, r.1),
{
    let body = stamp.drop_last();
    let seps = seq!['T'];
    text::lemma_sep_index(body, seps);
    let t = text::sep_index(body, seps) as int;
    let left = body.take(t);
    let right = body.skip(t + 1);
    let date = text::pieces(left, seq!['-']);
    let time = text::pieces(right, seq![':']);
    assert(body[t] == 'T');
    assert(body =~= left + seq!['T'] + right);
    assert(stamp =~= body + seq!['Z']);
    text::lemma_three_pieces(left, '-');
    text::lemma_three_pieces(right, ':');
    let dots = seq!['.'];
    text::lemma_sep_index(time[2], dots);
    let k = text::sep_index(time[2], dots) as int;
    let whole = text::pieces(time[2], dots)[0];
    let fraction = time[2].skip(k);
    assert(whole =~= time[2].take(k));
    assert(time[2] =~= whole + fraction);
    (date, time, whole, fraction)
}

/// Nothing else is read: a text with a time is made of six numbers with `-`,
/// `-`, `T`, `:` and `:` between them, a fraction that starts with a dot or
/// nothing, and a `Z`; every number is in its range, and the time is that of
/// the numbers. The result holds the texts of the six numbers and of the
/// fraction.
pub proof fn readable_timestamps_have_their_shape(stamp: Seq<char>) -> (r: (
    Seq<char>,
    Seq<char>,
    Seq<char>,
    Seq<char>,
    Seq<char>,
    Seq<char>,
    Seq<char>,
))
    requires
        cooldown::rfc3339z(stamp) is Some,
    ensures
        r.6.len() == 0 || r.6[0] == '.',
        stamp == r.0 + seq!['-'] + r.1 + seq!['-'] + r.2 + seq!['T'] + r.3 + seq![':'] + r.4
            + seq![':'] + r.5 + r.6 + seq!['Z'],
        ({
            let y = text::number(r.0, 2_147_483_647);
            let mo = text::number(r.1, 12);
            let d = text::number(r.2, 31);
            let h = text::number(r.3, 23);
            let mi = text::number(r.4, 59);
            let s = text::number(r.5, 60);
            &&& y is Some && mo is Some && d is Some && h is Some && mi is Some && s is Some
            &&& mo->0 >= 1 && d->0 >= 1
            &&& cooldown::rfc3339z(stamp)->0 == calendar::day_number(
                y->0 as int,
                mo->0 as int,
                d->0 as int,
            ) * 86_400 + h->0 * 3_600 + mi->0 * 60 + s->0
        }),
{
    let (date, time, whole, fraction) = lemma_readable_parts(stamp);
    lemma_fields_joined(date[0], date[1], date[2], time[0], time[1], whole, fraction);
    (date[0], date[1], date[2], time[0], time[1], whole, fraction)
}

// The publication time of an index line.

/// A line without a `"pubtime"` has no publication time.
pub proof fn lines_without_the_key_have_no_time(line: Seq<char>)
    requires
        !text::contains(line, "\"pubtime\""@),
    ensures
        cooldown::pubtime(line) is None,
{
    reveal_strlit("\"pubtime\"");
    assert(cooldown::pubtime_key() =~= "\"pubtime\""@);
    text::lemma_first_at(line, cooldown::pubtime_key(), 0);
    if text::first_at(line, cooldown::pubtime_key(), 0) is Some {
        let i = text::first_at(line, cooldown::pubtime_key(), 0)->0;
        assert(text::occurs_at(line, "\"pubtime\""@, i));
    }
}

/// The first `"pubtime"` of a line that a colon follows, white space aside,
/// decides: a string value behind the colon is read as a timestamp, and any
/// other value, or a string that does not end, is no time.
pub proof fn the_first_key_gives_the_time(
    head: Seq<char>,
    before: Seq<char>,
    after: Seq<char>,
    value: Seq<char>,
    stamp: Seq<char>,
    tail: Seq<char>,
)
    requires
        !text::contains(head.push('"'), "\"pubtime\""@),
        forall|i: int| 0 <= i < before.len() ==> text::is_space(#[trigger] before[i]),
        forall|i: int| 0 <= i < after.len() ==> text::is_space(#[trigger] after[i]),
        value.len() > 0 ==> !text::is_space(value[0]),
    ensures
        ({
            let line = head + "\"pubtime\""@ + before + seq![':'] + after + value;
            &&& value == seq!['"'] + stamp + seq!['"'] + tail && !stamp.contains('"')
                ==> cooldown::pubtime(line) == cooldown::rfc3339z(stamp)
            &&& value.len() == 0 || value[0] != '"' ==> cooldown::pubtime(line) is None
            &&& value == seq!['"'] + stamp && !stamp.contains('"') ==> cooldown::pubtime(line)
                is None
        }),
{
    reveal_strlit("\"pubtime\"");
    let key = cooldown::pubtime_key();
    assert(key =~= "\"pubtime\""@);
    let line = head + "\"pubtime\""@ + before + seq![':'] + after + value;
    let behind = seq![':'] + (after + value);
    let rest = before + behind;
    assert(line =~= head + key + rest);
    cooldown::lemma_word_is_found(head, key, rest, '"');
    assert(line.skip(head.len() as int + key.len()) =~= rest);
    assert(behind[0] == ':');
    text::lemma_trimmed_start_is(before, behind);
    assert(behind.drop_first() =~= after + value);
    text::lemma_trimmed_start_is(after, value);
    assert(cooldown::pubtime(line) == cooldown::quoted_time(value));
    if value == seq!['"'] + stamp + seq!['"'] + tail && !stamp.contains('"') {
        assert(value =~= seq!['"'] + (stamp + seq!['"'] + tail));
        cooldown::lemma_quoted_time_is_read(stamp, tail);
    }
    if value == seq!['"'] + stamp && !stamp.contains('"') {
        assert(value.drop_first() =~= stamp);
        assert forall|j: int| 0 <= j < stamp.len() implies !seq!['"'].contains(
            #[trigger] stamp[j],
        ) by {
            assert(stamp.contains(stamp[j]));
        }
        text::lemma_sep_index_is(stamp, seq!['"'], stamp.len() as int);
    }
}

/// A `"pubtime"` that no colon follows is a value and no key: the search goes
/// on behind it.
pub proof fn values_are_no_keys(head: Seq<char>, before: Seq<char>, rest: Seq<char>)
    requires
        !text::contains(head.push('"'), "\"pubtime\""@),
        forall|i: int| 0 <= i < before.len() ==> text::is_space(#[trigger] before[i]),
        rest.len() > 0 ==> !text::is_space(rest[0]) && rest[0] != ':',
    ensures
        cooldown::pubtime(head + "\"pubtime\""@ + before + rest) == cooldown::pubtime(
            before + rest,
        ),
{
    reveal_strlit("\"pubtime\"");
    let key = cooldown::pubtime_key();
    assert(key =~= "\"pubtime\""@);
    let line = head + "\"pubtime\""@ + before + rest;
    let behind = before + rest;
    assert(line =~= head + key + behind);
    cooldown::lemma_word_is_found(head, key, behind, '"');
    assert(line.skip(head.len() as int + key.len()) =~= behind);
    text::lemma_trimmed_start_is(before, rest);
}

// The filter, line by line.

proof fn lemma_line_time(line: Seq<char>)
    requires
        !line.contains('\n'),
    ensures
        cooldown::pubtime(lines::without_eol(line.push('\n'))) == cooldown::pubtime(line),
        cooldown::pubtime(lines::without_eol(line)) == cooldown::pubtime(line),
        cooldown::pubtime(lines::line_text(line.push('\n'))) == cooldown::pubtime(line),
        lines::line_text(line) == line,
        lines::line_text(line.push('\n')) == line || lines::line_text(line.push('\n')).push('\r')
            == line,
{
    lines::bodies_are_cut_behind_line_feeds(line, Seq::empty());
    let ended = line.push('\n');
    cooldown::lemma_shown_pubtime(ended);
    assert(ended.drop_last() =~= line);
    if line.len() > 0 {
        assert(line.contains(line.last()));
        cooldown::lemma_shown_pubtime(line);
        if line.last() == '\r' {
            assert(line =~= line.drop_last().push('\r'));
            cooldown::trailing_return_is_ignored(line.drop_last());
        }
    } else {
        assert(lines::without_eol(line) == line);
    }
}

/// The filter takes a body line by line: a line goes if and only if it has a
/// publication time after the cutoff, whole and with its line feed, and every
/// other line stays as it is. A carriage return before the line feed has no
/// effect on this.
pub proof fn bodies_are_filtered_line_by_line(line: Seq<char>, rest: Seq<char>, cutoff: u64)
    requires
        !line.contains('\n'),
    ensures
        ({
            let new = cooldown::pubtime(line) is Some && cooldown::pubtime(line)->0 > cutoff;
            &&& cooldown::gated(line + seq!['\n'] + rest, cutoff) == (if new {
                cooldown::gated(rest, cutoff)
            } else {
                line + seq!['\n'] + cooldown::gated(rest, cutoff)
            })
            &&& cooldown::gated(line, cutoff) == (if new {
                Seq::<char>::empty()
            } else {
                line
            })
        }),
{
    lines::bodies_are_cut_behind_line_feeds(line, rest);
    lemma_line_time(line);
    let ended = line.push('\n');
    let body = line + seq!['\n'] + rest;
    lines::lemma_first_line_is(ended, rest);
    assert(body =~= ended + rest);
    cooldown::lemma_gated_step(body, cutoff);
    if cooldown::too_new(ended, cutoff) {
        assert(cooldown::gated(body, cutoff) =~= cooldown::gated(rest, cutoff));
    } else {
        assert(cooldown::gated(body, cutoff) =~= line + seq!['\n'] + cooldown::gated(rest, cutoff));
    }
    let none = Seq::<char>::empty();
    assert(cooldown::gated(none, cutoff) =~= none);
    if line.len() > 0 {
        assert(line + none =~= line);
        lines::lemma_first_line_is(line, none);
        cooldown::lemma_gated_step(line, cutoff);
        if cooldown::too_new(line, cutoff) {
            assert(cooldown::gated(line, cutoff) =~= none);
        } else {
            assert(cooldown::gated(line, cutoff) =~= line);
        }
    } else {
        assert(line =~= none);
    }
}

/// Index data is filtered as the text that it encodes; data that encodes no
/// text stays as it is.
pub proof fn data_is_filtered_as_its_text(body: Seq<char>, data: Seq<u8>, cutoff: u64)
    ensures
        cooldown::gated_data(encode_utf8(body), cutoff) == encode_utf8(
            cooldown::gated(body, cutoff),
        ),
        !valid_utf8(data) ==> cooldown::gated_data(data, cutoff) == data,
{
    encode_utf8_valid_utf8(body);
    encode_utf8_decode_utf8(body);
}

proof fn lemma_field_before_return(s: Seq<char>, needle: Seq<char>)
    requires
        needle.len() > 0,
        needle.last() != '\r',
    ensures
        text::contains(s.push('\r'), needle) == text::contains(s, needle),
{
    let long = s.push('\r');
    if text::contains(s, needle) {
        let i = choose|i: int| text::occurs_at(s, needle, i);
        assert(long.subrange(i, i + needle.len()) =~= s.subrange(i, i + needle.len()));
        assert(text::occurs_at(long, needle, i));
    }
    if text::contains(long, needle) {
        let i = choose|i: int| text::occurs_at(long, needle, i);
        let found = long.subrange(i, i + needle.len());
        if i + needle.len() == long.len() {
            assert(found.last() == long.last());
        } else {
            assert(found =~= s.subrange(i, i + needle.len()));
            assert(text::occurs_at(s, needle, i));
        }
    }
}

/// The publication time of a version is that of the first line that holds
/// `"vers":"<version>"`, whether or not the line has one.
pub proof fn versions_are_looked_up_line_by_line(
    line: Seq<char>,
    rest: Seq<char>,
    version: Seq<char>,
)
    requires
        !line.contains('\n'),
    ensures
        ({
            let found = text::contains(line, "\"vers\":\""@ + version + "\""@);
            &&& cooldown::version_time(line + seq!['\n'] + rest, version) == (if found {
                cooldown::pubtime(line)
            } else {
                cooldown::version_time(rest, version)
            })
            &&& cooldown::version_time(line, version) == (if found {
                cooldown::pubtime(line)
            } else {
                None
            })
        }),
{
    reveal_strlit("\"vers\":\"");
    reveal_strlit("\"");
    let needle = cooldown::version_field(version);
    assert(needle == "\"vers\":\""@ + version + "\""@);
    assert(needle.last() == '"');
    lines::bodies_are_cut_behind_line_feeds(line, rest);
    lemma_line_time(line);
    let ended = line.push('\n');
    let body = line + seq!['\n'] + rest;
    let shown = lines::line_text(ended);
    if shown != line {
        lemma_field_before_return(shown, needle);
    }
    assert(text::contains(shown, needle) == text::contains(line, needle));
    assert(lines::lines(body).drop_first() =~= lines::lines(rest));
    assert(lines::lines(body)[0] == ended);
    if line.len() > 0 {
        assert(seq![line].drop_first() =~= Seq::<Seq<char>>::empty());
        assert(seq![line][0] == line);
        reveal_with_fuel(cooldown::line_with, 2);
    } else {
        assert(line =~= Seq::<char>::empty());
        if text::contains(line, needle) {
            let i = choose|i: int| text::occurs_at(line, needle, i);
            assert(i + needle.len() <= 0);
        }
    }
}

// Durations.

proof fn lemma_written_duration(digits: Seq<char>, unit: char, factor: nat)
    requires
        digits.len() > 0,
        text::all_digits(digits),
        (unit as u32) < 0x80,
        !text::is_digit(unit),
        !text::is_space(unit),
        cooldown::unit_secs(unit as u8) == Some(factor),
    ensures
        cooldown::trimmed_duration_secs(digits.push(unit)) == (if text::digits_value(digits)
            <= u64::MAX && text::digits_value(digits) * factor <= u64::MAX {
            Ok::<nat, Seq<char>>(text::digits_value(digits) * factor)
        } else {
            cooldown::trimmed_duration_secs(digits.push(unit))
        }),
        !(text::digits_value(digits) <= u64::MAX && text::digits_value(digits) * factor
            <= u64::MAX) ==> cooldown::trimmed_duration_secs(digits.push(unit)) is Err,
{
    let s = digits.push(unit);
    lemma_run_is_number(digits, u64::MAX as nat);
    assert(s.drop_last() =~= digits);
    text::lemma_encode_last(s);
    assert(s.last() == unit);
    assert(encode_utf8(s).last() == unit as u8);
}

/// A duration is a run of digits and a unit letter (or none, for seconds),
/// with white space around it or not: `s` counts seconds, `m` minutes of 60,
/// `h` hours of 3600, `d` days of 86400 and `w` weeks of 604800 of them. One
/// that does not fit in 64 bits is an error.
pub proof fn durations_count_their_units(before: Seq<char>, digits: Seq<char>, after: Seq<char>)
    requires
        digits.len() > 0,
        text::all_digits(digits),
        forall|i: int| 0 <= i < before.len() ==> text::is_space(#[trigger] before[i]),
        forall|i: int| 0 <= i < after.len() ==> text::is_space(#[trigger] after[i]),
    ensures
        ({
            let n = text::digits_value(digits);
            let bare = cooldown::duration_secs(before + digits + after);
            let s = cooldown::duration_secs(before + digits.push('s') + after);
            let m = cooldown::duration_secs(before + digits.push('m') + after);
            let h = cooldown::duration_secs(before + digits.push('h') + after);
            let d = cooldown::duration_secs(before + digits.push('d') + after);
            let w = cooldown::duration_secs(before + digits.push('w') + after);
            &&& if n <= u64::MAX {
                bare == Ok::<nat, Seq<char>>(n) && s == Ok::<nat, Seq<char>>(n)
            } else {
                bare is Err && s is Err
            }
            &&& if n * 60 <= u64::MAX {
                m == Ok::<nat, Seq<char>>(n * 60)
            } else {
                m is Err
            }
            &&& if n * 3600 <= u64::MAX {
                h == Ok::<nat, Seq<char>>(n * 3600)
            } else {
                h is Err
            }
            &&& if n * 86400 <= u64::MAX {
                d == Ok::<nat, Seq<char>>(n * 86400)
            } else {
                d is Err
            }
            &&& if n * 604800 <= u64::MAX {
                w == Ok::<nat, Seq<char>>(n * 604800)
            } else {
                w is Err
            }
        }),
{
    assert(text::is_digit(digits[0]));
    assert(text::is_digit(digits.last()));
    text::trimming_takes_off_white_space(before, digits, after);
    text::trimming_takes_off_white_space(before, digits.push('s'), after);
    text::trimming_takes_off_white_space(before, digits.push('m'), after);
    text::trimming_takes_off_white_space(before, digits.push('h'), after);
    text::trimming_takes_off_white_space(before, digits.push('d'), after);
    text::trimming_takes_off_white_space(before, digits.push('w'), after);
    lemma_run_is_number(digits, u64::MAX as nat);
    lemma_written_duration(digits, 's', 1);
    lemma_written_duration(digits, 'm', 60);
    lemma_written_duration(digits, 'h', 3_600);
    lemma_written_duration(digits, 'd', 86_400);
    lemma_written_duration(digits, 'w', 604_800);
}

/// No other text is a duration: one that is read is, white space aside, a
/// number and then nothing or one of the five unit letters.
pub proof fn readable_durations_have_their_shape(s: Seq<char>)
    requires
        cooldown::duration_secs(s) is Ok,
    ensures
        ({
            let t = text::trimmed(s);
            let secs = cooldown::duration_secs(s)->Ok_0;
            let unit = t.last();
            let number = text::number(t.drop_last(), u64::MAX as nat);
            &&& t.len() > 0
            &&& secs <= u64::MAX
            &&& text::number(t, u64::MAX as nat) == Some(secs) || (number is Some && ((unit == 's'
                && secs == number->0) || (unit == 'm' && secs == number->0 * 60) || (unit == 'h'
                && secs == number->0 * 3600) || (unit == 'd' && secs == number->0 * 86400) || (unit
                == 'w' && secs == number->0 * 604800)))
        }),
{
    let t = text::trimmed(s);
    if t.len() > 0 && !text::is_digit(t.last()) {
        text::lemma_encode_last(t);
        lemma_code_of(t.last());
        let factor = cooldown::unit_secs(encode_utf8(t).last());
        let number = text::number(t.drop_last(), u64::MAX as nat);
        assert(factor is Some && number is Some);
        assert(cooldown::duration_secs(s) == Ok::<nat, Seq<char>>(number->0 * factor->0));
        assert(factor->0 == 1 ==> number->0 * factor->0 == number->0);
    }
}

proof fn lemma_code_of(c: char)
    ensures
        c as u32 == 115 ==> c == 's',
        c as u32 == 109 ==> c == 'm',
        c as u32 == 104 ==> c == 'h',
        c as u32 == 100 ==> c == 'd',
        c as u32 == 119 ==> c == 'w',
{
}

/// What is said of a text that is no duration: that it is empty, that its
/// unit is none, that its number is none, or that it is too large.
pub proof fn refused_durations_say_why(s: Seq<char>)
    ensures
        ({
            let t = text::trimmed(s);
            let e = cooldown::duration_secs(s)->Err_0;
            let unit = t.last();
            let known = text::is_digit(unit) || unit == 's' || unit == 'm' || unit == 'h' || unit
                == 'd' || unit == 'w';
            let digits = if text::is_digit(unit) {
                t
            } else {
                t.drop_last()
            };
            &&& t.len() == 0 ==> cooldown::duration_secs(s) == Err::<nat, Seq<char>>(
                "empty duration"@,
            )
            &&& t.len() > 0 && !known ==> cooldown::duration_secs(s) == Err::<nat, Seq<char>>(
                "invalid duration unit '"@ + seq![encode_utf8(t).last() as char] + "' in '"@ + t
                    + "' (use s, m, h, d, or w)"@,
            )
            &&& t.len() > 0 && known && text::number(digits, u64::MAX as nat) is None
                ==> cooldown::duration_secs(s) == Err::<nat, Seq<char>>(
                "invalid duration value in '"@ + t + "'"@,
            )
            &&& t.len() > 0 && known && text::number(digits, u64::MAX as nat) is Some
                && cooldown::duration_secs(s) is Err ==> e == "duration '"@ + t + "' is too large"@
        }),
{
    let t = text::trimmed(s);
    if t.len() > 0 && !text::is_digit(t.last()) {
        text::lemma_encode_last(t);
        lemma_code_of(t.last());
    }
}

// Cutoffs.

/// The cutoff is the window before the present, or zero where the window is
/// longer than the clock has run; without a window there is none.
pub proof fn cutoffs_are_one_window_back(now: u64, window: u64)
    ensures
        cooldown::cutoff_at(now, 0) is None,
        0 < window <= now ==> cooldown::cutoff_at(now, window) == Some((now - window) as u64),
        window > now ==> cooldown::cutoff_at(now, window) == Some(0u64),
{
}

} // verus!
