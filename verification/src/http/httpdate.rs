//! HTTP dates in the fixed-length form of RFC 9110, such as
//! `Sun, 06 Nov 1994 08:49:37 GMT`.

use vstd::prelude::*;
use vstd::utf8::*;

use crate::calendar;
use crate::calendar::{civil_from_days, days_since_epoch};
use crate::text;
use crate::text::{same_chars, to_chars, trim};
use crate::time::{Timestamp, SECS_PER_DAY, TIMESTAMP_END};

verus! {

/// The three-letter name of a weekday, counted from Sunday.
pub open spec fn weekday_name(w: int) -> (char, char, char) {
    if w == 0 {
        ('S', 'u', 'n')
    } else if w == 1 {
        ('M', 'o', 'n')
    } else if w == 2 {
        ('T', 'u', 'e')
    } else if w == 3 {
        ('W', 'e', 'd')
    } else if w == 4 {
        ('T', 'h', 'u')
    } else if w == 5 {
        ('F', 'r', 'i')
    } else {
        ('S', 'a', 't')
    }
}

/// The three-letter name of a month, counted from one.
pub open spec fn month_name(m: int) -> (char, char, char) {
    if m == 1 {
        ('J', 'a', 'n')
    } else if m == 2 {
        ('F', 'e', 'b')
    } else if m == 3 {
        ('M', 'a', 'r')
    } else if m == 4 {
        ('A', 'p', 'r')
    } else if m == 5 {
        ('M', 'a', 'y')
    } else if m == 6 {
        ('J', 'u', 'n')
    } else if m == 7 {
        ('J', 'u', 'l')
    } else if m == 8 {
        ('A', 'u', 'g')
    } else if m == 9 {
        ('S', 'e', 'p')
    } else if m == 10 {
        ('O', 'c', 't')
    } else if m == 11 {
        ('N', 'o', 'v')
    } else {
        ('D', 'e', 'c')
    }
}

/// The weekday of a day number, counted from Sunday: 1 January 1970 was a
/// Thursday.
pub open spec fn weekday_of(days: int) -> int {
    (days + 4) % 7
}

/// The HTTP date of a second, counted from 1970-01-01 in UTC.
#[verifier::opaque]
pub open spec fn http_date(secs: int) -> Seq<char> {
    let days = secs / 86_400;
    let rest = secs % 86_400;
    let (y, m, d) = calendar::date_of(days);
    let w = weekday_name(weekday_of(days));
    let mon = month_name(m);
    seq![
        w.0,
        w.1,
        w.2,
        ',',
        ' ',
        text::digit_char(d / 10),
        text::digit_char(d % 10),
        ' ',
        mon.0,
        mon.1,
        mon.2,
        ' ',
        text::digit_char(y / 100 / 10),
        text::digit_char(y / 100 % 10),
        text::digit_char(y % 100 / 10),
        text::digit_char(y % 100 % 10),
        ' ',
        text::digit_char(rest / 3600 / 10),
        text::digit_char(rest / 3600 % 10),
        ':',
        text::digit_char(rest / 60 % 60 / 10),
        text::digit_char(rest / 60 % 60 % 10),
        ':',
        text::digit_char(rest % 60 / 10),
        text::digit_char(rest % 60 % 10),
        ' ',
        'G',
        'M',
        'T',
    ]
}

/// Seconds that an HTTP date can write.
pub open spec fn in_range(secs: int) -> bool {
    0 <= secs < TIMESTAMP_END
}

/// `s` is the HTTP date of a second, white space around it aside.
pub open spec fn is_http_date_of(s: Seq<char>, secs: int) -> bool {
    in_range(secs) && is_ascii_chars(s) && text::trimmed(s) == http_date(secs)
}

/// The second that an HTTP date writes.
pub open spec fn http_time(s: Seq<char>) -> Option<int> {
    if exists|secs: int| is_http_date_of(s, secs) {
        Some(choose|secs: int| is_http_date_of(s, secs))
    } else {
        None
    }
}

/// The fields of an HTTP date can be read off it.
proof fn lemma_fields(secs: int)
    requires
        in_range(secs),
    ensures
        ({
            let (y, m, d) = calendar::date_of(secs / 86_400);
            let t = http_date(secs);
            &&& calendar::valid_date(y, m, d)
            &&& calendar::day_number(y, m, d) == secs / 86_400
            &&& 1970 <= y <= 9999
            &&& t.len() == 29
            &&& t[5] == text::digit_char(d / 10)
            &&& t[6] == text::digit_char(d % 10)
            &&& (t[8], t[9], t[10]) == month_name(m)
            &&& t[12] == text::digit_char(y / 100 / 10)
            &&& t[13] == text::digit_char(y / 100 % 10)
            &&& t[14] == text::digit_char(y % 100 / 10)
            &&& t[15] == text::digit_char(y % 100 % 10)
            &&& t[17] == text::digit_char(secs % 86_400 / 3600 / 10)
            &&& t[18] == text::digit_char(secs % 86_400 / 3600 % 10)
            &&& t[20] == text::digit_char(secs % 86_400 / 60 % 60 / 10)
            &&& t[21] == text::digit_char(secs % 86_400 / 60 % 60 % 10)
            &&& t[23] == text::digit_char(secs % 86_400 % 60 / 10)
            &&& t[24] == text::digit_char(secs % 86_400 % 60 % 10)
            &&& !text::is_space(t[0])
            &&& !text::is_space(t.last())
        }),
{
    reveal(http_date);
    calendar::every_day_has_a_date(secs / 86_400);
}

/// A digit character determines its digit.
proof fn lemma_digit_char(a: int, b: int)
    requires
        0 <= a < 10,
        0 <= b < 10,
        text::digit_char(a) == text::digit_char(b),
    ensures
        a == b,
{
    assert(text::digit_char(a) as u32 == 48 + a);
    assert(text::digit_char(b) as u32 == 48 + b);
}

proof fn lemma_month_name(a: int, b: int)
    requires
        1 <= a <= 12,
        1 <= b <= 12,
        month_name(a) == month_name(b),
    ensures
        a == b,
{
}

proof fn lemma_two_digits(a: int, b: int)
    requires
        0 <= a < 100,
        0 <= b < 100,
        text::digit_char(a / 10) == text::digit_char(b / 10),
        text::digit_char(a % 10) == text::digit_char(b % 10),
    ensures
        a == b,
{
    lemma_digit_char(a / 10, b / 10);
    lemma_digit_char(a % 10, b % 10);
}

/// A second of the day in terms of its clock reading.
proof fn lemma_clock(r: int)
    requires
        0 <= r < 86_400,
    ensures
        r == r / 3600 * 3600 + r / 60 % 60 * 60 + r % 60,
        0 <= r / 3600 < 24,
        0 <= r / 60 % 60 < 60,
        0 <= r % 60 < 60,
{
}

/// Different seconds have different HTTP dates.
pub proof fn http_date_determines_second(a: int, b: int)
    requires
        in_range(a),
        in_range(b),
        http_date(a) == http_date(b),
    ensures
        a == b,
{
    lemma_fields(a);
    lemma_fields(b);
    let (y1, m1, d1) = calendar::date_of(a / 86_400);
    let (y2, m2, d2) = calendar::date_of(b / 86_400);
    let (r1, r2) = (a % 86_400, b % 86_400);
    assert(r1 == r2) by {
        lemma_clock(r1);
        lemma_clock(r2);
        lemma_two_digits(r1 / 3600, r2 / 3600);
        lemma_two_digits(r1 / 60 % 60, r2 / 60 % 60);
        lemma_two_digits(r1 % 60, r2 % 60);
    }
    assert(a / 86_400 == b / 86_400) by {
        lemma_two_digits(d1, d2);
        lemma_month_name(m1, m2);
        lemma_two_digits(y1 / 100, y2 / 100);
        lemma_two_digits(y1 % 100, y2 % 100);
    }
}

proof fn lemma_http_date_is_ascii(secs: int)
    requires
        in_range(secs),
    ensures
        is_ascii_chars(http_date(secs)),
{
    lemma_fields(secs);
    reveal(http_date);
    let t = http_date(secs);
    assert forall|i: int| 0 <= i < t.len() implies '\0' <= #[trigger] t[i] <= '\u{7f}' by {}
}

/// The HTTP date of a second reads back as that second.
pub proof fn http_dates_round_trip(secs: int)
    requires
        in_range(secs),
    ensures
        http_time(http_date(secs)) == Some(secs),
{
    lemma_fields(secs);
    let t = http_date(secs);
    assert(is_http_date_of(t, secs)) by {
        assert(text::trimmed(t) == t);
        lemma_http_date_is_ascii(secs);
    }
    let found = choose|s: int| is_http_date_of(t, s);
    assert(text::trimmed(t) == t);
    http_date_determines_second(secs, found);
}

/// The three-letter name of a weekday.
fn weekday(w: u64) -> (r: (char, char, char))
    ensures
        r == weekday_name(w as int),
{
    if w == 0 {
        ('S', 'u', 'n')
    } else if w == 1 {
        ('M', 'o', 'n')
    } else if w == 2 {
        ('T', 'u', 'e')
    } else if w == 3 {
        ('W', 'e', 'd')
    } else if w == 4 {
        ('T', 'h', 'u')
    } else if w == 5 {
        ('F', 'r', 'i')
    } else {
        ('S', 'a', 't')
    }
}

/// The three-letter name of a month.
fn month(m: u64) -> (r: (char, char, char))
    ensures
        r == month_name(m as int),
{
    if m == 1 {
        ('J', 'a', 'n')
    } else if m == 2 {
        ('F', 'e', 'b')
    } else if m == 3 {
        ('M', 'a', 'r')
    } else if m == 4 {
        ('A', 'p', 'r')
    } else if m == 5 {
        ('M', 'a', 'y')
    } else if m == 6 {
        ('J', 'u', 'n')
    } else if m == 7 {
        ('J', 'u', 'l')
    } else if m == 8 {
        ('A', 'u', 'g')
    } else if m == 9 {
        ('S', 'e', 'p')
    } else if m == 10 {
        ('O', 'c', 't')
    } else if m == 11 {
        ('N', 'o', 'v')
    } else {
        ('D', 'e', 'c')
    }
}

/// The character of a decimal digit.
fn digit(d: u64) -> (r: char)
    requires
        d < 10,
    ensures
        r == text::digit_char(d as int),
{
    (48 + d as u8) as char
}

/// The characters of the HTTP date of a second.
fn http_date_chars(secs: u64) -> (r: Vec<char>)
    requires
        secs < TIMESTAMP_END,
    ensures
        r@ == http_date(secs as int),
{
    let days: u64 = secs / SECS_PER_DAY;
    let rest: u64 = secs % SECS_PER_DAY;
    let (y, m, d) = civil_from_days(days);
    let w = weekday((days + 4) % 7);
    let mon = month(m);
    let hour: u64 = rest / 3600;
    let minute: u64 = rest / 60 % 60;
    let second: u64 = rest % 60;
    let out = vec![
        w.0,
        w.1,
        w.2,
        ',',
        ' ',
        digit(d / 10),
        digit(d % 10),
        ' ',
        mon.0,
        mon.1,
        mon.2,
        ' ',
        digit(y / 100 / 10),
        digit(y / 100 % 10),
        digit(y % 100 / 10),
        digit(y % 100 % 10),
        ' ',
        digit(hour / 10),
        digit(hour % 10),
        ':',
        digit(minute / 10),
        digit(minute % 10),
        ':',
        digit(second / 10),
        digit(second % 10),
        ' ',
        'G',
        'M',
        'T',
    ];
    proof {
        reveal(http_date);
        assert(out@ =~= http_date(secs as int));
    }
    out
}

/// Formats a point in time as an HTTP date, to the second.
pub fn fmt_http_date(time: Timestamp) -> (r: String)
    ensures
        r@ == http_date(time.secs() as int),
{
    let chars = http_date_chars(time.as_secs());
    text::from_chars(chars.as_slice())
}

/// Reads one decimal digit.
fn digit_value(c: char) -> (r: Option<u64>)
    ensures
        match r {
            Some(d) => d < 10 && c == text::digit_char(d as int),
            None => forall|d: int| 0 <= d < 10 ==> c != text::digit_char(d),
        },
{
    if '0' <= c && c <= '9' {
        Some((c as u32 - 48) as u64)
    } else {
        None
    }
}

/// Reads a number of two digits.
fn two_digits(t: &[char], i: usize) -> (r: Option<u64>)
    requires
        i + 1 < t@.len(),
    ensures
        r matches Some(v) ==> v < 100 && t@[i as int] == text::digit_char(v as int / 10)
            && t@[i + 1] == text::digit_char(v as int % 10),
        forall|v: int|
            0 <= v < 100 && t@[i as int] == #[trigger] text::digit_char(v / 10) && t@[i + 1]
                == text::digit_char(v % 10) ==> r is Some && r->0 == v,
{
    match (digit_value(t[i]), digit_value(t[i + 1])) {
        (Some(a), Some(b)) => {
            let v: u64 = a * 10 + b;
            assert(v as int / 10 == a && v as int % 10 == b);
            assert forall|u: int|
                0 <= u < 100 && t@[i as int] == #[trigger] text::digit_char(u / 10) && t@[i + 1]
                    == text::digit_char(u % 10) implies v == u by {
                lemma_two_digits(v as int, u);
            }
            Some(v)
        },
        _ => None,
    }
}

/// Reads the number of a month name.
fn month_number(a: char, b: char, c: char) -> (r: Option<u64>)
    ensures
        match r {
            Some(m) => 1 <= m <= 12 && month_name(m as int) == (a, b, c),
            None => forall|m: int| 1 <= m <= 12 ==> #[trigger] month_name(m) != (a, b, c),
        },
{
    let mut m: u64 = 1;
    while m <= 12
        invariant
            1 <= m <= 13,
            forall|k: int| 1 <= k < m ==> #[trigger] month_name(k) != (a, b, c),
        decreases 13 - m,
    {
        let name = month(m);
        if name.0 == a && name.1 == b && name.2 == c {
            return Some(m);
        }
        m = m + 1;
    }
    None
}

/// The second that the fields of a date of 29 characters write, whether or not
/// the rest of it is well-formed.
fn field_secs(t: &[char]) -> (r: Option<u64>)
    requires
        t@.len() == 29,
    ensures
        r matches Some(secs) ==> secs < TIMESTAMP_END,
        forall|secs: int|
            in_range(secs) && t@ == #[trigger] http_date(secs) ==> r is Some && r->0 == secs,
{
    let day = two_digits(t, 5);
    let mon = month_number(t[8], t[9], t[10]);
    let century = two_digits(t, 12);
    let years = two_digits(t, 14);
    let hour = two_digits(t, 17);
    let minute = two_digits(t, 20);
    let second = two_digits(t, 23);
    proof {
        assert forall|secs: int| in_range(secs) && t@ == #[trigger] http_date(secs) implies
            day is Some && mon is Some && century is Some && years is Some && hour is Some
            && minute is Some && second is Some && 1970 <= century->0 * 100 + years->0
            && calendar::valid_date(century->0 * 100 + years->0, mon->0 as int, day->0 as int)
            && calendar::day_number(century->0 * 100 + years->0, mon->0 as int, day->0 as int)
            == secs / 86_400 && hour->0 < 24 && minute->0 < 60 && second->0 < 60
            && secs % 86_400 == hour->0 * 3600 + minute->0 * 60 + second->0 by {
            lemma_fields(secs);
            let (y, m, d) = calendar::date_of(secs / 86_400);
            let rest = secs % 86_400;
            lemma_clock(rest);
            assert(text::digit_char(d / 10) == t@[5]);
            assert(text::digit_char(y / 100 / 10) == t@[12]);
            assert(text::digit_char(y % 100 / 10) == t@[14]);
            assert(text::digit_char(rest / 3600 / 10) == t@[17]);
            assert(text::digit_char(rest / 60 % 60 / 10) == t@[20]);
            assert(text::digit_char(rest % 60 / 10) == t@[23]);
            assert(month_name(m) == (t@[8], t@[9], t@[10]));
            lemma_month_name(m, mon->0 as int);
        }
    }
    match (day, mon, century, years, hour, minute, second) {
        (Some(d), Some(m), Some(c), Some(yy), Some(h), Some(mi), Some(s)) => {
            let y: u64 = c * 100 + yy;
            if y < 1970 || h > 23 || mi > 59 || s > 59 {
                return None;
            }
            match days_since_epoch(y as i32, m as u32, d as u32) {
                Some(days) => {
                    proof {
                        lemma_four_digit_days(y as int, m as int, d as int);
                    }
                    Some(days as u64 * SECS_PER_DAY + h * 3600 + mi * 60 + s)
                },
                None => None,
            }
        },
        _ => None,
    }
}

proof fn lemma_four_digit_days(y: int, m: int, d: int)
    requires
        1970 <= y <= 9999,
        1 <= m <= 12,
        1 <= d <= 31,
    ensures
        0 <= calendar::day_number(y, m, d) < calendar::FOUR_DIGIT_DAYS,
{
    reveal_with_fuel(calendar::month_start, 13);
}

/// Tests for an ASCII character.
fn is_ascii(c: char) -> (r: bool)
    ensures
        r == ('\0' <= c <= '\u{7f}'),
{
    c <= '\u{7f}'
}

/// Parses an HTTP date: the date that some second of the years 1970 to 9999
/// has, in exactly the form of `fmt_http_date`, with white space around it
/// allowed. A date that the calendar has not, a wrong weekday or another
/// format give `None`.
pub fn parse_http_date(s: &str) -> (r: Option<Timestamp>)
    ensures
        match r {
            Some(time) => http_time(s@) == Some(time.secs() as int) && time.nanos() == 0,
            None => http_time(s@) is None,
        },
{
    let chars = to_chars(s);
    let mut i: usize = 0;
    while i < chars.len()
        invariant
            i <= chars@.len(),
            chars@ == s@,
            forall|j: int| 0 <= j < i ==> '\0' <= #[trigger] s@[j] <= '\u{7f}',
        decreases chars@.len() - i,
    {
        let c = chars[i];
        assert(s@[i as int] == c);
        if !is_ascii(c) {
            return None;
        }
        i = i + 1;
    }
    assert(is_ascii_chars(s@));
    let t = trim(chars.as_slice());
    if t.len() != 29 {
        proof {
            if exists|secs: int| is_http_date_of(s@, secs) {
                let secs = choose|secs: int| is_http_date_of(s@, secs);
                lemma_fields(secs);
            }
        }
        return None;
    }
    let secs = match field_secs(t) {
        Some(secs) => secs,
        None => {
            return None;
        },
    };
    let written = http_date_chars(secs);
    if !same_chars(written.as_slice(), t) {
        return None;
    }
    assert(is_http_date_of(s@, secs as int));
    proof {
        let found = choose|x: int| is_http_date_of(s@, x);
        http_date_determines_second(secs as int, found);
    }
    Timestamp::new(secs, 0)
}

/// An HTTP date, character by character: the weekday, the day, the month, the
/// year and the time of the day of its second.
pub proof fn http_dates_are_spelled_out(y: int, m: int, d: int, h: int, mi: int, s: int)
    requires
        1970 <= y <= 9999,
        calendar::valid_date(y, m, d),
        0 <= h < 24,
        0 <= mi < 60,
        0 <= s < 60,
    ensures
        ({
            let days = calendar::day_number(y, m, d);
            let t = http_date(days * 86_400 + h * 3_600 + mi * 60 + s);
            &&& t.len() == 29
            &&& (t[0], t[1], t[2]) == weekday_name((days + 4) % 7)
            &&& t[3] == ',' && t[4] == ' '
            &&& t[5] == text::digit_char(d / 10) && t[6] == text::digit_char(d % 10)
            &&& t[7] == ' '
            &&& (t[8], t[9], t[10]) == month_name(m)
            &&& t[11] == ' '
            &&& t[12] == text::digit_char(y / 1000) && t[13] == text::digit_char(y / 100 % 10)
            &&& t[14] == text::digit_char(y / 10 % 10) && t[15] == text::digit_char(y % 10)
            &&& t[16] == ' '
            &&& t[17] == text::digit_char(h / 10) && t[18] == text::digit_char(h % 10)
            &&& t[19] == ':'
            &&& t[20] == text::digit_char(mi / 10) && t[21] == text::digit_char(mi % 10)
            &&& t[22] == ':'
            &&& t[23] == text::digit_char(s / 10) && t[24] == text::digit_char(s % 10)
            &&& t[25] == ' ' && t[26] == 'G' && t[27] == 'M' && t[28] == 'T'
        }),
{
    let days = calendar::day_number(y, m, d);
    let rest = h * 3_600 + mi * 60 + s;
    let secs = days * 86_400 + h * 3_600 + mi * 60 + s;
    calendar::lemma_date_of(y, m, d);
    assert(secs == days * 86_400 + rest);
    assert(secs / 86_400 == days);
    assert(secs % 86_400 == rest);
    assert(rest / 3600 == h);
    assert(rest / 60 == h * 60 + mi);
    assert(rest / 60 % 60 == mi);
    assert(rest % 60 == s);
    assert(y / 100 / 10 == y / 1000);
    assert(y % 100 / 10 == y / 10 % 10);
    assert(y % 100 % 10 == y % 10);
    reveal(http_date);
}

/// The names of the weekdays and of the months; a day later is the next
/// weekday, and 1 January 1970 was a Thursday.
pub proof fn names_of_days_and_months(w: int, m: int, days: int)
    requires
        0 <= w < 7,
        1 <= m <= 12,
    ensures
        ({
            let names = "SunMonTueWedThuFriSat"@;
            weekday_name(w) == (names[3 * w], names[3 * w + 1], names[3 * w + 2])
        }),
        ({
            let names = "JanFebMarAprMayJunJulAugSepOctNovDec"@;
            month_name(m) == (names[3 * m - 3], names[3 * m - 2], names[3 * m - 1])
        }),
        weekday_of(0) == 4,
        weekday_of(days + 1) == (if weekday_of(days) == 6 {
            0
        } else {
            weekday_of(days) + 1
        }),
{
    reveal_strlit("SunMonTueWedThuFriSat");
    reveal_strlit("JanFebMarAprMayJunJulAugSepOctNovDec");
}

/// A text is read as a second if and only if it is the HTTP date of that
/// second, with ASCII white space around it or not.
pub proof fn http_dates_alone_are_read(s: Seq<char>, secs: int)
    ensures
        http_time(s) == Some(secs) <==> 0 <= secs < 253_402_300_800 && is_ascii_chars(s)
            && text::trimmed(s) == http_date(secs),
{
    if http_time(s) == Some(secs) {
        let found = choose|t: int| is_http_date_of(s, t);
        assert(is_http_date_of(s, found));
    }
    if is_http_date_of(s, secs) {
        let found = choose|t: int| is_http_date_of(s, t);
        assert(is_http_date_of(s, found));
        http_date_determines_second(found, secs);
    }
}

} // verus!
