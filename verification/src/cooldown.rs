//! Sparse-index age-gating ("cooldown") filter.
//!
//! Strips crate version lines from a sparse-index entry whose `pubtime` is
//! newer than a cutoff timestamp. Holding back too-new versions gives the
//! community time to detect and yank a malicious release before `cargo update`
//! can pull it.
//!
//! Each sparse-index line is compact JSON, so the `pubtime` field is extracted
//! with a targeted scan rather than a full JSON parse: this avoids walking
//! large `deps` arrays for every line of every served entry.

use vstd::array::array_as_slice;
use vstd::prelude::*;
use vstd::slice::slice_subrange;
use vstd::utf8::*;

use crate::calendar;
use crate::calendar::days_since_epoch;
use crate::lines;
use crate::lines::{split_first_line, strip_eol, strip_line_ending};
use crate::text;
use crate::text::{
    find, find_sep, from_chars, parse_number, split, to_chars, trim, trim_start, utf8_text,
};
use crate::time::{Duration, SECS_PER_DAY};

verus! {

// Timestamps.

/// The seconds since 1970 of a timestamp cut into its date and time parts:
/// three numbers each, of which the last may carry a fraction that is dropped.
pub open spec fn civil_secs(date: Seq<Seq<char>>, time: Seq<Seq<char>>) -> Option<nat> {
    if date.len() != 3 || time.len() != 3 {
        None
    } else {
        match (
            text::number(date[0], i32::MAX as nat),
            text::number(date[1], u32::MAX as nat),
            text::number(date[2], u32::MAX as nat),
            text::number(time[0], u64::MAX as nat),
            text::number(time[1], u64::MAX as nat),
            text::number(text::pieces(time[2], seq!['.'])[0], u64::MAX as nat),
        ) {
            (Some(y), Some(mo), Some(d), Some(h), Some(mi), Some(sec)) => {
                let days = calendar::day_number(y as int, mo as int, d as int);
                if 1 <= mo <= 12 && 1 <= d <= 31 && h <= 23 && mi <= 59 && sec <= 60 && days >= 0 {
                    Some((days * 86_400 + h * 3_600 + mi * 60 + sec) as nat)
                } else {
                    None
                }
            },
            _ => None,
        }
    }
}

/// The seconds since 1970 that `YYYY-MM-DDTHH:MM:SS[.fff]Z` writes.
pub open spec fn rfc3339z(s: Seq<char>) -> Option<nat> {
    if s.len() == 0 || s.last() != 'Z' {
        None
    } else {
        let body = s.drop_last();
        let t = text::sep_index(body, seq!['T']) as int;
        if t >= body.len() {
            None
        } else {
            civil_secs(
                text::pieces(body.take(t), seq!['-']),
                text::pieces(body.skip(t + 1), seq![':']),
            )
        }
    }
}

/// Reads a number out of one of three parts.
fn part_number(parts: &Vec<&[char]>, i: usize, max: u64) -> (r: Option<u64>)
    requires
        i < parts@.len(),
    ensures
        match r {
            Some(v) => text::number(text::texts(parts@)[i as int], max as nat) == Some(v as nat),
            None => text::number(text::texts(parts@)[i as int], max as nat) is None,
        },
{
    parse_number(parts[i], max)
}

/// The seconds of a timestamp from its date and time parts.
fn civil_time(date: &Vec<&[char]>, time: &Vec<&[char]>) -> (r: Option<u64>)
    ensures
        match r {
            Some(v) => civil_secs(text::texts(date@), text::texts(time@)) == Some(v as nat),
            None => civil_secs(text::texts(date@), text::texts(time@)) is None,
        },
{
    if date.len() != 3 || time.len() != 3 {
        return None;
    }
    let year = part_number(date, 0, 2_147_483_647);
    let month = part_number(date, 1, 4_294_967_295);
    let day = part_number(date, 2, 4_294_967_295);
    let hour = part_number(time, 0, u64::MAX);
    let minute = part_number(time, 1, u64::MAX);
    let dot: [char; 1] = ['.'];
    let whole = split(time[2], array_as_slice(&dot));
    assert(dot@ =~= seq!['.']);
    assert(text::texts(whole@) == text::pieces(text::texts(time@)[2], seq!['.']));
    assert(whole@.len() == text::texts(whole@).len());
    let second = part_number(&whole, 0, u64::MAX);
    match (year, month, day, hour, minute, second) {
        (Some(y), Some(mo), Some(d), Some(h), Some(mi), Some(sec)) => {
            if h > 23 || mi > 59 || sec > 60 {
                return None;
            }
            match days_since_epoch(y as i32, mo as u32, d as u32) {
                Some(days) => {
                    if days < 0 {
                        return None;
                    }
                    proof {
                        lemma_days_fit(y as int, mo as int, d as int);
                    }
                    Some(days as u64 * SECS_PER_DAY + h * 3_600 + mi * 60 + sec)
                },
                None => None,
            }
        },
        _ => None,
    }
}

proof fn lemma_days_fit(y: int, m: int, d: int)
    requires
        0 <= y <= i32::MAX,
        1 <= m <= 12,
        1 <= d <= 31,
    ensures
        calendar::day_number(y, m, d) < 1_000_000_000_000,
{
    reveal_with_fuel(calendar::month_start, 13);
}

fn parse_civil(s: &[char]) -> (r: Option<u64>)
    ensures
        match r {
            Some(v) => rfc3339z(s@) == Some(v as nat),
            None => rfc3339z(s@) is None,
        },
{
    let n: usize = s.len();
    if n == 0 || s[n - 1] != 'Z' {
        return None;
    }
    let body = slice_subrange(s, 0, n - 1);
    assert(body@ =~= s@.drop_last());
    let t_sep: [char; 1] = ['T'];
    assert(t_sep@ =~= seq!['T']);
    let t: usize = find_sep(body, array_as_slice(&t_sep));
    if t >= body.len() {
        return None;
    }
    let date = slice_subrange(body, 0, t);
    let time = slice_subrange(body, t + 1, body.len());
    assert(date@ =~= body@.take(t as int));
    assert(time@ =~= body@.skip(t + 1));
    let dash: [char; 1] = ['-'];
    let colon: [char; 1] = [':'];
    assert(dash@ =~= seq!['-']);
    assert(colon@ =~= seq![':']);
    let date_parts = split(date, array_as_slice(&dash));
    let time_parts = split(time, array_as_slice(&colon));
    civil_time(&date_parts, &time_parts)
}

/// Parses `YYYY-MM-DDTHH:MM:SS[.fff]Z` into unix seconds. Fractional seconds
/// are truncated.
pub fn parse_rfc3339z(s: &str) -> (r: Option<u64>)
    ensures
        match r {
            Some(v) => rfc3339z(s@) == Some(v as nat),
            None => rfc3339z(s@) is None,
        },
{
    let chars = to_chars(s);
    parse_civil(chars.as_slice())
}

// The publication time of an index line.

/// The JSON key of the publication time, quotes and all.
pub open spec fn pubtime_key() -> Seq<char> {
    seq!['"', 'p', 'u', 'b', 't', 'i', 'm', 'e', '"']
}

/// The time in the JSON string at the start of `s`.
pub open spec fn quoted_time(s: Seq<char>) -> Option<nat> {
    if s.len() == 0 || s[0] != '"' {
        None
    } else {
        let value = s.drop_first();
        let end = text::sep_index(value, seq!['"']) as int;
        if end >= value.len() {
            None
        } else {
            rfc3339z(value.take(end))
        }
    }
}

/// The publication time of an index line: the time behind the first
/// `"pubtime"` that a colon follows. Without a colon it is a string value and
/// no key, and the search goes on behind it.
pub open spec fn pubtime(line: Seq<char>) -> Option<nat>
    decreases line.len(),
{
    match text::first_at(line, pubtime_key(), 0) {
        Some(i) => {
            let tail = line.skip(i + pubtime_key().len());
            let after = text::trimmed_start(tail);
            if after.len() > 0 && after[0] == ':' {
                quoted_time(text::trimmed_start(after.drop_first()))
            } else {
                proof {
                    text::lemma_first_at(line, pubtime_key(), 0);
                }
                pubtime(tail)
            }
        },
        None => None,
    }
}

/// Reads the time in the JSON string at the start of `s`.
fn parse_quoted(s: &[char]) -> (r: Option<u64>)
    ensures
        match r {
            Some(v) => quoted_time(s@) == Some(v as nat),
            None => quoted_time(s@) is None,
        },
{
    if s.len() == 0 || s[0] != '"' {
        return None;
    }
    let value = slice_subrange(s, 1, s.len());
    assert(value@ =~= s@.drop_first());
    let quote: [char; 1] = ['"'];
    assert(quote@ =~= seq!['"']);
    let end: usize = find_sep(value, array_as_slice(&quote));
    if end >= value.len() {
        return None;
    }
    let stamp = slice_subrange(value, 0, end);
    assert(stamp@ =~= value@.take(end as int));
    parse_civil(stamp)
}

fn scan_pubtime(line: &[char]) -> (r: Option<u64>)
    ensures
        match r {
            Some(v) => pubtime(line@) == Some(v as nat),
            None => pubtime(line@) is None,
        },
{
    let key_chars: [char; 9] = ['"', 'p', 'u', 'b', 't', 'i', 'm', 'e', '"'];
    let key: &[char] = array_as_slice(&key_chars);
    assert(key@ =~= pubtime_key());
    let mut rest: &[char] = line;
    loop
        invariant
            key@ == pubtime_key(),
            pubtime(rest@) == pubtime(line@),
        decreases rest@.len(),
    {
        match find(rest, key, 0) {
            Some(i) => {
                let len: usize = rest.len();
                let tail = slice_subrange(rest, i + key.len(), len);
                assert(tail@ =~= rest@.skip(i + key@.len()));
                let after = trim_start(tail);
                if after.len() > 0 && after[0] == ':' {
                    let value = slice_subrange(after, 1, after.len());
                    assert(value@ =~= after@.drop_first());
                    return parse_quoted(trim_start(value));
                }
                rest = tail;
            },
            None => {
                return None;
            },
        }
    }
}

/// Extracts the `pubtime` field from a single sparse-index JSON line and
/// returns it as unix seconds, or `None` if the field is missing or
/// unparseable.
///
/// Scans for the `"pubtime"` *key* (one followed by a colon, so a string
/// *value* that happens to read `pubtime` is skipped) and reads its quoted
/// timestamp. Because a JSON string can never contain an unescaped `"`, the
/// value runs cleanly to the next `"`.
pub fn line_pubtime_secs(line: &str) -> (r: Option<u64>)
    ensures
        match r {
            Some(v) => pubtime(line@) == Some(v as nat),
            None => pubtime(line@) is None,
        },
{
    let chars = to_chars(line);
    scan_pubtime(chars.as_slice())
}

// The filter.

/// A line published after the cutoff.
pub open spec fn too_new(line: Seq<char>, cutoff: u64) -> bool {
    pubtime(lines::without_eol(line)) matches Some(t) && t > cutoff
}

/// The lines that are not too new, in their order.
pub open spec fn kept(parts: Seq<Seq<char>>, cutoff: u64) -> Seq<Seq<char>>
    decreases parts.len(),
{
    if parts.len() == 0 {
        seq![]
    } else if too_new(parts[0], cutoff) {
        kept(parts.drop_first(), cutoff)
    } else {
        seq![parts[0]] + kept(parts.drop_first(), cutoff)
    }
}

/// An index body without its too-new lines.
pub open spec fn gated(body: Seq<char>, cutoff: u64) -> Seq<char> {
    lines::joined(kept(lines::lines(body), cutoff))
}

/// Index data without its too-new lines. Data that is no text stays as it is.
pub open spec fn gated_data(data: Seq<u8>, cutoff: u64) -> Seq<u8> {
    if valid_utf8(data) {
        encode_utf8(gated(decode_utf8(data), cutoff))
    } else {
        data
    }
}

/// The filter takes a body line by line.
pub proof fn lemma_gated_step(body: Seq<char>, cutoff: u64)
    requires
        body.len() > 0,
    ensures
        ({
            let n = lines::first_line_len(body) as int;
            gated(body, cutoff) == (if too_new(body.take(n), cutoff) {
                Seq::<char>::empty()
            } else {
                body.take(n)
            }) + gated(body.skip(n), cutoff)
        }),
{
    let n = lines::first_line_len(body) as int;
    let all = lines::lines(body);
    let rest = lines::lines(body.skip(n));
    assert(all.drop_first() =~= rest);
    assert(all[0] == body.take(n));
    if too_new(all[0], cutoff) {
        assert(gated(body, cutoff) =~= Seq::<char>::empty() + gated(body.skip(n), cutoff));
    } else {
        let out = seq![all[0]] + kept(rest, cutoff);
        assert(out.drop_first() =~= kept(rest, cutoff));
        assert(lines::joined(out) == out[0] + lines::joined(out.drop_first()));
    }
}

/// Appends bytes.
fn append_bytes(out: &mut Vec<u8>, data: &[u8])
    ensures
        final(out)@ == old(out)@ + data@,
{
    let mut i: usize = 0;
    while i < data.len()
        invariant
            i <= data@.len(),
            out@ == old(out)@ + data@.take(i as int),
        decreases data@.len() - i,
    {
        out.push(data[i]);
        i = i + 1;
        assert(out@ =~= old(out)@ + data@.take(i as int));
    }
    assert(data@.take(i as int) =~= data@);
}

/// Walks the sparse-index body line by line, dropping any line whose `pubtime`
/// is strictly newer than `cutoff`. Lines without a `pubtime` (blanks or
/// malformed JSON) are kept verbatim, newlines preserved.
pub fn filter_body(body: &str, cutoff: u64) -> (r: Vec<u8>)
    ensures
        r@ == encode_utf8(gated(body@, cutoff)),
{
    let mut out: Vec<u8> = Vec::new();
    let mut rest: &str = body;
    assert(out@ + encode_utf8(gated(body@, cutoff)) =~= encode_utf8(gated(body@, cutoff)));
    while rest.as_bytes().len() > 0
        invariant
            out@ + encode_utf8(gated(rest@, cutoff)) == encode_utf8(gated(body@, cutoff)),
        decreases rest@.len(),
    {
        proof {
            if rest@.len() == 0 {
                assert(encode_utf8(rest@).len() == 0);
            }
            lemma_gated_step(rest@, cutoff);
        }
        let (line, tail) = split_first_line(rest);
        let chars = to_chars(line);
        let drop_line = match scan_pubtime(strip_eol(chars.as_slice())) {
            Some(secs) => secs > cutoff,
            None => false,
        };
        assert(drop_line == too_new(line@, cutoff));
        let ghost before = out@;
        if !drop_line {
            append_bytes(&mut out, line.as_bytes());
            proof {
                text::lemma_encode_concat(line@, gated(tail@, cutoff));
                assert(out@ + encode_utf8(gated(tail@, cutoff)) =~= before + encode_utf8(
                    gated(rest@, cutoff),
                ));
            }
        } else {
            assert(gated(tail@, cutoff) =~= gated(rest@, cutoff));
        }
        rest = tail;
    }
    proof {
        if rest@.len() > 0 {
            text::lemma_encode_last(rest@);
        }
        assert(lines::lines(rest@) =~= Seq::<Seq<char>>::empty());
        assert(gated(rest@, cutoff) =~= Seq::<char>::empty());
        assert(encode_utf8(gated(rest@, cutoff)).len() == 0);
        assert(out@ + encode_utf8(gated(rest@, cutoff)) =~= out@);
    }
    out
}

/// Filters raw sparse-index bytes, dropping any version line whose `pubtime`
/// is newer than `cutoff` (unix seconds).
///
/// If the body is not valid UTF-8 it is returned unchanged (the proxy then
/// passes it through untouched, same as the upstream would).
pub fn filter_index(data: &[u8], cutoff: u64) -> (r: Vec<u8>)
    ensures
        r@ == gated_data(data@, cutoff),
{
    match utf8_text(data) {
        Some(body) => filter_body(body, cutoff),
        None => {
            let mut out: Vec<u8> = Vec::new();
            append_bytes(&mut out, data);
            assert(out@ =~= data@);
            out
        },
    }
}

/// The cutoff of a window of `window` seconds that ends at `now`. A zero
/// window means "no filtering".
pub open spec fn cutoff_at(now: u64, window: u64) -> Option<u64> {
    if window == 0 {
        None
    } else if now < window {
        Some(0)
    } else {
        Some((now - window) as u64)
    }
}

/// Computes the cutoff (unix seconds) for a cooldown window measured back from
/// `now_secs`. A zero window means "no filtering" and yields `None`.
pub fn cutoff_from(now_secs: u64, cooldown: Duration) -> (r: Option<u64>)
    ensures
        r == cutoff_at(now_secs, cooldown.secs()),
{
    let secs: u64 = cooldown.as_secs();
    if secs == 0 {
        None
    } else if now_secs < secs {
        Some(0)
    } else {
        Some(now_secs - secs)
    }
}

// The publication time of one version.

/// The JSON field of a version, quotes and all.
pub open spec fn version_field(version: Seq<char>) -> Seq<char> {
    "\"vers\":\""@ + version + "\""@
}

/// The text of the first line that holds `needle`.
pub open spec fn line_with(parts: Seq<Seq<char>>, needle: Seq<char>) -> Option<Seq<char>>
    decreases parts.len(),
{
    if parts.len() == 0 {
        None
    } else if text::contains(lines::line_text(parts[0]), needle) {
        Some(lines::line_text(parts[0]))
    } else {
        line_with(parts.drop_first(), needle)
    }
}

/// The publication time of a version in an index body.
pub open spec fn version_time(body: Seq<char>, version: Seq<char>) -> Option<nat> {
    match line_with(lines::lines(body), version_field(version)) {
        Some(line) => pubtime(line),
        None => None,
    }
}

/// Extracts the `pubtime` (unix seconds) of a specific `version` from a
/// sparse-index body, or `None` if that version is absent or has no parseable
/// `pubtime`. Used by `--restrict-downloads` to age-gate the download path.
///
/// Matches the compact `"vers":"<version>"` token (closing quote included, so
/// `1.0` does not match `1.0.1`).
pub fn version_pubtime(body: &str, version: &str) -> (r: Option<u64>)
    ensures
        match r {
            Some(v) => version_time(body@, version@) == Some(v as nat),
            None => version_time(body@, version@) is None,
        },
{
    let mut field = "\"vers\":\"".to_owned();
    field.append(version);
    field.append("\"");
    let needle = to_chars(field.as_str());
    assert(needle@ == version_field(version@));
    let mut rest: &str = body;
    while rest.as_bytes().len() > 0
        invariant
            needle@ == version_field(version@),
            line_with(lines::lines(rest@), needle@) == line_with(lines::lines(body@), needle@),
        decreases rest@.len(),
    {
        proof {
            if rest@.len() == 0 {
                assert(encode_utf8(rest@).len() == 0);
            }
        }
        let (line, tail) = split_first_line(rest);
        assert(lines::lines(rest@).drop_first() =~= lines::lines(tail@));
        let chars = to_chars(line);
        let shown = strip_line_ending(chars.as_slice());
        proof {
            text::lemma_first_at(shown@, needle@, 0);
        }
        if find(shown, needle.as_slice(), 0).is_some() {
            return scan_pubtime(shown);
        }
        assert(!text::contains(shown@, needle@));
        rest = tail;
    }
    proof {
        if rest@.len() > 0 {
            text::lemma_encode_last(rest@);
        }
    }
    None
}

// Durations.

/// The number of seconds in a duration unit.
pub open spec fn unit_secs(unit: u8) -> Option<nat> {
    if unit == 's' as u8 {
        Some(1)
    } else if unit == 'm' as u8 {
        Some(60)
    } else if unit == 'h' as u8 {
        Some(3_600)
    } else if unit == 'd' as u8 {
        Some(86_400)
    } else if unit == 'w' as u8 {
        Some(604_800)
    } else {
        None
    }
}

/// The seconds of a duration of `value` units, or the message that says why
/// there are none; `s` is the whole text.
pub open spec fn scaled_secs(value: Option<nat>, unit: nat, s: Seq<char>) -> Result<
    nat,
    Seq<char>,
> {
    match value {
        None => Err("invalid duration value in '"@ + s + "'"@),
        Some(v) => if v * unit <= u64::MAX {
            Ok(v * unit)
        } else {
            Err("duration '"@ + s + "' is too large"@)
        },
    }
}

/// The seconds that a trimmed duration text writes, or the message that says
/// what is wrong with it. The unit is the last byte of the text.
pub open spec fn trimmed_duration_secs(s: Seq<char>) -> Result<nat, Seq<char>> {
    if s.len() == 0 {
        Err("empty duration"@)
    } else if text::is_digit(s.last()) {
        scaled_secs(text::number(s, u64::MAX as nat), 1, s)
    } else {
        match unit_secs(encode_utf8(s).last()) {
            None => Err(
                "invalid duration unit '"@ + seq![encode_utf8(s).last() as char] + "' in '"@ + s
                    + "' (use s, m, h, d, or w)"@,
            ),
            Some(unit) => scaled_secs(text::number(s.drop_last(), u64::MAX as nat), unit, s),
        }
    }
}

/// The seconds that a duration text writes, white space around it aside, or
/// the message that says what is wrong with it.
pub open spec fn duration_secs(s: Seq<char>) -> Result<nat, Seq<char>> {
    trimmed_duration_secs(text::trimmed(s))
}

/// The last byte of the encoding of `c`.
fn last_byte(c: char) -> (r: u8)
    ensures
        r == encode_scalar(c as u32).last(),
{
    proof {
        char_is_scalar(c);
    }
    let code: u32 = c as u32;
    if code < 0x80 {
        assert(code < 0x80 ==> (code & 0x7F) as u8 == code) by (bit_vector);
        code as u8
    } else {
        assert(code & 0x3F < 0x80) by (bit_vector);
        0x80u8 | ((code & 0x3F) as u8)
    }
}

/// Puts three texts together.
fn concat3(a: &str, b: &str, c: &str) -> (r: String)
    ensures
        r@ == a@ + b@ + c@,
{
    let mut out = a.to_owned();
    out.append(b);
    out.append(c);
    out
}

/// The duration of `value` units.
fn scaled(value: Option<u64>, unit: u64, s: &str) -> (r: Result<Duration, String>)
    ensures
        match r {
            Ok(d) => d.nanos() == 0 && scaled_secs(
                match value {
                    Some(v) => Some(v as nat),
                    None => None,
                },
                unit as nat,
                s@,
            ) == Ok::<nat, Seq<char>>(d.secs() as nat),
            Err(e) => scaled_secs(
                match value {
                    Some(v) => Some(v as nat),
                    None => None,
                },
                unit as nat,
                s@,
            ) == Err::<nat, Seq<char>>(e@),
        },
{
    match value {
        None => Err(concat3("invalid duration value in '", s, "'")),
        Some(v) => match v.checked_mul(unit) {
            Some(secs) => Ok(Duration::from_secs(secs)),
            None => Err(concat3("duration '", s, "' is too large")),
        },
    }
}

/// Parses a cooldown duration string.
///
/// Accepts a bare integer (interpreted as seconds) or an integer followed by a
/// single unit suffix:
///
/// | suffix | unit    |
/// |--------|---------|
/// | `s`    | seconds |
/// | `m`    | minutes |
/// | `h`    | hours   |
/// | `d`    | days    |
/// | `w`    | weeks   |
///
/// Months and years are intentionally unsupported: a supply-chain cooldown is a
/// short window, and dropping them keeps `m` unambiguously *minutes* (no
/// ISO-8601 / `humantime` month-vs-minute confusion). Returns an error string
/// on an empty input, an unknown suffix, a non-numeric value, or overflow.
pub fn parse_duration(s: &str) -> (r: Result<Duration, String>)
    ensures
        match r {
            Ok(d) => d.nanos() == 0 && duration_secs(s@) == Ok::<nat, Seq<char>>(d.secs() as nat),
            Err(e) => duration_secs(s@) == Err::<nat, Seq<char>>(e@),
        },
{
    let chars = to_chars(s);
    let t = trim(chars.as_slice());
    let n: usize = t.len();
    if n == 0 {
        return Err("empty duration".to_owned());
    }
    let shown = from_chars(t);
    let last = t[n - 1];
    if '0' <= last && last <= '9' {
        return scaled(parse_number(t, u64::MAX), 1, shown.as_str());
    }
    proof {
        text::lemma_encode_last(t@);
    }
    let unit: u8 = last_byte(last);
    let mult: u64 = if unit == 115 {
        1
    } else if unit == 109 {
        60
    } else if unit == 104 {
        3_600
    } else if unit == 100 {
        SECS_PER_DAY
    } else if unit == 119 {
        7 * SECS_PER_DAY
    } else {
        let mut message = "invalid duration unit '".to_owned();
        message.push(unit as char);
        message.append("' in '");
        message.append(shown.as_str());
        message.append("' (use s, m, h, d, or w)");
        assert(message@ =~= "invalid duration unit '"@ + seq![unit as char] + "' in '"@ + t@
            + "' (use s, m, h, d, or w)"@);
        return Err(message);
    };
    let digits = slice_subrange(t, 0, n - 1);
    assert(digits@ =~= t@.drop_last());
    scaled(parse_number(digits, u64::MAX), mult, shown.as_str())
}

// Laws of the timestamps.

/// A fraction behind the seconds changes nothing: whatever stands between a
/// dot after the seconds and the `Z`, the timestamp means what it means
/// without it.
pub proof fn fractions_are_truncated(stamp: Seq<char>, fraction: Seq<char>)
    requires
        stamp.contains('T'),
        !stamp.contains('.'),
        !fraction.contains(':'),
    ensures
        rfc3339z((stamp + seq!['.'] + fraction).push('Z')) == rfc3339z(stamp.push('Z')),
{
    let short = stamp.push('Z').drop_last();
    let long = (stamp + seq!['.'] + fraction).push('Z').drop_last();
    let more = seq!['.'] + fraction;
    assert(short =~= stamp);
    assert(long =~= stamp + more);
    let t_seps = seq!['T'];
    assert(t_seps[0] == 'T');
    text::lemma_sep_index(short, t_seps);
    let t = text::sep_index(short, t_seps) as int;
    if t == short.len() {
        let j = choose|j: int| 0 <= j < stamp.len() && stamp[j] == 'T';
        assert(!t_seps.contains(short[j]));
    }
    assert forall|j: int| 0 <= j < t implies !t_seps.contains(#[trigger] long[j]) by {
        assert(long[j] == short[j]);
    }
    assert(long[t] == short[t]);
    text::lemma_sep_index_is(long, t_seps, t);
    assert(long.take(t) =~= short.take(t));
    let time = short.skip(t + 1);
    assert(long.skip(t + 1) =~= time + more);
    let colon = seq![':'];
    assert forall|j: int| 0 <= j < more.len() implies !colon.contains(#[trigger] more[j]) by {
        if j > 0 {
            assert(more[j] == fraction[j - 1]);
            assert(fraction.contains(fraction[j - 1]));
        }
    }
    text::lemma_pieces_extend(time, colon, more);
    let parts = text::pieces(time, colon);
    let longer = text::pieces(time + more, colon);
    let dot = seq!['.'];
    assert(dot[0] == '.');
    if parts.len() == 3 {
        let sec = parts[2];
        assert(longer =~= seq![parts[0], parts[1], sec + more]);
        assert forall|j: int| 0 <= j < sec.len() implies !dot.contains(#[trigger] sec[j]) by {
            text::lemma_piece_chars(time, colon, 2, j);
            let k = choose|k: int| 0 <= k < time.len() && time[k] == sec[j];
            assert(stamp.contains(time[k])) by {
                assert(time[k] == stamp[t + 1 + k]);
            }
        }
        text::lemma_pieces_single(sec, dot);
        assert(sec + more =~= sec + seq!['.'] + fraction);
        text::lemma_pieces_cons(sec, '.', fraction, dot);
    }
}

// Laws of the filter.

proof fn lemma_kept_lines(parts: Seq<Seq<char>>, cutoff: u64)
    requires
        lines::are_lines(parts),
    ensures
        lines::are_lines(kept(parts, cutoff)),
    decreases parts.len(),
{
    if parts.len() > 0 {
        let tail = parts.drop_first();
        assert forall|i: int| 0 <= i < tail.len() implies lines::last_line(#[trigger] tail[i]) by {
            assert(tail[i] == parts[i + 1]);
        }
        assert forall|i: int| 0 <= i < tail.len() - 1 implies lines::ended_line(
            #[trigger] tail[i],
        ) by {
            assert(tail[i] == parts[i + 1]);
        }
        lemma_kept_lines(tail, cutoff);
        let rest = kept(tail, cutoff);
        let all = kept(parts, cutoff);
        if !too_new(parts[0], cutoff) {
            assert forall|i: int| 0 <= i < all.len() implies lines::last_line(
                #[trigger] all[i],
            ) by {
                if i > 0 {
                    assert(all[i] == rest[i - 1]);
                } else {
                    assert(all[0] == parts[0]);
                }
            }
            assert forall|i: int| 0 <= i < all.len() - 1 implies lines::ended_line(
                #[trigger] all[i],
            ) by {
                if i > 0 {
                    assert(all[i] == rest[i - 1]);
                } else {
                    assert(all[0] == parts[0]);
                    assert(tail.len() > 0) by {
                        if tail.len() == 0 {
                            assert(rest.len() == 0);
                        }
                    }
                }
            }
        }
    }
}

/// The lines of a filtered body are the lines of the body that are not too
/// new, whole and in their order.
pub proof fn filter_keeps_whole_lines(body: Seq<char>, cutoff: u64)
    ensures
        lines::lines(gated(body, cutoff)) == kept(lines::lines(body), cutoff),
{
    lines::lines_make_up_the_body(body);
    lemma_kept_lines(lines::lines(body), cutoff);
    lines::lines_of_joined_lines(kept(lines::lines(body), cutoff));
}

proof fn lemma_kept_member(parts: Seq<Seq<char>>, cutoff: u64, line: Seq<char>)
    ensures
        kept(parts, cutoff).contains(line) <==> parts.contains(line) && !too_new(line, cutoff),
    decreases parts.len(),
{
    if parts.len() > 0 {
        let tail = parts.drop_first();
        lemma_kept_member(tail, cutoff, line);
        assert(parts =~= seq![parts[0]] + tail);
        assert(parts.contains(line) <==> line == parts[0] || tail.contains(line)) by {
            if parts.contains(line) {
                let i = choose|i: int| 0 <= i < parts.len() && parts[i] == line;
                if i > 0 {
                    assert(tail[i - 1] == line);
                }
            }
            if tail.contains(line) {
                let i = choose|i: int| 0 <= i < tail.len() && tail[i] == line;
                assert(parts[i + 1] == line);
            }
            assert(parts[0] == parts[0]);
        }
        if !too_new(parts[0], cutoff) {
            let rest = kept(tail, cutoff);
            let all = kept(parts, cutoff);
            assert(all =~= seq![parts[0]] + rest);
            assert(all.contains(line) <==> line == parts[0] || rest.contains(line)) by {
                if all.contains(line) {
                    let i = choose|i: int| 0 <= i < all.len() && all[i] == line;
                    if i > 0 {
                        assert(rest[i - 1] == line);
                    }
                }
                if rest.contains(line) {
                    let i = choose|i: int| 0 <= i < rest.len() && rest[i] == line;
                    assert(all[i + 1] == line);
                }
                assert(all[0] == parts[0]);
            }
        }
    }
}

/// A line is in the filtered body if and only if it is in the body and not too
/// new: no too-new line survives, and no other line is lost.
pub proof fn only_too_new_lines_are_dropped(body: Seq<char>, cutoff: u64, line: Seq<char>)
    ensures
        lines::lines(gated(body, cutoff)).contains(line) <==> lines::lines(body).contains(line)
            && !too_new(line, cutoff),
{
    filter_keeps_whole_lines(body, cutoff);
    lemma_kept_member(lines::lines(body), cutoff, line);
}

/// A line without a readable publication time is never dropped.
pub proof fn lines_without_pubtime_stay(body: Seq<char>, cutoff: u64, line: Seq<char>)
    requires
        lines::lines(body).contains(line),
        pubtime(lines::without_eol(line)) is None,
    ensures
        lines::lines(gated(body, cutoff)).contains(line),
{
    only_too_new_lines_are_dropped(body, cutoff, line);
}

/// A line published exactly at the cutoff is not dropped.
pub proof fn cutoff_itself_stays(body: Seq<char>, cutoff: u64, line: Seq<char>)
    requires
        lines::lines(body).contains(line),
        pubtime(lines::without_eol(line)) == Some(cutoff as nat),
    ensures
        lines::lines(gated(body, cutoff)).contains(line),
{
    only_too_new_lines_are_dropped(body, cutoff, line);
}

proof fn lemma_kept_twice(parts: Seq<Seq<char>>, first: u64, second: u64)
    ensures
        kept(kept(parts, first), second) == kept(
            parts,
            if first <= second {
                first
            } else {
                second
            },
        ),
    decreases parts.len(),
{
    if parts.len() > 0 {
        lemma_kept_twice(parts.drop_first(), first, second);
        if !too_new(parts[0], first) {
            let once = kept(parts, first);
            assert(once.drop_first() =~= kept(parts.drop_first(), first));
            assert(once[0] == parts[0]);
        }
    }
}

/// Filtering at two cutoffs is filtering at the earlier of them; in
/// particular, filtering twice at one cutoff is filtering once.
pub proof fn filters_compose(body: Seq<char>, first: u64, second: u64)
    ensures
        gated(gated(body, first), second) == gated(
            body,
            if first <= second {
                first
            } else {
                second
            },
        ),
{
    filter_keeps_whole_lines(body, first);
    lemma_kept_twice(lines::lines(body), first, second);
}

/// `filters_compose` for raw index data, text or not.
pub proof fn data_filters_compose(data: Seq<u8>, first: u64, second: u64)
    ensures
        gated_data(gated_data(data, first), second) == gated_data(
            data,
            if first <= second {
                first
            } else {
                second
            },
        ),
{
    if valid_utf8(data) {
        let once = gated(decode_utf8(data), first);
        encode_utf8_valid_utf8(once);
        encode_utf8_decode_utf8(once);
        filters_compose(decode_utf8(data), first, second);
    }
}

proof fn lemma_kept_all(parts: Seq<Seq<char>>, cutoff: u64)
    requires
        forall|i: int| 0 <= i < parts.len() ==> !too_new(#[trigger] parts[i], cutoff),
    ensures
        kept(parts, cutoff) == parts,
    decreases parts.len(),
{
    if parts.len() > 0 {
        let tail = parts.drop_first();
        assert forall|i: int| 0 <= i < tail.len() implies !too_new(#[trigger] tail[i], cutoff) by {
            assert(tail[i] == parts[i + 1]);
        }
        lemma_kept_all(tail, cutoff);
        assert(parts =~= seq![parts[0]] + tail);
    } else {
        assert(kept(parts, cutoff) =~= parts);
    }
}

/// A body with no too-new line is served unchanged.
pub proof fn old_bodies_are_unchanged(body: Seq<char>, cutoff: u64)
    requires
        forall|i: int|
            0 <= i < lines::lines(body).len() ==> !too_new(
                #[trigger] lines::lines(body)[i],
                cutoff,
            ),
    ensures
        gated(body, cutoff) == body,
{
    lemma_kept_all(lines::lines(body), cutoff);
    lines::lines_make_up_the_body(body);
}

/// A later cutoff keeps every line that an earlier one keeps.
pub proof fn later_cutoffs_keep_more(body: Seq<char>, early: u64, late: u64, line: Seq<char>)
    requires
        early <= late,
        lines::lines(gated(body, early)).contains(line),
    ensures
        lines::lines(gated(body, late)).contains(line),
{
    only_too_new_lines_are_dropped(body, early, line);
    only_too_new_lines_are_dropped(body, late, line);
}

/// The cutoff is never after the present, moves on with it, and exists
/// exactly when the window is not zero.
pub proof fn cutoffs_follow_the_clock(now: u64, later: u64, window: u64)
    requires
        now <= later,
    ensures
        cutoff_at(now, window) is None <==> window == 0,
        cutoff_at(now, window) matches Some(c) ==> c <= now,
        window > 0 ==> cutoff_at(now, window)->0 <= cutoff_at(later, window)->0,
{
}

// Laws of the durations.

/// A whole number and a unit letter mean that many units; a bare number means
/// seconds.
pub proof fn written_durations_parse(n: nat, unit: char)
    requires
        n <= u64::MAX,
        unit as u32 <= 0x7f,
        unit_secs(unit as u8) is Some,
    ensures
        duration_secs(text::decimal(n)) == Ok::<nat, Seq<char>>(n),
        n * unit_secs(unit as u8)->0 <= u64::MAX ==> duration_secs(text::decimal(n).push(unit))
            == Ok::<nat, Seq<char>>(n * unit_secs(unit as u8)->0),
        n * unit_secs(unit as u8)->0 > u64::MAX ==> duration_secs(text::decimal(n).push(unit))
            is Err,
{
    text::lemma_decimal(n);
    let d = text::decimal(n);
    let s = d.push(unit);
    assert(text::is_digit(d[0]));
    assert(text::is_digit(d.last()));
    assert(s[0] == d[0]);
    assert(!text::is_space(s[0]));
    assert(!text::is_space(unit));
    assert(text::trimmed(d) == d);
    assert(text::trimmed(s) == s);
    assert(s.drop_last() =~= d);
    text::lemma_encode_last(s);
    assert(encode_utf8(s).last() == unit as u8);
    assert(!text::is_digit(unit));
    assert(n * 1 == n);
}

// Laws of the publication time.

proof fn lemma_trimmed_start_push(s: Seq<char>, c: char)
    requires
        text::is_space(c),
    ensures
        text::trimmed_start(s.push(c)) == (if text::trimmed_start(s).len() == 0 {
            Seq::<char>::empty()
        } else {
            text::trimmed_start(s).push(c)
        }),
    decreases s.len(),
{
    if s.len() == 0 {
        assert(s.push(c).drop_first() =~= Seq::<char>::empty());
        assert(text::trimmed_start(s.push(c)) == text::trimmed_start(s.push(c).drop_first()));
        assert(text::trimmed_start(s.push(c)) =~= Seq::<char>::empty());
    } else if text::is_space(s[0]) {
        assert(s.push(c).drop_first() =~= s.drop_first().push(c));
        lemma_trimmed_start_push(s.drop_first(), c);
    }
}

proof fn lemma_first_key_push(s: Seq<char>, c: char, from: int)
    requires
        c != '"',
        0 <= from,
    ensures
        text::first_at(s.push(c), pubtime_key(), from) == text::first_at(s, pubtime_key(), from),
    decreases s.len() + 1 - from,
{
    let key = pubtime_key();
    let long = s.push(c);
    if from + key.len() <= s.len() {
        assert(long.subrange(from, from + key.len()) =~= s.subrange(from, from + key.len()));
        if !text::occurs_at(s, key, from) {
            lemma_first_key_push(s, c, from + 1);
        }
    } else if from + key.len() == long.len() {
        if text::occurs_at(long, key, from) {
            assert(long.subrange(from, from + key.len())[8] == c);
            assert(key[8] == '"');
        }
        assert(text::first_at(long, key, from + 1) is None);
    }
}

proof fn lemma_quoted_time_push(s: Seq<char>, c: char)
    requires
        s.len() > 0,
        c != '"',
    ensures
        quoted_time(s.push(c)) == quoted_time(s),
{
    if s[0] == '"' {
        let value = s.drop_first();
        let long = s.push(c).drop_first();
        let quote = seq!['"'];
        assert(quote[0] == '"');
        assert(long =~= value.push(c));
        text::lemma_sep_index(value, quote);
        let end = text::sep_index(value, quote) as int;
        assert forall|j: int| 0 <= j < end implies !quote.contains(#[trigger] long[j]) by {
            assert(long[j] == value[j]);
        }
        if end < value.len() {
            assert(long[end] == value[end]);
            text::lemma_sep_index_is(long, quote, end);
            assert(long.take(end) =~= value.take(end));
        } else {
            assert(long[end] == c);
            text::lemma_sep_index_is(long, quote, long.len() as int);
        }
    }
}

/// A carriage return at the end of a line has no effect on its publication
/// time.
pub proof fn trailing_return_is_ignored(line: Seq<char>)
    ensures
        pubtime(line.push('\r')) == pubtime(line),
    decreases line.len(),
{
    let key = pubtime_key();
    let c = '\r';
    lemma_first_key_push(line, c, 0);
    text::lemma_first_at(line, key, 0);
    match text::first_at(line, key, 0) {
        Some(i) => {
            let tail = line.skip(i + key.len());
            assert(line.push(c).skip(i + key.len()) =~= tail.push(c));
            lemma_trimmed_start_push(tail, c);
            let after = text::trimmed_start(tail);
            if after.len() > 0 && after[0] == ':' {
                let value = after.drop_first();
                assert(after.push(c).drop_first() =~= value.push(c));
                lemma_trimmed_start_push(value, c);
                if text::trimmed_start(value).len() > 0 {
                    lemma_quoted_time_push(text::trimmed_start(value), c);
                }
            } else {
                trailing_return_is_ignored(tail);
            }
        },
        None => {},
    }
}

proof fn lemma_trailing_returns(line: Seq<char>)
    ensures
        pubtime(text::without_end(line, '\r')) == pubtime(line),
    decreases line.len(),
{
    if line.len() > 0 && line.last() == '\r' {
        assert(line =~= line.drop_last().push('\r'));
        trailing_return_is_ignored(line.drop_last());
        lemma_trailing_returns(line.drop_last());
    }
}

pub proof fn lemma_shown_pubtime(line: Seq<char>)
    requires
        lines::last_line(line),
    ensures
        pubtime(lines::line_text(line)) == pubtime(lines::without_eol(line)),
{
    let bare = if line.last() == '\n' {
        line.drop_last()
    } else {
        line
    };
    assert(text::without_end(line, '\n') == bare) by {
        reveal_with_fuel(text::without_end, 3);
        if line.last() == '\n' && bare.len() > 0 {
            assert(bare.last() == line[bare.len() - 1]);
        }
    }
    lemma_trailing_returns(bare);
    if line.last() == '\n' && bare.len() > 0 && bare.last() == '\r' {
        assert(bare =~= bare.drop_last().push('\r'));
        trailing_return_is_ignored(bare.drop_last());
    }
}

/// A quoted word that no other comes before is found where it stands.
pub proof fn lemma_word_is_found(head: Seq<char>, word: Seq<char>, after: Seq<char>, quote: char)
    requires
        word.len() >= 2,
        word[0] == quote,
        forall|k: int| 1 <= k < word.len() - 1 ==> #[trigger] word[k] != quote,
        !text::contains(head.push(quote), word),
    ensures
        text::first_at(head + word + after, word, 0) == Some(head.len() as int),
{
    let n = head.len() as int;
    let m = word.len() as int;
    let line = head + word + after;
    let quoted = head.push(quote);
    assert(line.subrange(n, n + m) =~= word);
    assert(text::occurs_at(line, word, n));
    assert(line[n] == quote);
    assert forall|i: int| 0 <= i < n implies !text::occurs_at(line, word, i) by {
        if text::occurs_at(line, word, i) {
            if i + m <= n + 1 {
                assert(quoted.subrange(i, i + m) =~= line.subrange(i, i + m));
                assert(text::occurs_at(quoted, word, i));
            } else {
                assert(line.subrange(i, i + m)[n - i] == line[n]);
                assert(word[n - i] == quote);
            }
        }
    }
    text::lemma_first_at(line, word, 0);
}

/// A quoted time at the start of a text is read, whatever follows it.
pub proof fn lemma_quoted_time_is_read(stamp: Seq<char>, tail: Seq<char>)
    requires
        !stamp.contains('"'),
    ensures
        quoted_time(seq!['"'] + (stamp + seq!['"'] + tail)) == rfc3339z(stamp),
{
    let value = stamp + seq!['"'] + tail;
    let s = seq!['"'] + value;
    assert(s.drop_first() =~= value);
    let quote = seq!['"'];
    assert(quote[0] == '"');
    assert forall|j: int| 0 <= j < stamp.len() implies !quote.contains(#[trigger] value[j]) by {
        assert(value[j] == stamp[j]);
        assert(stamp.contains(stamp[j]));
    }
    assert(value[stamp.len() as int] == '"');
    text::lemma_sep_index_is(value, quote, stamp.len() as int);
    assert(value.take(stamp.len() as int) =~= stamp);
}

/// A compact index line has the time that it is published with: whatever
/// stands before the key (without being one) and behind the value, no line
/// with a publication time is missed.
pub proof fn published_lines_have_their_time(head: Seq<char>, stamp: Seq<char>, tail: Seq<char>)
    requires
        !text::contains(head.push('"'), pubtime_key()),
        !stamp.contains('"'),
    ensures
        pubtime(head + pubtime_key() + seq![':', '"'] + stamp + seq!['"'] + tail) == rfc3339z(
            stamp,
        ),
{
    let n = head.len() as int;
    let rest = seq!['"'] + (stamp + seq!['"'] + tail);
    let after = seq![':'] + rest;
    let line = head + pubtime_key() + seq![':', '"'] + stamp + seq!['"'] + tail;
    assert(line =~= head + pubtime_key() + after);
    lemma_word_is_found(head, pubtime_key(), after, '"');
    assert(line.skip(n + pubtime_key().len()) =~= after);
    assert(after[0] == ':');
    assert(text::trimmed_start(after) == after);
    assert(after.drop_first() =~= rest);
    assert(rest[0] == '"');
    assert(text::trimmed_start(rest) == rest);
    lemma_quoted_time_is_read(stamp, tail);
}

// Laws of the version field.

/// The field of one version holds the field of another only if they are the
/// same version: `1.0` does not match `1.0.1`.
pub proof fn version_fields_match_exactly(written: Seq<char>, asked: Seq<char>)
    requires
        !written.contains('"'),
        !asked.contains('"'),
    ensures
        text::contains(version_field(written), version_field(asked)) <==> written == asked,
{
    reveal_strlit("\"vers\":\"");
    reveal_strlit("\"");
    let hay = version_field(written);
    let needle = version_field(asked);
    if written == asked {
        assert(hay.subrange(0, hay.len() as int) =~= hay);
        assert(text::occurs_at(hay, needle, 0));
    }
    if text::contains(hay, needle) {
        let i = choose|i: int| text::occurs_at(hay, needle, i);
        let found = hay.subrange(i, i + needle.len());
        assert(found[0] == hay[i]);
        assert(found[1] == hay[i + 1]);
        assert(found[5] == hay[i + 5]);
        assert(found[6] == hay[i + 6]);
        let end = 8 + written.len() as int;
        assert forall|k: int| 8 <= k < end implies #[trigger] hay[k] != '"' by {
            assert(hay[k] == written[k - 8]);
            assert(written.contains(written[k - 8]));
        }
        assert(i == 0);
        let last = 8 + asked.len() as int;
        assert(found[last] == hay[last]);
        assert(needle[last] == '"');
        assert(last == end);
        assert(written =~= asked) by {
            assert forall|k: int| 0 <= k < written.len() implies written[k] == asked[k] by {
                assert(hay[8 + k] == written[k]);
                assert(needle[8 + k] == asked[k]);
                assert(found[8 + k] == hay[8 + k]);
            }
        }
    }
}

// Laws of index and download.

proof fn lemma_line_with_kept(parts: Seq<Seq<char>>, cutoff: u64, needle: Seq<char>, t: nat)
    requires
        lines::are_lines(parts),
        line_with(parts, needle) matches Some(line) && pubtime(line) == Some(t),
        t <= cutoff,
    ensures
        line_with(kept(parts, cutoff), needle) == line_with(parts, needle),
    decreases parts.len(),
{
    let tail = parts.drop_first();
    assert(lines::last_line(parts[0]));
    let rest = kept(tail, cutoff);
    if text::contains(lines::line_text(parts[0]), needle) {
        lemma_shown_pubtime(parts[0]);
        assert(kept(parts, cutoff)[0] == parts[0]);
    } else {
        assert forall|i: int| 0 <= i < tail.len() implies lines::last_line(#[trigger] tail[i]) by {
            assert(tail[i] == parts[i + 1]);
        }
        assert forall|i: int| 0 <= i < tail.len() - 1 implies lines::ended_line(
            #[trigger] tail[i],
        ) by {
            assert(tail[i] == parts[i + 1]);
        }
        lemma_line_with_kept(tail, cutoff, needle, t);
        if !too_new(parts[0], cutoff) {
            assert(kept(parts, cutoff).drop_first() =~= rest);
            assert(kept(parts, cutoff)[0] == parts[0]);
        }
    }
}

/// A version that is old enough to download is listed: if the full index
/// gives a version a time that is not after the cutoff, the filtered index
/// gives it the same time.
pub proof fn old_versions_stay_listed(
    body: Seq<char>,
    version: Seq<char>,
    cutoff: u64,
    t: nat,
)
    requires
        version_time(body, version) == Some(t),
        t <= cutoff,
    ensures
        version_time(gated(body, cutoff), version) == Some(t),
{
    filter_keeps_whole_lines(body, cutoff);
    lines::lines_make_up_the_body(body);
    lemma_line_with_kept(lines::lines(body), cutoff, version_field(version), t);
}

proof fn lemma_line_with_member(parts: Seq<Seq<char>>, needle: Seq<char>)
    requires
        line_with(parts, needle) is Some,
    ensures
        exists|i: int|
            0 <= i < parts.len() && lines::line_text(#[trigger] parts[i]) == line_with(
                parts,
                needle,
            )->0 && text::contains(lines::line_text(parts[i]), needle),
    decreases parts.len(),
{
    if text::contains(lines::line_text(parts[0]), needle) {
        assert(lines::line_text(parts[0]) == line_with(parts, needle)->0);
    } else {
        let tail = parts.drop_first();
        lemma_line_with_member(tail, needle);
        let i = choose|i: int|
            0 <= i < tail.len() && lines::line_text(#[trigger] tail[i]) == line_with(
                tail,
                needle,
            )->0 && text::contains(lines::line_text(tail[i]), needle);
        assert(parts[i + 1] == tail[i]);
    }
}

/// Every version that the filtered index gives a time is old enough: no time
/// in a filtered index is after the cutoff.
pub proof fn listed_versions_are_old_enough(body: Seq<char>, version: Seq<char>, cutoff: u64)
    ensures
        version_time(gated(body, cutoff), version) matches Some(t) ==> t <= cutoff,
{
    let shown = lines::lines(gated(body, cutoff));
    let needle = version_field(version);
    if version_time(gated(body, cutoff), version) is Some {
        lemma_line_with_member(shown, needle);
        let i = choose|i: int|
            0 <= i < shown.len() && lines::line_text(#[trigger] shown[i]) == line_with(
                shown,
                needle,
            )->0;
        lines::lines_make_up_the_body(gated(body, cutoff));
        lemma_shown_pubtime(shown[i]);
        assert(shown.contains(shown[i]));
        only_too_new_lines_are_dropped(body, cutoff, shown[i]);
    }
}

/// The `i`th line of a body is about a version.
pub open spec fn line_lists(body: Seq<char>, version: Seq<char>, i: int) -> bool {
    0 <= i < lines::lines(body).len() && text::contains(
        lines::line_text(lines::lines(body)[i]),
        version_field(version),
    )
}

/// A version that is listed on one line only, with a time after the cutoff, is
/// gone from the filtered index: no line is about it, so it has no time.
pub proof fn too_new_versions_are_not_listed(
    body: Seq<char>,
    version: Seq<char>,
    cutoff: u64,
    t: nat,
)
    requires
        version_time(body, version) == Some(t),
        t > cutoff,
        forall|i: int, j: int| #[trigger]
            line_lists(body, version, i) && #[trigger] line_lists(body, version, j) ==> i == j,
    ensures
        version_time(gated(body, cutoff), version) is None,
        forall|i: int| !line_lists(gated(body, cutoff), version, i),
{
    let all = lines::lines(body);
    let shown = lines::lines(gated(body, cutoff));
    let needle = version_field(version);
    lines::lines_make_up_the_body(body);
    lemma_line_with_member(all, needle);
    let k = choose|k: int|
        0 <= k < all.len() && lines::line_text(#[trigger] all[k]) == line_with(all, needle)->0
            && text::contains(lines::line_text(all[k]), needle);
    assert(line_lists(body, version, k));
    lemma_shown_pubtime(all[k]);
    assert(too_new(all[k], cutoff));
    assert forall|i: int| !line_lists(gated(body, cutoff), version, i) by {
        if line_lists(gated(body, cutoff), version, i) {
            assert(shown.contains(shown[i]));
            only_too_new_lines_are_dropped(body, cutoff, shown[i]);
            let j = choose|j: int| 0 <= j < all.len() && all[j] == shown[i];
            assert(line_lists(body, version, j));
        }
    }
    if line_with(shown, needle) is Some {
        lemma_line_with_member(shown, needle);
        let i = choose|i: int|
            0 <= i < shown.len() && lines::line_text(#[trigger] shown[i]) == line_with(
                shown,
                needle,
            )->0 && text::contains(lines::line_text(shown[i]), needle);
        assert(line_lists(gated(body, cutoff), version, i));
    }
}

} // verus!
