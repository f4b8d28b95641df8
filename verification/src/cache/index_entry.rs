//! Registry index entry handling helpers.

use std::time::Instant;

use vstd::array::array_as_slice;
use vstd::prelude::*;
use vstd::utf8::*;

use crate::http::httpdate;
use crate::http::httpdate::{fmt_http_date, parse_http_date};
use crate::text;
use crate::text::{from_chars, same_text, split, to_chars};
use crate::time;
use crate::time::{elapsed_since, read_instant, Duration, Timestamp, NANOS_PER_SEC};
use crate::valid;
use crate::valid::is_crate_name;

verus! {

/// Registry index entry structure.
#[derive(Debug, PartialEq, Eq, PartialOrd, Ord)]
pub struct IndexEntry {
    /// Crate name.
    name: String,
    /// HTTP entity tag header.
    etag: Option<String>,
    /// Index file modification time.
    mtime: Option<Timestamp>,
    /// Last index entry update check time.
    atime: Option<Instant>,
}

/// What an index entry holds.
pub struct EntryView {
    /// Crate name.
    pub name: Seq<char>,
    /// HTTP entity tag.
    pub etag: Option<Seq<char>>,
    /// Modification time: seconds since 1970 and nanoseconds.
    pub mtime: Option<(int, int)>,
    /// Last update check time.
    pub atime: Option<Instant>,
}

impl View for IndexEntry {
    type V = EntryView;

    closed spec fn view(&self) -> EntryView {
        EntryView {
            name: self.name@,
            etag: text::opt_text(self.etag),
            mtime: match self.mtime {
                Some(t) => Some((t.secs() as int, t.nanos() as int)),
                None => None,
            },
            atime: self.atime,
        }
    }
}

impl EntryView {
    /// An entry that has a name and no metadata.
    pub open spec fn bare(name: Seq<char>) -> EntryView {
        EntryView { name, etag: None, mtime: None, atime: None }
    }

    /// The `Last-Modified` text of the entry.
    pub open spec fn last_modified(self) -> Option<Seq<char>> {
        match self.mtime {
            Some((secs, _)) => Some(httpdate::http_date(secs)),
            None => None,
        }
    }

    /// The metadata of two entries shows that their contents are the same.
    pub open spec fn equivalent(self, other: EntryView) -> bool {
        ||| self.etag is Some && self.etag == other.etag
        ||| self.last_modified() is Some && self.last_modified() == other.last_modified()
    }

    /// The entry was checked more than `ttl` ago, given the time since then.
    pub open spec fn expired_after(self, elapsed: Duration, ttl: Duration) -> bool {
        self.atime is Some && elapsed.total_nanos() > ttl.total_nanos()
    }

    /// The entry with another modification time, taken from an HTTP date.
    pub open spec fn with_last_modified(self, date: Seq<char>) -> EntryView {
        EntryView {
            mtime: match httpdate::http_time(date) {
                Some(secs) => Some((secs, 0)),
                None => None,
            },
            ..self
        }
    }
}

/// The crate name in a sparse index path: the last of two segments after `1/`
/// or `2/`, else the last of three.
pub open spec fn index_path_name(url: Seq<char>) -> Option<Seq<char>> {
    let parts = text::pieces(url, seq!['/']);
    let short = parts[0] == seq!['1'] || parts[0] == seq!['2'];
    if short && parts.len() == 2 && valid::crate_name(parts[1]) {
        Some(parts[1])
    } else if !short && parts.len() == 3 && valid::crate_name(parts[2]) {
        Some(parts[2])
    } else {
        None
    }
}

/// The text of some bytes of a name.
pub open spec fn byte_text(name: Seq<char>, from: int, to: int) -> Seq<char> {
    decode_utf8(encode_utf8(name).subrange(from, to))
}

/// Names that the index directories can be cut out of: no cut falls inside a
/// character.
pub open spec fn has_index_url(name: Seq<char>) -> bool {
    let bytes = encode_utf8(name);
    &&& bytes.len() == 3 ==> is_char_boundary(bytes, 1)
    &&& bytes.len() > 3 ==> is_char_boundary(bytes, 2) && is_char_boundary(bytes, 4)
}

/// The path of a crate in the sparse index.
pub open spec fn index_url(name: Seq<char>) -> Seq<char> {
    let len = encode_utf8(name).len();
    if len == 0 {
        seq![]
    } else if len == 1 {
        seq!['1', '/'] + name
    } else if len == 2 {
        seq!['2', '/'] + name
    } else if len == 3 {
        seq!['3', '/'] + byte_text(name, 0, 1) + seq!['/'] + name
    } else {
        byte_text(name, 0, 2) + seq!['/'] + byte_text(name, 2, 4) + seq!['/'] + name
    }
}

/// A character boundary is one in the text behind an earlier boundary too.
proof fn lemma_boundary_in_tail(bytes: Seq<u8>, i: int, j: int)
    requires
        valid_utf8(bytes),
        0 <= i <= j <= bytes.len(),
        is_char_boundary(bytes, i),
        is_char_boundary(bytes, j),
    ensures
        is_char_boundary(bytes.subrange(i, bytes.len() as int), j - i),
{
    let tail = bytes.subrange(i, bytes.len() as int);
    valid_utf8_split(bytes, i);
    if j < bytes.len() {
        is_char_boundary_iff_not_is_continuation_byte(bytes, j);
        is_char_boundary_iff_not_is_continuation_byte(tail, j - i);
        assert(tail[j - i] == bytes[j]);
    } else {
        is_char_boundary_start_end_of_seq(tail);
    }
}

/// Cuts a name in two at a byte.
fn cut(name: &str, at: usize) -> (r: (&str, &str))
    requires
        is_char_boundary(encode_utf8(name@), at as int),
        at <= encode_utf8(name@).len(),
    ensures
        r.0@ == byte_text(name@, 0, at as int),
        r.1@ == byte_text(name@, at as int, encode_utf8(name@).len() as int),
        encode_utf8(r.1@) == encode_utf8(name@).subrange(
            at as int,
            encode_utf8(name@).len() as int,
        ),
{
    let (head, tail) = name.split_at(at);
    proof {
        encode_utf8_decode_utf8(head@);
        encode_utf8_decode_utf8(tail@);
    }
    (head, tail)
}

impl Clone for IndexEntry {
    fn clone(&self) -> (r: Self)
        ensures
            r@ == self@,
    {
        IndexEntry {
            name: self.name.clone(),
            etag: match &self.etag {
                Some(etag) => Some(etag.clone()),
                None => None,
            },
            mtime: self.mtime,
            atime: self.atime,
        }
    }
}

impl IndexEntry {
    /// Creates a registry index entry object for a crate.
    #[must_use]
    pub fn new(name: &str) -> (r: Self)
        ensures
            r@ == EntryView::bare(name@),
    {
        IndexEntry { name: name.to_owned(), etag: None, mtime: None, atime: None }
    }

    /// Creates an entry from the sparse index URL path.
    ///
    /// Rejects crate names outside the crates.io character set, closing off
    /// SSRF and path-traversal via crafted index paths.
    #[must_use]
    pub fn try_from_index_url(url: &str) -> (r: Option<Self>)
        ensures
            match r {
                Some(entry) => index_path_name(url@) is Some && entry@ == EntryView::bare(
                    index_path_name(url@)->0,
                ),
                None => index_path_name(url@) is None,
            },
    {
        let chars = to_chars(url);
        let slash: [char; 1] = ['/'];
        assert(slash@ =~= seq!['/']);
        let parts = split(chars.as_slice(), array_as_slice(&slash));
        let ghost shown = text::texts(parts@);
        assert(shown == text::pieces(url@, seq!['/']));
        assert(shown.len() == parts@.len());
        assert(forall|i: int| 0 <= i < parts@.len() ==> shown[i] == (#[trigger] parts@[i])@);
        let first = parts[0];
        let short = first.len() == 1 && (first[0] == '1' || first[0] == '2');
        proof {
            if first@.len() == 1 {
                assert(first@ =~= seq![first@[0]]);
            }
            assert(seq!['1'][0] == '1');
            assert(seq!['2'][0] == '2');
        }
        let name = if short {
            if parts.len() != 2 {
                return None;
            }
            from_chars(parts[1])
        } else {
            if parts.len() != 3 {
                return None;
            }
            from_chars(parts[2])
        };
        if is_crate_name(name.as_str()) {
            Some(IndexEntry::new(name.as_str()))
        } else {
            None
        }
    }

    /// Gets the crate name.
    #[must_use]
    pub fn name(&self) -> (r: &str)
        ensures
            r@ == self@.name,
    {
        self.name.as_str()
    }

    /// Checks if this index entry file contents is the same
    /// as `other` according to the associated metadata.
    #[must_use]
    pub fn is_equivalent(&self, other: &IndexEntry) -> (r: bool)
        ensures
            r == self@.equivalent(other@),
    {
        if let (Some(a), Some(b)) = (self.etag(), other.etag()) {
            if same_text(a, b) {
                return true;
            }
        }
        if let (Some(a), Some(b)) = (self.last_modified(), other.last_modified()) {
            if same_text(a.as_str(), b.as_str()) {
                return true;
            }
        }
        false
    }

    /// Checks if this index entry is expired for the TTL given, `elapsed`
    /// being the time since its last update check.
    #[must_use]
    pub fn is_expired_after(&self, elapsed: &Duration, ttl: &Duration) -> (r: bool)
        ensures
            r == self@.expired_after(*elapsed, *ttl),
    {
        self.atime.is_some() && elapsed.is_longer_than(ttl)
    }

    /// Gets the time since the last update check, read off the clock; zero if
    /// there was none.
    #[must_use]
    pub fn since_update(&self) -> (r: Duration)
        ensures
            r.nanos() < NANOS_PER_SEC,
            self@.atime is Some ==> time::elapsed_reads(self@.atime->0, r),
            self@.atime is None ==> r.total_nanos() == 0,
    {
        match &self.atime {
            Some(atime) => elapsed_since(atime),
            None => Duration::from_secs(0),
        }
    }

    /// Checks if this index entry is expired according for the TTL given.
    ///
    /// The time since the last update check is read off the clock.
    #[must_use]
    pub fn is_expired_with_ttl(&self, ttl: &Duration) -> (r: bool)
        ensures
            self@.atime is Some ==> exists|elapsed: Duration|
                elapsed.nanos() < NANOS_PER_SEC && time::elapsed_reads(self@.atime->0, elapsed)
                    && r == #[trigger] self@.expired_after(
                    elapsed,
                    *ttl,
                ),
            self@.atime is None ==> !r,
    {
        let elapsed = self.since_update();
        self.is_expired_after(&elapsed, ttl)
    }

    /// Gets the HTTP entity tag metadata.
    #[must_use]
    pub fn etag(&self) -> (r: Option<&str>)
        ensures
            text::opt_str(r) == self@.etag,
    {
        match &self.etag {
            Some(etag) => Some(etag.as_str()),
            None => None,
        }
    }

    /// Gets the HTTP Last-Modified metadata.
    #[must_use]
    pub fn last_modified(&self) -> (r: Option<String>)
        ensures
            text::opt_text(r) == self@.last_modified(),
    {
        match self.mtime {
            Some(time) => Some(fmt_http_date(time)),
            None => None,
        }
    }

    /// Gets the file modification time metadata.
    #[must_use]
    pub fn mtime(&self) -> (r: Option<Timestamp>)
        ensures
            match r {
                Some(t) => self@.mtime == Some((t.secs() as int, t.nanos() as int)),
                None => self@.mtime is None,
            },
    {
        self.mtime
    }

    /// Sets the HTTP entity tag metadata.
    pub fn set_etag(&mut self, etag: &str)
        ensures
            final(self)@ == (EntryView { etag: Some(etag@), ..old(self)@ }),
    {
        self.etag = Some(etag.to_owned());
    }

    /// Sets the HTTP Last-Modified metadata. A text that is no HTTP date
    /// leaves the entry without a modification time.
    pub fn set_last_modified(&mut self, last_modified: &str)
        ensures
            final(self)@ == old(self)@.with_last_modified(last_modified@),
    {
        self.mtime = parse_http_date(last_modified);
    }

    /// Sets the file modification time metadata.
    pub fn set_mtime(&mut self, mtime: Timestamp)
        ensures
            final(self)@ == (EntryView {
                mtime: Some((mtime.secs() as int, mtime.nanos() as int)),
                ..old(self)@
            }),
    {
        self.mtime = Some(mtime);
    }

    /// Sets the last upstream server access time metadata.
    pub fn set_last_updated_at(&mut self, now: Instant)
        ensures
            final(self)@ == (EntryView { atime: Some(now), ..old(self)@ }),
    {
        self.atime = Some(now);
    }

    /// Updates the last upstream server access time metadata. The time is read
    /// off the clock.
    pub fn set_last_updated(&mut self)
        ensures
            final(self)@.atime is Some,
            time::instant_reads(final(self)@.atime->0),
            final(self)@ == (EntryView { atime: final(self)@.atime, ..old(self)@ }),
    {
        self.set_last_updated_at(read_instant());
    }

    /// Builds the index entry download URL (relative).
    #[must_use]
    pub fn to_index_url(&self) -> (r: String)
        requires
            has_index_url(self@.name),
        ensures
            r@ == index_url(self@.name),
    {
        let name = self.name.as_str();
        let bytes = name.as_bytes();
        let len: usize = bytes.len();
        let mut out = String::new();
        proof {
            encode_utf8_valid_utf8(name@);
        }
        if len == 0 {
            return out;
        }
        if len == 1 {
            out.push('1');
        } else if len == 2 {
            out.push('2');
        } else if len == 3 {
            let (first, _) = cut(name, 1);
            out.push('3');
            out.push('/');
            out.append(first);
        } else {
            let (first, rest) = cut(name, 2);
            proof {
                lemma_boundary_in_tail(bytes@, 2, 4);
                assert(encode_utf8(rest@).subrange(0, 2) =~= bytes@.subrange(2, 4));
            }
            let (second, _) = cut(rest, 2);
            out.append(first);
            out.push('/');
            out.append(second);
        }
        out.push('/');
        out.append(name);
        proof {
            if len == 1 {
                assert(out@ =~= seq!['1', '/'] + name@);
            } else if len == 2 {
                assert(out@ =~= seq!['2', '/'] + name@);
            } else if len == 3 {
                assert(out@ =~= seq!['3', '/'] + byte_text(name@, 0, 1) + seq!['/'] + name@);
            } else {
                assert(out@ =~= byte_text(name@, 0, 2) + seq!['/'] + byte_text(name@, 2, 4) + seq![
                    '/',
                ] + name@);
            }
        }
        out
    }

    /// Builds the relative index entry file path for cache storage.
    #[must_use]
    pub fn to_file_path(&self) -> (r: String)
        requires
            has_index_url(self@.name),
        ensures
            r@ == index_url(self@.name),
    {
        self.to_index_url()
    }
}

// Laws.

/// For a crate name the index path can be built, and its directories are the
/// first characters of the name.
pub proof fn crate_names_have_index_urls(name: Seq<char>)
    requires
        valid::crate_name(name),
    ensures
        has_index_url(name),
        name.len() == 1 ==> index_url(name) == seq!['1', '/'] + name,
        name.len() == 2 ==> index_url(name) == seq!['2', '/'] + name,
        name.len() == 3 ==> index_url(name) == seq!['3', '/'] + name.take(1) + seq!['/'] + name,
        name.len() > 3 ==> index_url(name) == name.take(2) + seq!['/'] + name.subrange(2, 4)
            + seq!['/'] + name,
{
    valid::crate_names_are_plain(name);
    is_ascii_chars_encode_utf8(name);
    encode_utf8_valid_utf8(name);
    let bytes = encode_utf8(name);
    if name.len() == 3 {
        lemma_ascii_boundary(name, 1);
        lemma_ascii_byte_text(name, 0, 1);
        assert(name.subrange(0, 1) =~= name.take(1));
    } else if name.len() > 3 {
        lemma_ascii_boundary(name, 2);
        lemma_ascii_boundary(name, 4);
        lemma_ascii_byte_text(name, 0, 2);
        lemma_ascii_byte_text(name, 2, 4);
        assert(name.subrange(0, 2) =~= name.take(2));
    }
}

/// Every position of an ASCII text is a character boundary.
proof fn lemma_ascii_boundary(s: Seq<char>, i: int)
    requires
        is_ascii_chars(s),
        0 <= i <= s.len(),
    ensures
        is_char_boundary(encode_utf8(s), i),
{
    is_ascii_chars_encode_utf8(s);
    encode_utf8_valid_utf8(s);
    let bytes = encode_utf8(s);
    if i < s.len() {
        is_char_boundary_iff_not_is_continuation_byte(bytes, i);
        assert(s[i] as u8 == bytes[i]);
    } else {
        is_char_boundary_start_end_of_seq(bytes);
    }
}

/// In an ASCII text, bytes are characters.
proof fn lemma_ascii_byte_text(s: Seq<char>, i: int, j: int)
    requires
        is_ascii_chars(s),
        0 <= i <= j <= s.len(),
    ensures
        byte_text(s, i, j) == s.subrange(i, j),
{
    let part = s.subrange(i, j);
    is_ascii_chars_encode_utf8(s);
    assert(is_ascii_chars(part)) by {
        assert forall|k: int| 0 <= k < part.len() implies '\0' <= #[trigger] part[k] <= '\u{7f}' by {
            assert(part[k] == s[i + k]);
        }
    }
    is_ascii_chars_encode_utf8(part);
    let bytes = encode_utf8(s);
    assert(encode_utf8(part) =~= bytes.subrange(i, j)) by {
        assert forall|k: int| 0 <= k < part.len() implies #[trigger] encode_utf8(part)[k]
            == bytes.subrange(i, j)[k] by {
            assert(part[k] == s[i + k]);
        }
    }
    encode_utf8_decode_utf8(part);
}

/// The index path of a crate leads back to the crate.
pub proof fn index_urls_round_trip(name: Seq<char>)
    requires
        valid::crate_name(name),
    ensures
        index_path_name(index_url(name)) == Some(name),
{
    crate_names_have_index_urls(name);
    valid::crate_names_are_plain(name);
    is_ascii_chars_encode_utf8(name);
    let seps = seq!['/'];
    assert(seps[0] == '/');
    assert forall|j: int| 0 <= j < name.len() implies !seps.contains(#[trigger] name[j]) by {
        assert(name.contains(name[j]));
    }
    text::lemma_pieces_single(name, seps);
    let url = index_url(name);
    assert(seq!['1'][0] == '1');
    assert(seq!['2'][0] == '2');
    if name.len() <= 2 {
        let first = if name.len() == 1 {
            seq!['1']
        } else {
            seq!['2']
        };
        assert(url =~= first + seq!['/'] + name);
        text::lemma_pieces_cons(first, '/', name, seps);
        assert(text::pieces(url, seps) =~= seq![first, name]);
    } else {
        let first = if name.len() == 3 {
            seq!['3']
        } else {
            name.take(2)
        };
        let second = if name.len() == 3 {
            name.take(1)
        } else {
            name.subrange(2, 4)
        };
        assert(seq!['3'][0] == '3');
        let rest = second + seq!['/'] + name;
        assert(url =~= first + seq!['/'] + rest);
        assert forall|j: int| 0 <= j < second.len() implies !seps.contains(#[trigger] second[j]) by {
            assert(second[j] == name[if name.len() == 3 { j } else { j + 2 }]);
        }
        assert forall|j: int| 0 <= j < first.len() implies !seps.contains(#[trigger] first[j]) by {
            if name.len() > 3 {
                assert(first[j] == name[j]);
            }
        }
        text::lemma_pieces_cons(second, '/', name, seps);
        text::lemma_pieces_cons(first, '/', rest, seps);
        assert(text::pieces(url, seps) =~= seq![first, second, name]);
    }
}

/// The index path of a crate is relative and never leaves the index
/// directory: it does not start with a slash and holds no dot.
pub proof fn index_paths_stay_inside(name: Seq<char>)
    requires
        valid::crate_name(name),
    ensures
        index_url(name).len() > 0,
        index_url(name)[0] != '/',
        !index_url(name).contains('.'),
{
    crate_names_have_index_urls(name);
    valid::crate_names_are_plain(name);
    is_ascii_chars_encode_utf8(name);
    let url = index_url(name);
    assert(valid::name_char(name[0]));
    assert forall|i: int| 0 <= i < url.len() implies #[trigger] url[i] != '.' by {
        assert forall|j: int| 0 <= j < name.len() implies #[trigger] name[j] != '.' by {
            assert(name.contains(name[j]));
        }
        if name.len() == 3 {
            if i >= 4 {
                assert(url[i] == name[i - 4]);
            } else if i == 2 {
                assert(url[i] == name[0]);
            }
        } else if name.len() > 3 {
            if i >= 6 {
                assert(url[i] == name[i - 6]);
            } else if i < 2 {
                assert(url[i] == name[i]);
            } else if 3 <= i < 5 {
                assert(url[i] == name[i - 1]);
            }
        } else if i >= 2 {
            assert(url[i] == name[i - 2]);
        }
    }
}

/// Equivalence is symmetric, and nothing is equivalent to an entry without
/// metadata.
pub proof fn equivalence_needs_metadata(a: EntryView, b: EntryView)
    ensures
        a.equivalent(b) == b.equivalent(a),
        a.etag is None && a.mtime is None ==> !a.equivalent(b),
{
}

/// Without entity tags, entries are equivalent exactly when they were modified
/// in the same second.
pub proof fn equivalence_by_date_is_to_the_second(a: EntryView, b: EntryView)
    requires
        a.etag is None,
        a.mtime is Some && httpdate::in_range((a.mtime->0).0),
        b.mtime is Some && httpdate::in_range((b.mtime->0).0),
    ensures
        a.equivalent(b) <==> (a.mtime->0).0 == (b.mtime->0).0,
{
    if a.equivalent(b) {
        httpdate::http_date_determines_second((a.mtime->0).0, (b.mtime->0).0);
    }
}

/// The `Last-Modified` text that an entry gives out is taken back unchanged.
pub proof fn last_modified_round_trips(entry: EntryView, other: EntryView)
    requires
        entry.mtime is Some && httpdate::in_range((entry.mtime->0).0),
    ensures
        other.with_last_modified(entry.last_modified()->0).last_modified()
            == entry.last_modified(),
{
    httpdate::http_dates_round_trip((entry.mtime->0).0);
}

/// An index path names a crate if and only if it is `1/<name>` or `2/<name>`,
/// or has two other segments before the name, the first of them neither `1`
/// nor `2`. The directories are not held to the name.
pub proof fn index_paths_are_taken_apart(url: Seq<char>, name: Seq<char>)
    ensures
        index_path_name(url) == Some(name) <==> valid::crate_name(name) && ({
            ||| url == seq!['1', '/'] + name
            ||| url == seq!['2', '/'] + name
            ||| exists|a: Seq<char>, b: Seq<char>|
                !a.contains('/') && !b.contains('/') && a != seq!['1'] && a != seq!['2'] && url
                    == #[trigger] (a + seq!['/'] + b + seq!['/'] + name)
        }),
{
    let seps = seq!['/'];
    assert(seps[0] == '/');
    let parts = text::pieces(url, seps);
    if index_path_name(url) == Some(name) {
        if parts.len() == 2 {
            text::lemma_sep_index(url, seps);
            let i = text::sep_index(url, seps) as int;
            let rest = url.skip(i + 1);
            assert(parts[0] == url.take(i));
            assert(text::pieces(rest, seps) =~= parts.drop_first());
            text::lemma_sep_index(rest, seps);
            if text::sep_index(rest, seps) < rest.len() {
                assert(text::pieces(rest, seps).len() >= 2) by {
                    let k = text::sep_index(rest, seps) as int;
                    assert(text::pieces(rest.skip(k + 1), seps).len() >= 1);
                }
            }
            assert(parts[1] == rest);
            assert(url =~= parts[0] + seq!['/'] + rest);
            if parts[0] == seq!['1'] {
                assert(url =~= seq!['1', '/'] + name);
            } else {
                assert(url =~= seq!['2', '/'] + name);
            }
        } else {
            text::lemma_three_pieces(url, '/');
            let a = parts[0];
            let b = parts[1];
            lemma_pieces_hold_no_slash(url, 0);
            lemma_pieces_hold_no_slash(url, 1);
            assert(url == a + seq!['/'] + b + seq!['/'] + name);
        }
    }
    if valid::crate_name(name) {
        valid::crate_names_are_plain(name);
        lemma_one_piece(name);
        if url == seq!['1', '/'] + name {
            lemma_one_piece(seq!['1']);
            assert(url =~= seq!['1'] + seq!['/'] + name);
            text::lemma_pieces_cons(seq!['1'], '/', name, seps);
        } else if url == seq!['2', '/'] + name {
            lemma_one_piece(seq!['2']);
            assert(url =~= seq!['2'] + seq!['/'] + name);
            text::lemma_pieces_cons(seq!['2'], '/', name, seps);
        } else if exists|a: Seq<char>, b: Seq<char>|
            !a.contains('/') && !b.contains('/') && a != seq!['1'] && a != seq!['2'] && url
                == #[trigger] (a + seq!['/'] + b + seq!['/'] + name) {
            let (a, b) = choose|a: Seq<char>, b: Seq<char>|
                !a.contains('/') && !b.contains('/') && a != seq!['1'] && a != seq!['2'] && url
                    == #[trigger] (a + seq!['/'] + b + seq!['/'] + name);
            lemma_one_piece(a);
            lemma_one_piece(b);
            assert(url =~= a + seq!['/'] + (b + seq!['/'] + name));
            text::lemma_pieces_cons(a, '/', b + seq!['/'] + name, seps);
            text::lemma_pieces_cons(b, '/', name, seps);
            assert(text::pieces(url, seps) =~= seq![a, b, name]);
        }
    }
}

proof fn lemma_one_piece(s: Seq<char>)
    requires
        !s.contains('/'),
    ensures
        forall|j: int| 0 <= j < s.len() ==> !seq!['/'].contains(#[trigger] s[j]),
        text::pieces(s, seq!['/']) == seq![s],
{
    assert forall|j: int| 0 <= j < s.len() implies !seq!['/'].contains(#[trigger] s[j]) by {
        assert(s.contains(s[j]));
    }
    text::lemma_pieces_single(s, seq!['/']);
}

proof fn lemma_pieces_hold_no_slash(s: Seq<char>, i: int)
    requires
        0 <= i < text::pieces(s, seq!['/']).len(),
    ensures
        !text::pieces(s, seq!['/'])[i].contains('/'),
    decreases s.len(),
{
    let seps = seq!['/'];
    assert(seps[0] == '/');
    text::lemma_sep_index(s, seps);
    let n = text::sep_index(s, seps) as int;
    let part = text::pieces(s, seps)[i];
    if n < s.len() && i > 0 {
        let rest = s.skip(n + 1);
        assert(part == text::pieces(rest, seps)[i - 1]);
        lemma_pieces_hold_no_slash(rest, i - 1);
    } else {
        if part.contains('/') {
            let j = choose|j: int| 0 <= j < part.len() && part[j] == '/';
            assert(s[j] == '/');
            assert(seps.contains(s[j]));
        }
    }
}

/// Entries are equivalent if and only if both have a tag and it is the same,
/// or both have a time and it is written as the same HTTP date. Their names
/// and the times of their checks do not count.
pub proof fn equivalence_is_by_tag_or_date(a: EntryView, b: EntryView)
    ensures
        a.etag is Some && a.etag == b.etag ==> a.equivalent(b),
        a.mtime is Some && b.mtime is Some && httpdate::http_date((a.mtime->0).0)
            == httpdate::http_date((b.mtime->0).0) ==> a.equivalent(b),
        a.equivalent(b) ==> (a.etag is Some && b.etag is Some && a.etag->0 == b.etag->0) || (
        a.mtime is Some && b.mtime is Some && httpdate::http_date((a.mtime->0).0)
            == httpdate::http_date((b.mtime->0).0)),
        a.mtime is None ==> a.last_modified() is None,
        a.mtime is Some ==> a.last_modified() == Some(httpdate::http_date((a.mtime->0).0)),
{
}

/// An entry is expired if and only if it was checked before and more time than
/// the time to live has gone by since, to the nanosecond.
pub proof fn entries_expire_behind_their_ttl(entry: EntryView, elapsed: Duration, ttl: Duration)
    requires
        elapsed.nanos() < 1_000_000_000,
        ttl.nanos() < 1_000_000_000,
    ensures
        entry.atime is None ==> !entry.expired_after(elapsed, ttl),
        entry.atime is Some && elapsed.secs() > ttl.secs() ==> entry.expired_after(elapsed, ttl),
        elapsed.secs() < ttl.secs() ==> !entry.expired_after(elapsed, ttl),
        entry.atime is Some && elapsed.secs() == ttl.secs() ==> (entry.expired_after(elapsed, ttl)
            <==> elapsed.nanos() > ttl.nanos()),
{
}

/// A `Last-Modified` text sets the modification time to the second that it
/// writes, takes the time away if it writes none, and changes nothing else.
pub proof fn last_modified_sets_the_time_alone(entry: EntryView, date: Seq<char>, secs: int)
    ensures
        entry.with_last_modified(date).name == entry.name,
        entry.with_last_modified(date).etag == entry.etag,
        entry.with_last_modified(date).atime == entry.atime,
        httpdate::in_range(secs) ==> entry.with_last_modified(httpdate::http_date(secs)).mtime
            == Some((secs, 0int)),
        httpdate::http_time(date) is None ==> entry.with_last_modified(date).mtime is None,
        EntryView::bare(entry.name) == (EntryView {
            name: entry.name,
            etag: None,
            mtime: None,
            atime: None,
        }),
{
    if httpdate::in_range(secs) {
        httpdate::http_dates_round_trip(secs);
    }
}

/// The index directories of any name that can be cut are its first bytes: the
/// first of three, or the first two and the next two of more. A shorter name
/// stands in the directory of its length.
pub proof fn index_directories_are_the_first_bytes(a: Seq<char>, b: Seq<char>, rest: Seq<char>)
    ensures
        encode_utf8(a).len() == 2 && encode_utf8(b).len() == 2 ==> has_index_url(a + b + rest)
            && index_url(a + b + rest) == a + seq!['/'] + b + seq!['/'] + (a + b + rest),
        encode_utf8(a).len() == 1 && encode_utf8(b).len() == 2 ==> has_index_url(a + b)
            && index_url(a + b) == seq!['3', '/'] + a + seq!['/'] + (a + b),
        encode_utf8(a).len() == 2 ==> has_index_url(a) && index_url(a) == seq!['2', '/'] + a,
        encode_utf8(a).len() == 1 ==> has_index_url(a) && index_url(a) == seq!['1', '/'] + a,
        index_url(Seq::empty()) == Seq::<char>::empty(),
{
    let ab = a + b;
    let name = ab + rest;
    text::lemma_encode_concat(a, b);
    text::lemma_encode_concat(ab, rest);
    lemma_boundary_between(a, b);
    lemma_boundary_between(ab, rest);
    assert(name =~= a + (b + rest));
    lemma_boundary_between(a, b + rest);
    encode_utf8_decode_utf8(a);
    encode_utf8_decode_utf8(b);
    let bytes = encode_utf8(name);
    if encode_utf8(a).len() == 2 && encode_utf8(b).len() == 2 {
        assert(bytes.subrange(0, 2) =~= encode_utf8(a));
        assert(bytes.subrange(2, 4) =~= encode_utf8(b));
    }
    if encode_utf8(a).len() == 1 && encode_utf8(b).len() == 2 {
        assert(encode_utf8(ab).subrange(0, 1) =~= encode_utf8(a));
    }
    assert(encode_utf8(Seq::<char>::empty()).len() == 0);
}

/// Where one text ends and another begins is a character boundary.
proof fn lemma_boundary_between(a: Seq<char>, b: Seq<char>)
    ensures
        is_char_boundary(encode_utf8(a + b), encode_utf8(a).len() as int),
{
    let bytes = encode_utf8(a + b);
    let tail = encode_utf8(b);
    let n = encode_utf8(a).len() as int;
    text::lemma_encode_concat(a, b);
    encode_utf8_valid_utf8(a + b);
    encode_utf8_valid_utf8(b);
    if tail.len() == 0 {
        is_char_boundary_start_end_of_seq(bytes);
    } else {
        is_char_boundary_start_end_of_seq(tail);
        is_char_boundary_iff_not_is_continuation_byte(tail, 0);
        assert(bytes[n] == tail[0]);
        is_char_boundary_iff_not_is_continuation_byte(bytes, n);
    }
}

} // verus!
