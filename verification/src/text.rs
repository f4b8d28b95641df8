//! Text helpers over sequences of characters.
//!
//! Every rule of the proxy that looks inside a string (a crate list, an index
//! line, an entity tag, a date) is stated over the string's characters. The
//! executable side works on `&[char]` slices, which are cheap to cut.

use vstd::prelude::*;
use vstd::slice::slice_subrange;
use vstd::utf8::*;

verus! {

/// `String::push` of the standard library: appends one character to the end
/// of the string.
pub assume_specification[ String::push ](s: &mut String, c: char)
    ensures
        final(s)@ == old(s)@.push(c),
;

/// The text in `data`, when the bytes are well-formed UTF-8.
///
/// Calls `std::str::from_utf8`, which accepts exactly the well-formed UTF-8
/// byte sequences and returns the characters that they encode.
#[verifier::external_body]
pub(crate) fn utf8_text(data: &[u8]) -> (r: Option<&str>)
    ensures
        r is Some <==> valid_utf8(data@),
        r matches Some(text) ==> text@ == decode_utf8(data@),
{
    std::str::from_utf8(data).ok()
}

/// What `String::from_utf8_lossy` makes of a byte sequence.
pub uninterp spec fn lossy_text(data: Seq<u8>) -> Seq<char>;

/// Calls `String::from_utf8_lossy`: well-formed UTF-8 decodes to its own
/// characters; of any other input only that the text depends on the bytes
/// alone is claimed (the standard library puts U+FFFD in place of the
/// malformed parts).
#[verifier::external_body]
pub(crate) fn text_lossy(data: &[u8]) -> (r: String)
    ensures
        r@ == lossy_text(data@),
        valid_utf8(data@) ==> r@ == decode_utf8(data@),
{
    String::from_utf8_lossy(data).into_owned()
}

/// The characters of an optional string.
pub open spec fn opt_text(s: Option<String>) -> Option<Seq<char>> {
    match s {
        Some(t) => Some(t@),
        None => None,
    }
}

/// The characters of an optional string slice.
pub open spec fn opt_str(s: Option<&str>) -> Option<Seq<char>> {
    match s {
        Some(t) => Some(t@),
        None => None,
    }
}

/// Collects the characters of `s`.
pub fn to_chars(s: &str) -> (r: Vec<char>)
    ensures
        r@ == s@,
{
    let mut out: Vec<char> = Vec::new();
    for c in it: s.chars()
        invariant
            it.seq() == s@,
            out@ == s@.take(it.index()),
    {
        out.push(c);
    }
    out
}

/// Builds a string out of characters.
pub fn from_chars(chars: &[char]) -> (r: String)
    ensures
        r@ == chars@,
{
    let mut out = String::new();
    let mut i: usize = 0;
    while i < chars.len()
        invariant
            i <= chars@.len(),
            out@ == chars@.take(i as int),
        decreases chars@.len() - i,
    {
        out.push(chars[i]);
        i = i + 1;
    }
    out
}

/// Compares two byte slices.
pub fn same_bytes(a: &[u8], b: &[u8]) -> (r: bool)
    ensures
        r == (a@ == b@),
{
    if a.len() != b.len() {
        return false;
    }
    let mut i: usize = 0;
    while i < a.len()
        invariant
            i <= a@.len(),
            a@.len() == b@.len(),
            forall|j: int| 0 <= j < i ==> a@[j] == b@[j],
        decreases a@.len() - i,
    {
        if a[i] != b[i] {
            return false;
        }
        i = i + 1;
    }
    assert(a@ =~= b@);
    true
}

/// Compares two strings.
pub fn same_text(a: &str, b: &str) -> (r: bool)
    ensures
        r == (a@ == b@),
{
    proof {
        encode_utf8_decode_utf8(a@);
        encode_utf8_decode_utf8(b@);
    }
    same_bytes(a.as_bytes(), b.as_bytes())
}

/// Compares two character slices.
pub fn same_chars(a: &[char], b: &[char]) -> (r: bool)
    ensures
        r == (a@ == b@),
{
    if a.len() != b.len() {
        return false;
    }
    let mut i: usize = 0;
    while i < a.len()
        invariant
            i <= a@.len(),
            a@.len() == b@.len(),
            forall|j: int| 0 <= j < i ==> a@[j] == b@[j],
        decreases a@.len() - i,
    {
        if a[i] != b[i] {
            return false;
        }
        i = i + 1;
    }
    assert(a@ =~= b@);
    true
}

// Encoding.

/// The encoding of a concatenation is the concatenation of the encodings.
pub proof fn lemma_encode_concat(a: Seq<char>, b: Seq<char>)
    ensures
        encode_utf8(a + b) == encode_utf8(a) + encode_utf8(b),
    decreases a.len(),
{
    if a.len() == 0 {
        assert(a + b =~= b);
        assert(encode_utf8(a) + encode_utf8(b) =~= encode_utf8(b));
    } else {
        assert((a + b).drop_first() =~= a.drop_first() + b);
        lemma_encode_concat(a.drop_first(), b);
        assert(encode_utf8(a + b) =~= encode_utf8(a) + encode_utf8(b));
    }
}

/// The last byte of an encoding is the last byte of its last character.
pub proof fn lemma_encode_last(s: Seq<char>)
    requires
        s.len() > 0,
    ensures
        encode_utf8(s).len() > 0,
        encode_utf8(s).last() == encode_scalar(s.last() as u32).last(),
        (s.last() as u32) < 0x80 ==> encode_utf8(s).last() == s.last() as u32,
        (s.last() as u32) >= 0x80 ==> encode_utf8(s).last() >= 0x80,
{
    let c = s.last() as u32;
    char_is_scalar(s.last());
    assert(s =~= s.drop_last() + seq![s.last()]);
    lemma_encode_concat(s.drop_last(), seq![s.last()]);
    assert(seq![s.last()].drop_first() =~= Seq::<char>::empty());
    reveal_with_fuel(encode_utf8, 2);
    assert(encode_utf8(seq![s.last()]) =~= encode_scalar(c));
    assert(c < 0x80 ==> (c & 0x7F) as u8 == c) by (bit_vector);
    assert(0x80u8 | (c & 0x3F) as u8 >= 0x80) by (bit_vector);
}

// White space.

/// Characters with the Unicode `White_Space` property.
pub open spec fn is_space(c: char) -> bool {
    ||| '\u{9}' <= c <= '\u{d}'
    ||| c == '\u{20}'
    ||| c == '\u{85}'
    ||| c == '\u{a0}'
    ||| c == '\u{1680}'
    ||| '\u{2000}' <= c <= '\u{200a}'
    ||| c == '\u{2028}'
    ||| c == '\u{2029}'
    ||| c == '\u{202f}'
    ||| c == '\u{205f}'
    ||| c == '\u{3000}'
}

/// Tests for the Unicode `White_Space` property.
pub fn space(c: char) -> (r: bool)
    ensures
        r == is_space(c),
{
    ('\u{9}' <= c && c <= '\u{d}') || c == '\u{20}' || c == '\u{85}' || c == '\u{a0}' || c
        == '\u{1680}' || ('\u{2000}' <= c && c <= '\u{200a}') || c == '\u{2028}' || c == '\u{2029}'
        || c == '\u{202f}' || c == '\u{205f}' || c == '\u{3000}'
}

/// `s` without its leading white space.
pub open spec fn trimmed_start(s: Seq<char>) -> Seq<char>
    decreases s.len(),
{
    if s.len() > 0 && is_space(s[0]) {
        trimmed_start(s.drop_first())
    } else {
        s
    }
}

/// `s` without its trailing white space.
pub open spec fn trimmed_end(s: Seq<char>) -> Seq<char>
    decreases s.len(),
{
    if s.len() > 0 && is_space(s.last()) {
        trimmed_end(s.drop_last())
    } else {
        s
    }
}

/// `s` without white space at either end.
pub open spec fn trimmed(s: Seq<char>) -> Seq<char> {
    trimmed_end(trimmed_start(s))
}

/// Removes leading white space.
pub fn trim_start(s: &[char]) -> (r: &[char])
    ensures
        r@ == trimmed_start(s@),
        r@.len() <= s@.len(),
        r@ == s@.skip(s@.len() - r@.len()),
{
    let mut i: usize = 0;
    assert(s@.skip(0) =~= s@);
    while i < s.len() && space(s[i])
        invariant
            i <= s@.len(),
            trimmed_start(s@.skip(i as int)) == trimmed_start(s@),
        decreases s@.len() - i,
    {
        assert(s@.skip(i as int).drop_first() =~= s@.skip(i + 1));
        i = i + 1;
    }
    assert(s@.skip(i as int).len() > 0 ==> s@.skip(i as int)[0] == s@[i as int]);
    assert(s@.subrange(i as int, s@.len() as int) =~= s@.skip(i as int));
    slice_subrange(s, i, s.len())
}

/// Removes trailing white space.
pub fn trim_end(s: &[char]) -> (r: &[char])
    ensures
        r@ == trimmed_end(s@),
        r@.len() <= s@.len(),
        r@ == s@.take(r@.len() as int),
{
    let mut n: usize = s.len();
    assert(s@.take(n as int) =~= s@);
    while n > 0 && space(s[n - 1])
        invariant
            n <= s@.len(),
            trimmed_end(s@.take(n as int)) == trimmed_end(s@),
        decreases n,
    {
        assert(s@.take(n as int).last() == s@[n - 1]);
        assert(s@.take(n as int).drop_last() =~= s@.take(n - 1));
        n = n - 1;
    }
    assert(s@.take(n as int).len() > 0 ==> s@.take(n as int).last() == s@[n - 1]);
    assert(s@.subrange(0, n as int) =~= s@.take(n as int));
    slice_subrange(s, 0, n)
}

/// Removes white space from both ends.
pub fn trim(s: &[char]) -> (r: &[char])
    ensures
        r@ == trimmed(s@),
        r@.len() <= s@.len(),
{
    trim_end(trim_start(s))
}

// Runs of one character.

/// `s` without the characters `c` at its end.
pub open spec fn without_end(s: Seq<char>, c: char) -> Seq<char>
    decreases s.len(),
{
    if s.len() > 0 && s.last() == c {
        without_end(s.drop_last(), c)
    } else {
        s
    }
}

/// `s` without the characters `c` at its start.
pub open spec fn without_start(s: Seq<char>, c: char) -> Seq<char>
    decreases s.len(),
{
    if s.len() > 0 && s[0] == c {
        without_start(s.drop_first(), c)
    } else {
        s
    }
}

/// Removes the characters `c` from the end of `s`.
pub fn strip_end(s: &[char], c: char) -> (r: &[char])
    ensures
        r@ == without_end(s@, c),
        r@.len() <= s@.len(),
        r@ == s@.take(r@.len() as int),
{
    let mut n: usize = s.len();
    assert(s@.take(n as int) =~= s@);
    while n > 0 && s[n - 1] == c
        invariant
            n <= s@.len(),
            without_end(s@.take(n as int), c) == without_end(s@, c),
        decreases n,
    {
        assert(s@.take(n as int).last() == s@[n - 1]);
        assert(s@.take(n as int).drop_last() =~= s@.take(n - 1));
        n = n - 1;
    }
    assert(s@.take(n as int).len() > 0 ==> s@.take(n as int).last() == s@[n - 1]);
    assert(s@.subrange(0, n as int) =~= s@.take(n as int));
    slice_subrange(s, 0, n)
}

/// Removes the characters `c` from the start of `s`.
pub fn strip_start(s: &[char], c: char) -> (r: &[char])
    ensures
        r@ == without_start(s@, c),
        r@.len() <= s@.len(),
        r@ == s@.skip(s@.len() - r@.len()),
{
    let mut i: usize = 0;
    assert(s@.skip(0) =~= s@);
    while i < s.len() && s[i] == c
        invariant
            i <= s@.len(),
            without_start(s@.skip(i as int), c) == without_start(s@, c),
        decreases s@.len() - i,
    {
        assert(s@.skip(i as int).drop_first() =~= s@.skip(i + 1));
        i = i + 1;
    }
    assert(s@.skip(i as int).len() > 0 ==> s@.skip(i as int)[0] == s@[i as int]);
    assert(s@.subrange(i as int, s@.len() as int) =~= s@.skip(i as int));
    slice_subrange(s, i, s.len())
}

// ASCII letter case.

/// The lower-case form of an ASCII letter; any other character is its own.
pub open spec fn lower(c: char) -> char {
    if 'A' <= c <= 'Z' {
        ((c as u32) + 32) as u32 as char
    } else {
        c
    }
}

/// `s` with its ASCII letters in lower case.
pub open spec fn lowered(s: Seq<char>) -> Seq<char> {
    s.map_values(|c: char| lower(c))
}

/// Lower-cases the ASCII letters of `s`.
pub fn to_lower(s: &[char]) -> (r: String)
    ensures
        r@ == lowered(s@),
{
    let mut out = String::new();
    let mut i: usize = 0;
    while i < s.len()
        invariant
            i <= s@.len(),
            out@ == lowered(s@).take(i as int),
        decreases s@.len() - i,
    {
        let c = s[i];
        if 'A' <= c && c <= 'Z' {
            out.push(((c as u8) + 32) as char);
        } else {
            out.push(c);
        }
        i = i + 1;
    }
    assert(lowered(s@).take(i as int) =~= lowered(s@));
    out
}

// Searching.

/// `needle` stands in `hay` at position `i`.
pub open spec fn occurs_at(hay: Seq<char>, needle: Seq<char>, i: int) -> bool {
    &&& 0 <= i
    &&& i + needle.len() <= hay.len()
    &&& hay.subrange(i, i + needle.len()) == needle
}

/// The first position at or after `from` at which `needle` stands in `hay`.
pub open spec fn first_at(hay: Seq<char>, needle: Seq<char>, from: int) -> Option<int>
    decreases hay.len() + 1 - from,
{
    if from < 0 || from + needle.len() > hay.len() {
        None
    } else if occurs_at(hay, needle, from) {
        Some(from)
    } else {
        first_at(hay, needle, from + 1)
    }
}

/// The last position not after `upto` at which `needle` stands in `hay`.
pub open spec fn last_at(hay: Seq<char>, needle: Seq<char>, upto: int) -> Option<int>
    decreases upto + 1,
{
    if upto < 0 {
        None
    } else if occurs_at(hay, needle, upto) {
        Some(upto)
    } else {
        last_at(hay, needle, upto - 1)
    }
}

/// `needle` stands somewhere in `hay`.
pub open spec fn contains(hay: Seq<char>, needle: Seq<char>) -> bool {
    exists|i: int| occurs_at(hay, needle, i)
}

/// A first position is a position, and none comes before it.
pub proof fn lemma_first_at(hay: Seq<char>, needle: Seq<char>, from: int)
    requires
        0 <= from,
    ensures
        first_at(hay, needle, from) matches Some(i) ==> from <= i && occurs_at(hay, needle, i)
            && forall|j: int| from <= j < i ==> !occurs_at(hay, needle, j),
        first_at(hay, needle, from) is None ==> forall|j: int|
            from <= j ==> !occurs_at(hay, needle, j),
    decreases hay.len() + 1 - from,
{
    if from + needle.len() > hay.len() {
    } else if occurs_at(hay, needle, from) {
    } else {
        lemma_first_at(hay, needle, from + 1);
    }
}

/// A last position is a position, and none comes after it.
pub proof fn lemma_last_at(hay: Seq<char>, needle: Seq<char>, upto: int)
    ensures
        last_at(hay, needle, upto) matches Some(i) ==> i <= upto && occurs_at(hay, needle, i)
            && forall|j: int| i < j <= upto ==> !occurs_at(hay, needle, j),
        last_at(hay, needle, upto) is None ==> forall|j: int|
            j <= upto ==> !occurs_at(hay, needle, j),
    decreases upto + 1,
{
    if upto < 0 {
    } else if occurs_at(hay, needle, upto) {
    } else {
        lemma_last_at(hay, needle, upto - 1);
    }
}

/// Tests whether `needle` stands in `hay` at position `i`.
pub fn matches_at(hay: &[char], needle: &[char], i: usize) -> (r: bool)
    requires
        i + needle@.len() <= hay@.len(),
    ensures
        r == occurs_at(hay@, needle@, i as int),
{
    let len: usize = hay.len();
    assert(i + needle@.len() <= len);
    same_chars(slice_subrange(hay, i, i + needle.len()), needle)
}

/// Finds the first occurrence of `needle` in `hay` at or after `from`.
pub fn find(hay: &[char], needle: &[char], from: usize) -> (r: Option<usize>)
    ensures
        match r {
            Some(i) => first_at(hay@, needle@, from as int) == Some(i as int) && i + needle@.len()
                <= hay@.len(),
            None => first_at(hay@, needle@, from as int) is None,
        },
{
    if needle.len() > hay.len() {
        return None;
    }
    let last: usize = hay.len() - needle.len();
    let mut i: usize = from;
    while i < last
        invariant
            last == hay@.len() - needle@.len(),
            i <= last || i == from,
            first_at(hay@, needle@, i as int) == first_at(hay@, needle@, from as int),
        decreases last - i,
    {
        if matches_at(hay, needle, i) {
            return Some(i);
        }
        i = i + 1;
    }
    if i == last && matches_at(hay, needle, i) {
        return Some(i);
    }
    assert(i == last ==> first_at(hay@, needle@, last + 1) is None);
    None
}

/// Finds the last occurrence of `needle` in `hay`.
pub fn find_last(hay: &[char], needle: &[char]) -> (r: Option<usize>)
    ensures
        match r {
            Some(i) => last_at(hay@, needle@, hay@.len() - needle@.len()) == Some(i as int) && i
                + needle@.len() <= hay@.len(),
            None => last_at(hay@, needle@, hay@.len() - needle@.len()) is None,
        },
{
    if needle.len() > hay.len() {
        return None;
    }
    let mut i: usize = hay.len() - needle.len();
    while i > 0
        invariant
            needle@.len() <= hay@.len(),
            i <= hay@.len() - needle@.len(),
            last_at(hay@, needle@, i as int) == last_at(
                hay@,
                needle@,
                hay@.len() - needle@.len(),
            ),
        decreases i,
    {
        if matches_at(hay, needle, i) {
            return Some(i);
        }
        i = i - 1;
    }
    if matches_at(hay, needle, 0) {
        return Some(0);
    }
    assert(last_at(hay@, needle@, -1) is None);
    None
}

// Splitting.

/// The position of the first character of `s` that is one of `seps`, or the
/// length of `s`.
pub open spec fn sep_index(s: Seq<char>, seps: Seq<char>) -> nat
    decreases s.len(),
{
    if s.len() == 0 || seps.contains(s[0]) {
        0
    } else {
        1 + sep_index(s.drop_first(), seps)
    }
}

/// The pieces of `s` between characters of `seps`; always at least one piece.
pub open spec fn pieces(s: Seq<char>, seps: Seq<char>) -> Seq<Seq<char>>
    decreases s.len(),
{
    let i = sep_index(s, seps);
    if i >= s.len() {
        seq![s]
    } else {
        seq![s.take(i as int)] + pieces(s.skip(i as int + 1), seps)
    }
}

/// The characters of each slice.
pub open spec fn texts(v: Seq<&[char]>) -> Seq<Seq<char>> {
    v.map_values(|p: &[char]| p@)
}

/// `sep_index` stops at a separator, and at the first one.
pub proof fn lemma_sep_index(s: Seq<char>, seps: Seq<char>)
    ensures
        sep_index(s, seps) <= s.len(),
        sep_index(s, seps) < s.len() ==> seps.contains(s[sep_index(s, seps) as int]),
        forall|j: int| 0 <= j < sep_index(s, seps) ==> !seps.contains(#[trigger] s[j]),
    decreases s.len(),
{
    if s.len() == 0 || seps.contains(s[0]) {
    } else {
        lemma_sep_index(s.drop_first(), seps);
        let n = sep_index(s.drop_first(), seps);
        assert forall|j: int| 0 <= j < n + 1 implies !seps.contains(#[trigger] s[j]) by {
            if j > 0 {
                assert(s[j] == s.drop_first()[j - 1]);
            }
        }
    }
}

/// The first separator is the one position that has none before it.
pub proof fn lemma_sep_index_is(s: Seq<char>, seps: Seq<char>, i: int)
    requires
        0 <= i <= s.len(),
        forall|j: int| 0 <= j < i ==> !seps.contains(#[trigger] s[j]),
        i < s.len() ==> seps.contains(s[i]),
    ensures
        sep_index(s, seps) == i,
{
    lemma_sep_index(s, seps);
    let n = sep_index(s, seps) as int;
    if n < i {
        assert(!seps.contains(s[n]));
    }
}

/// Text without a separator is one piece.
pub proof fn lemma_pieces_single(s: Seq<char>, seps: Seq<char>)
    requires
        forall|j: int| 0 <= j < s.len() ==> !seps.contains(#[trigger] s[j]),
    ensures
        pieces(s, seps) == seq![s],
{
    lemma_sep_index_is(s, seps, s.len() as int);
}

/// Text without a separator, put before a separator, becomes the first piece.
pub proof fn lemma_pieces_cons(head: Seq<char>, sep: char, rest: Seq<char>, seps: Seq<char>)
    requires
        forall|j: int| 0 <= j < head.len() ==> !seps.contains(#[trigger] head[j]),
        seps.contains(sep),
    ensures
        pieces(head + seq![sep] + rest, seps) == seq![head] + pieces(rest, seps),
{
    let s = head + seq![sep] + rest;
    assert forall|j: int| 0 <= j < head.len() implies !seps.contains(#[trigger] s[j]) by {
        assert(s[j] == head[j]);
    }
    assert(s[head.len() as int] == sep);
    lemma_sep_index_is(s, seps, head.len() as int);
    assert(s.take(head.len() as int) =~= head);
    assert(s.skip(head.len() as int + 1) =~= rest);
}

/// Text without a separator, put behind some text, extends the last piece.
pub proof fn lemma_pieces_extend(s: Seq<char>, seps: Seq<char>, more: Seq<char>)
    requires
        forall|j: int| 0 <= j < more.len() ==> !seps.contains(#[trigger] more[j]),
    ensures
        pieces(s + more, seps) == pieces(s, seps).drop_last().push(pieces(s, seps).last() + more),
    decreases s.len(),
{
    let i = sep_index(s, seps) as int;
    let all = s + more;
    lemma_sep_index(s, seps);
    if i >= s.len() {
        assert forall|j: int| 0 <= j < all.len() implies !seps.contains(#[trigger] all[j]) by {
            if j < s.len() {
                assert(all[j] == s[j]);
            } else {
                assert(all[j] == more[j - s.len()]);
            }
        }
        lemma_pieces_single(all, seps);
        assert(pieces(s, seps).drop_last().push(pieces(s, seps).last() + more) =~= seq![all]);
    } else {
        let head = s.take(i);
        let rest = s.skip(i + 1);
        assert forall|j: int| 0 <= j < head.len() implies !seps.contains(#[trigger] head[j]) by {
            assert(head[j] == s[j]);
        }
        assert(all =~= head + seq![s[i]] + (rest + more));
        lemma_pieces_cons(head, s[i], rest + more, seps);
        lemma_pieces_extend(rest, seps, more);
        let tail = pieces(rest, seps);
        assert(pieces(s, seps) =~= seq![head] + tail);
        assert(pieces(s, seps).drop_last() =~= seq![head] + tail.drop_last());
        assert(pieces(all, seps) =~= pieces(s, seps).drop_last().push(
            pieces(s, seps).last() + more,
        ));
    }
}

/// The characters of a piece are characters of the whole.
pub proof fn lemma_piece_chars(s: Seq<char>, seps: Seq<char>, i: int, j: int)
    requires
        0 <= i < pieces(s, seps).len(),
        0 <= j < pieces(s, seps)[i].len(),
    ensures
        exists|k: int| 0 <= k < s.len() && s[k] == pieces(s, seps)[i][j],
    decreases s.len(),
{
    let n = sep_index(s, seps) as int;
    lemma_sep_index(s, seps);
    if n >= s.len() {
        assert(s[j] == pieces(s, seps)[i][j]);
    } else if i == 0 {
        assert(s[j] == pieces(s, seps)[i][j]);
    } else {
        let rest = s.skip(n + 1);
        assert(pieces(s, seps)[i] == pieces(rest, seps)[i - 1]);
        lemma_piece_chars(rest, seps, i - 1, j);
        let k = choose|k: int| 0 <= k < rest.len() && rest[k] == pieces(rest, seps)[i - 1][j];
        assert(s[n + 1 + k] == pieces(s, seps)[i][j]);
    }
}

/// Tests whether `c` is one of `seps`.
pub fn one_of(c: char, seps: &[char]) -> (r: bool)
    ensures
        r == seps@.contains(c),
{
    let mut i: usize = 0;
    while i < seps.len()
        invariant
            i <= seps@.len(),
            forall|j: int| 0 <= j < i ==> seps@[j] != c,
        decreases seps@.len() - i,
    {
        if seps[i] == c {
            return true;
        }
        i = i + 1;
    }
    false
}

/// Finds the first separator in `s`, or the end of `s`.
pub fn find_sep(s: &[char], seps: &[char]) -> (r: usize)
    ensures
        r == sep_index(s@, seps@),
        r <= s@.len(),
{
    let mut i: usize = 0;
    while i < s.len() && !one_of(s[i], seps)
        invariant
            i <= s@.len(),
            forall|j: int| 0 <= j < i ==> !seps@.contains(#[trigger] s@[j]),
        decreases s@.len() - i,
    {
        i = i + 1;
    }
    proof {
        lemma_sep_index_is(s@, seps@, i as int);
    }
    i
}

/// Splits `s` at every character of `seps`.
pub fn split<'a>(s: &'a [char], seps: &[char]) -> (r: Vec<&'a [char]>)
    ensures
        texts(r@) == pieces(s@, seps@),
{
    let mut out: Vec<&'a [char]> = Vec::new();
    let mut rest: &'a [char] = s;
    assert(texts(out@) + pieces(s@, seps@) =~= pieces(s@, seps@));
    loop
        invariant
            texts(out@) + pieces(rest@, seps@) == pieces(s@, seps@),
        decreases rest@.len(),
    {
        let i = find_sep(rest, seps);
        let ghost before = texts(out@);
        if i >= rest.len() {
            out.push(rest);
            assert(texts(out@) =~= before + seq![rest@]);
            return out;
        }
        let head = slice_subrange(rest, 0, i);
        let tail = slice_subrange(rest, i + 1, rest.len());
        assert(head@ =~= rest@.take(i as int));
        assert(tail@ =~= rest@.skip(i + 1));
        out.push(head);
        assert(texts(out@) =~= before + seq![head@]);
        assert(texts(out@) + pieces(tail@, seps@) =~= before + pieces(rest@, seps@));
        rest = tail;
    }
}

// Decimal numbers.

/// ASCII decimal digits.
pub open spec fn is_digit(c: char) -> bool {
    '0' <= c <= '9'
}

/// Every character is an ASCII decimal digit.
pub open spec fn all_digits(s: Seq<char>) -> bool {
    forall|i: int| 0 <= i < s.len() ==> is_digit(#[trigger] s[i])
}

/// The value of a run of decimal digits.
pub open spec fn digits_value(s: Seq<char>) -> nat
    decreases s.len(),
{
    if s.len() == 0 {
        0
    } else {
        (digits_value(s.drop_last()) * 10 + (s.last() as u32 - '0' as u32)) as nat
    }
}

/// The number not above `max` that `s` writes in decimal: one or more digits
/// after an optional `+`.
pub open spec fn number(s: Seq<char>, max: nat) -> Option<nat> {
    let d = if s.len() > 0 && s[0] == '+' {
        s.drop_first()
    } else {
        s
    };
    if d.len() > 0 && all_digits(d) && digits_value(d) <= max {
        Some(digits_value(d))
    } else {
        None
    }
}

/// The character of a decimal digit.
pub open spec fn digit_char(d: int) -> char {
    (('0' as u32) + d) as u32 as char
}

/// A number in decimal, without leading zeros.
pub open spec fn decimal(n: nat) -> Seq<char>
    decreases n,
{
    if n < 10 {
        seq![digit_char(n as int)]
    } else {
        decimal(n / 10).push(digit_char((n % 10) as int))
    }
}

/// The value of a prefix is not above the value of the whole.
pub proof fn lemma_digits_prefix(s: Seq<char>, i: int)
    requires
        all_digits(s),
        0 <= i <= s.len(),
    ensures
        digits_value(s.take(i)) <= digits_value(s),
    decreases s.len() - i,
{
    if i == s.len() {
        assert(s.take(i) =~= s);
    } else {
        assert(s.take(i + 1).drop_last() =~= s.take(i));
        assert(s.take(i + 1).last() == s[i]);
        lemma_digits_prefix(s, i + 1);
    }
}

/// A written number reads back as itself.
pub proof fn lemma_decimal(n: nat)
    ensures
        decimal(n).len() > 0,
        all_digits(decimal(n)),
        digits_value(decimal(n)) == n,
    decreases n,
{
    if n < 10 {
        assert(decimal(n).drop_last() =~= Seq::<char>::empty());
        assert(decimal(n).last() == digit_char(n as int));
        assert(digits_value(decimal(n).drop_last()) == 0);
    } else {
        lemma_decimal(n / 10);
        let d = decimal(n);
        assert(d.drop_last() =~= decimal(n / 10));
        assert forall|i: int| 0 <= i < d.len() implies is_digit(#[trigger] d[i]) by {
            if i < d.len() - 1 {
                assert(d[i] == decimal(n / 10)[i]);
            }
        }
    }
}

/// Reads a decimal number not above `max`.
pub fn parse_number(s: &[char], max: u64) -> (r: Option<u64>)
    ensures
        match r {
            Some(v) => number(s@, max as nat) == Some(v as nat),
            None => number(s@, max as nat) is None,
        },
{
    let d = if s.len() > 0 && s[0] == '+' {
        assert(s@.subrange(1, s@.len() as int) =~= s@.drop_first());
        slice_subrange(s, 1, s.len())
    } else {
        s
    };
    if d.len() == 0 {
        return None;
    }
    let mut value: u64 = 0;
    let mut i: usize = 0;
    while i < d.len()
        invariant
            i <= d@.len(),
            forall|j: int| 0 <= j < i ==> is_digit(#[trigger] d@[j]),
            value == digits_value(d@.take(i as int)),
            value <= max,
            d@.len() > 0,
            d@ == (if s@.len() > 0 && s@[0] == '+' {
                s@.drop_first()
            } else {
                s@
            }),
        decreases d@.len() - i,
    {
        let c = d[i];
        if !('0' <= c && c <= '9') {
            assert(!is_digit(d@[i as int]));
            return None;
        }
        let digit: u64 = (c as u32 - '0' as u32) as u64;
        proof {
            assert(d@.take(i + 1).drop_last() =~= d@.take(i as int));
            assert(d@.take(i + 1).last() == c);
            if all_digits(d@) {
                lemma_digits_prefix(d@, i + 1);
            }
        }
        match value.checked_mul(10) {
            Some(shifted) => {
                if digit > max || shifted > max - digit {
                    return None;
                }
                value = shifted + digit;
            },
            None => {
                return None;
            },
        }
        i = i + 1;
    }
    assert(d@.take(i as int) =~= d@);
    Some(value)
}

/// Appends a number in decimal.
pub fn push_decimal(out: &mut String, n: u64)
    ensures
        final(out)@ == old(out)@ + decimal(n as nat),
    decreases n,
{
    if n >= 10 {
        push_decimal(out, n / 10);
    }
    let digit: u8 = (n % 10) as u8;
    out.push((48 + digit) as char);
    assert(out@ =~= old(out)@ + decimal(n as nat));
}

// Laws.

/// The white space characters, by their code points.
pub proof fn white_space_by_code(c: char)
    ensures
        is_space(c) <==> {
            let n = c as u32;
            9 <= n <= 13 || n == 32 || n == 133 || n == 160 || n == 5760 || 8192 <= n <= 8202 || n
                == 8232 || n == 8233 || n == 8239 || n == 8287 || n == 12288
        },
{
}

/// Trimming takes off the white space at the ends and nothing else: whatever
/// white space is put around a text that has none at its own ends, trimming
/// gives that text back.
pub proof fn trimming_takes_off_white_space(before: Seq<char>, s: Seq<char>, after: Seq<char>)
    requires
        forall|i: int| 0 <= i < before.len() ==> is_space(#[trigger] before[i]),
        forall|i: int| 0 <= i < after.len() ==> is_space(#[trigger] after[i]),
        s.len() > 0 ==> !is_space(s[0]) && !is_space(s.last()),
    ensures
        s.len() > 0 ==> trimmed_start(before + s) == s,
        trimmed_end(s + after) == s,
        trimmed(before + s + after) == s,
{
    lemma_trimmed_end_is(s, after);
    if s.len() > 0 {
        lemma_trimmed_start_is(before, s);
        assert((s + after)[0] == s[0]);
        lemma_trimmed_start_is(before, s + after);
        assert(before + s + after =~= before + (s + after));
    } else {
        let all = before + after;
        assert(before + s + after =~= all + s);
        assert forall|i: int| 0 <= i < all.len() implies is_space(#[trigger] all[i]) by {
            if i < before.len() {
                assert(all[i] == before[i]);
            } else {
                assert(all[i] == after[i - before.len()]);
            }
        }
        lemma_trimmed_start_is(all, s);
    }
}

/// White space before a text that does not start with any is taken off.
pub proof fn lemma_trimmed_start_is(before: Seq<char>, s: Seq<char>)
    requires
        forall|i: int| 0 <= i < before.len() ==> is_space(#[trigger] before[i]),
        s.len() > 0 ==> !is_space(s[0]),
    ensures
        trimmed_start(before + s) == s,
    decreases before.len(),
{
    let all = before + s;
    if before.len() == 0 {
        assert(all =~= s);
    } else {
        let rest = before.drop_first();
        assert(all[0] == before[0]);
        assert(all.drop_first() =~= rest + s);
        assert forall|i: int| 0 <= i < rest.len() implies is_space(#[trigger] rest[i]) by {
            assert(rest[i] == before[i + 1]);
        }
        lemma_trimmed_start_is(rest, s);
    }
}

proof fn lemma_trimmed_end_is(s: Seq<char>, after: Seq<char>)
    requires
        forall|i: int| 0 <= i < after.len() ==> is_space(#[trigger] after[i]),
        s.len() > 0 ==> !is_space(s.last()),
    ensures
        trimmed_end(s + after) == s,
    decreases after.len(),
{
    let all = s + after;
    if after.len() == 0 {
        assert(all =~= s);
    } else {
        assert(all.last() == after.last());
        assert(all.drop_last() =~= s + after.drop_last());
        lemma_trimmed_end_is(s, after.drop_last());
    }
}

/// A run of one character at an end is taken off whole, and nothing else.
pub proof fn runs_are_taken_off(s: Seq<char>, c: char, n: nat)
    ensures
        s.len() == 0 || s.last() != c ==> without_end(s + Seq::new(n, |i: int| c), c) == s,
        s.len() == 0 || s[0] != c ==> without_start(Seq::new(n, |i: int| c) + s, c) == s,
    decreases n,
{
    let run = Seq::new(n, |i: int| c);
    if n == 0 {
        assert(s + run =~= s);
        assert(run + s =~= s);
    } else {
        let less = Seq::new((n - 1) as nat, |i: int| c);
        assert((s + run).drop_last() =~= s + less);
        assert((run + s).drop_first() =~= less + s);
        assert((s + run).last() == c);
        assert((run + s)[0] == c);
        runs_are_taken_off(s, c, (n - 1) as nat);
    }
}

/// Lower-casing moves the 26 capital letters by 32 code points, each in its
/// place, and changes nothing else; doing it twice is doing it once.
pub proof fn lower_case_by_code(s: Seq<char>, i: int)
    requires
        0 <= i < s.len(),
    ensures
        lowered(s).len() == s.len(),
        65 <= s[i] as u32 <= 90 ==> lowered(s)[i] as u32 == s[i] as u32 + 32,
        !(65 <= s[i] as u32 <= 90) ==> lowered(s)[i] == s[i],
        lowered(lowered(s)) == lowered(s),
        lowered("AZ"@) == "az"@,
{
    reveal_strlit("AZ");
    reveal_strlit("az");
    lemma_lower(s[i]);
    assert(lowered("AZ"@) =~= "az"@) by {
        lemma_lower('A');
        lemma_lower('Z');
    }
    assert(lowered(lowered(s)) =~= lowered(s)) by {
        assert forall|k: int| 0 <= k < s.len() implies lowered(lowered(s))[k] == lowered(s)[k] by {
            lemma_lower(s[k]);
        }
    }
}

proof fn lemma_lower(c: char)
    ensures
        65 <= c as u32 <= 90 ==> lower(c) as u32 == c as u32 + 32,
        !(65 <= c as u32 <= 90) ==> lower(c) == c,
        lower(lower(c)) == lower(c),
{
}

/// A text holds another if and only if it is that one with something before
/// and behind it.
pub proof fn contained_texts_stand_between(hay: Seq<char>, needle: Seq<char>)
    ensures
        contains(hay, needle) <==> exists|a: Seq<char>, b: Seq<char>|
            hay == #[trigger] (a + needle + b),
{
    if contains(hay, needle) {
        let i = choose|i: int| occurs_at(hay, needle, i);
        let a = hay.take(i);
        let b = hay.skip(i + needle.len());
        assert(hay =~= a + hay.subrange(i, i + needle.len()) + b);
        assert(hay == a + needle + b);
    }
    if exists|a: Seq<char>, b: Seq<char>| hay == #[trigger] (a + needle + b) {
        let (a, b) = choose|a: Seq<char>, b: Seq<char>| hay == #[trigger] (a + needle + b);
        let i = a.len() as int;
        assert(hay.subrange(i, i + needle.len()) =~= needle);
        assert(occurs_at(hay, needle, i));
    }
}

/// Splitting cuts at every separator: two texts with a separator between them
/// have the pieces of the one and then those of the other. With
/// `lemma_pieces_single` this fixes the pieces of every text.
pub proof fn texts_are_split_at_separators(a: Seq<char>, sep: char, b: Seq<char>, seps: Seq<char>)
    requires
        seps.contains(sep),
    ensures
        pieces(a + seq![sep] + b, seps) == pieces(a, seps) + pieces(b, seps),
    decreases a.len(),
{
    lemma_sep_index(a, seps);
    let i = sep_index(a, seps) as int;
    if i >= a.len() {
        lemma_pieces_cons(a, sep, b, seps);
    } else {
        let head = a.take(i);
        let rest = a.skip(i + 1);
        assert forall|j: int| 0 <= j < head.len() implies !seps.contains(#[trigger] head[j]) by {
            assert(head[j] == a[j]);
        }
        assert(a + seq![sep] + b =~= head + seq![a[i]] + (rest + seq![sep] + b));
        lemma_pieces_cons(head, a[i], rest + seq![sep] + b, seps);
        texts_are_split_at_separators(rest, sep, b, seps);
        assert(pieces(a + seq![sep] + b, seps) =~= pieces(a, seps) + pieces(b, seps));
    }
}

/// Three pieces at one separator make up the text with two of them between.
pub proof fn lemma_three_pieces(s: Seq<char>, sep: char)
    requires
        pieces(s, seq![sep]).len() == 3,
    ensures
        ({
            let p = pieces(s, seq![sep]);
            s == p[0] + seq![sep] + p[1] + seq![sep] + p[2]
        }),
{
    let seps = seq![sep];
    let p = pieces(s, seps);
    lemma_sep_index(s, seps);
    let i = sep_index(s, seps) as int;
    let rest = s.skip(i + 1);
    assert(s =~= s.take(i) + seq![s[i]] + rest);
    assert(pieces(rest, seps) =~= p.drop_first());
    lemma_sep_index(rest, seps);
    let j = sep_index(rest, seps) as int;
    let last = rest.skip(j + 1);
    assert(rest =~= rest.take(j) + seq![rest[j]] + last);
    assert(pieces(last, seps) =~= p.drop_first().drop_first());
    lemma_sep_index(last, seps);
    assert(sep_index(last, seps) >= last.len()) by {
        let k = sep_index(last, seps) as int;
        if k < last.len() {
            assert(pieces(last, seps).len() == 1 + pieces(last.skip(k + 1), seps).len());
            assert(pieces(last.skip(k + 1), seps).len() >= 1);
        }
    }
    assert(p[0] == s.take(i));
    assert(p[1] == p.drop_first()[0]);
    assert(p[2] == p.drop_first().drop_first()[0]);
    assert(s =~= p[0] + seq![sep] + p[1] + seq![sep] + p[2]);
}

/// The ten digits.
pub proof fn digits_by_value(d: int)
    requires
        0 <= d < 10,
    ensures
        digit_char(d) == seq!['0', '1', '2', '3', '4', '5', '6', '7', '8', '9'][d],
        is_digit(digit_char(d)),
        digit_char(d) as u32 == 48 + d,
{
}

/// A digit behind a run of digits makes ten times its value, and the digit
/// more; writing a number is the reverse, without leading zeros.
pub proof fn digits_count_in_tens(s: Seq<char>, n: nat, d: int)
    requires
        0 <= d < 10,
    ensures
        digits_value(Seq::empty()) == 0,
        digits_value(s.push(digit_char(d))) == 10 * digits_value(s) + d,
        decimal(d as nat) == seq![digit_char(d)],
        n > 0 ==> decimal((10 * n + d) as nat) == decimal(n).push(digit_char(d)),
        digits_value(decimal(n)) == n,
{
    lemma_decimal(n);
    digits_by_value(d);
    assert(s.push(digit_char(d)).drop_last() =~= s);
    assert(n > 0 ==> (10 * n + d) / 10 == n);
    assert((10 * n + d) % 10 == d);
}

/// A text writes a number if and only if it is a run of one or more digits, or
/// one with a `+` before it, and the value of the run is not above the limit.
pub proof fn numbers_are_digit_runs(s: Seq<char>, max: nat, v: nat)
    ensures
        number(s, max) == Some(v) <==> exists|d: Seq<char>|
            (s == d || s == seq!['+'] + d) && d.len() > 0 && #[trigger] all_digits(d)
                && digits_value(d) == v && v <= max,
{
    if number(s, max) == Some(v) {
        if s[0] == '+' {
            let d = s.drop_first();
            assert(s =~= seq!['+'] + d);
            assert(all_digits(d));
        } else {
            assert(all_digits(s));
        }
    }
    if exists|d: Seq<char>|
        (s == d || s == seq!['+'] + d) && d.len() > 0 && #[trigger] all_digits(d) && digits_value(d)
            == v && v <= max {
        let d = choose|d: Seq<char>|
            (s == d || s == seq!['+'] + d) && d.len() > 0 && #[trigger] all_digits(d)
                && digits_value(d) == v && v <= max;
        if s == d {
            assert(is_digit(d[0]));
            assert(s[0] != '+');
        } else {
            assert(s[0] == '+');
            assert(s.drop_first() =~= d);
        }
    }
}

/// An optional string has the characters of the string that it holds; slices
/// have theirs, one by one.
pub proof fn optional_texts_are_whole(s: String, t: &str, v: Seq<&[char]>, i: int)
    requires
        0 <= i < v.len(),
    ensures
        opt_text(Some(s)) == Some(s@),
        opt_text(None) is None,
        opt_str(Some(t)) == Some(t@),
        opt_str(None) is None,
        texts(v).len() == v.len(),
        texts(v)[i] == v[i]@,
{
}

} // verus!
