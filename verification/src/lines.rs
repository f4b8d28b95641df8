//! Lines of a text body.

use vstd::prelude::*;
use vstd::slice::slice_subrange;
use vstd::utf8::*;

use crate::text;

verus! {

/// The length of the first line of `s`, its line feed counted.
pub open spec fn first_line_len(s: Seq<char>) -> nat {
    let i = text::sep_index(s, seq!['\n']);
    if i < s.len() {
        i + 1
    } else {
        s.len()
    }
}

/// The lines of `body`, each with the line feed that ends it. The last line
/// may have none; there is no empty line after a final line feed.
pub open spec fn lines(body: Seq<char>) -> Seq<Seq<char>>
    decreases body.len(),
{
    if body.len() == 0 {
        seq![]
    } else {
        let n = first_line_len(body) as int;
        seq![body.take(n)] + lines(body.skip(n))
    }
}

/// The lines of a body one after the other.
pub open spec fn joined(parts: Seq<Seq<char>>) -> Seq<char>
    decreases parts.len(),
{
    if parts.len() == 0 {
        seq![]
    } else {
        parts[0] + joined(parts.drop_first())
    }
}

/// Text that can stand as a line before another: it ends in its only line
/// feed.
pub open spec fn ended_line(s: Seq<char>) -> bool {
    &&& s.len() > 0
    &&& s.last() == '\n'
    &&& forall|j: int| 0 <= j < s.len() - 1 ==> s[j] != '\n'
}

/// Text that can stand as the last line: non-empty, with no line feed but at
/// its end.
pub open spec fn last_line(s: Seq<char>) -> bool {
    &&& s.len() > 0
    &&& forall|j: int| 0 <= j < s.len() - 1 ==> s[j] != '\n'
}

/// Parts that `lines` can give: all but the last end in their only line feed.
pub open spec fn are_lines(parts: Seq<Seq<char>>) -> bool {
    &&& forall|i: int| 0 <= i < parts.len() ==> last_line(#[trigger] parts[i])
    &&& forall|i: int| 0 <= i < parts.len() - 1 ==> ended_line(#[trigger] parts[i])
}

/// A line without its line feed and the carriage returns before it.
pub open spec fn without_eol(line: Seq<char>) -> Seq<char> {
    text::without_end(text::without_end(line, '\n'), '\r')
}

/// A line without its line feed, or its carriage return and line feed.
pub open spec fn line_text(line: Seq<char>) -> Seq<char> {
    if line.len() > 0 && line.last() == '\n' {
        let bare = line.drop_last();
        if bare.len() > 0 && bare.last() == '\r' {
            bare.drop_last()
        } else {
            bare
        }
    } else {
        line
    }
}

/// The first line of a body has no line feed but at its end.
pub proof fn lemma_first_line(s: Seq<char>)
    requires
        s.len() > 0,
    ensures
        0 < first_line_len(s) <= s.len(),
        last_line(s.take(first_line_len(s) as int)),
        first_line_len(s) < s.len() ==> ended_line(s.take(first_line_len(s) as int)),
{
    let seps = seq!['\n'];
    text::lemma_sep_index(s, seps);
    assert(seps.contains('\n')) by {
        assert(seps[0] == '\n');
    }
    let n = first_line_len(s) as int;
    let line = s.take(n);
    assert forall|j: int| 0 <= j < line.len() - 1 implies line[j] != '\n' by {
        assert(line[j] == s[j]);
    }
}

/// A line before more text is the first line of the whole.
pub proof fn lemma_first_line_is(line: Seq<char>, rest: Seq<char>)
    requires
        last_line(line),
        rest.len() > 0 ==> ended_line(line),
    ensures
        first_line_len(line + rest) == line.len(),
        (line + rest).take(line.len() as int) == line,
        (line + rest).skip(line.len() as int) == rest,
{
    let s = line + rest;
    let seps = seq!['\n'];
    assert(seps.contains('\n')) by {
        assert(seps[0] == '\n');
    }
    assert(s.take(line.len() as int) =~= line);
    assert(s.skip(line.len() as int) =~= rest);
    if line.last() == '\n' {
        assert forall|j: int| 0 <= j < line.len() - 1 implies !seps.contains(#[trigger] s[j]) by {
            assert(s[j] == line[j]);
        }
        assert(s[line.len() - 1] == '\n');
        text::lemma_sep_index_is(s, seps, line.len() - 1);
    } else {
        assert forall|j: int| 0 <= j < s.len() implies !seps.contains(#[trigger] s[j]) by {
            assert(s[j] == line[j]);
        }
        text::lemma_sep_index_is(s, seps, s.len() as int);
    }
}

/// The lines of a body make up the body.
pub proof fn lines_make_up_the_body(body: Seq<char>)
    ensures
        joined(lines(body)) == body,
        are_lines(lines(body)),
    decreases body.len(),
{
    if body.len() > 0 {
        lemma_first_line(body);
        let n = first_line_len(body) as int;
        let rest = body.skip(n);
        lines_make_up_the_body(rest);
        let all = lines(body);
        assert(all.drop_first() =~= lines(rest));
        assert(body.take(n) + rest =~= body);
        assert forall|i: int| 0 <= i < all.len() implies last_line(#[trigger] all[i]) by {
            if i > 0 {
                assert(all[i] == lines(rest)[i - 1]);
            }
        }
        assert forall|i: int| 0 <= i < all.len() - 1 implies ended_line(#[trigger] all[i]) by {
            if i > 0 {
                assert(all[i] == lines(rest)[i - 1]);
            } else {
                assert(lines(rest).len() > 0);
            }
        }
    }
}

/// Putting lines together and splitting the result gives the lines back.
pub proof fn lines_of_joined_lines(parts: Seq<Seq<char>>)
    requires
        are_lines(parts),
    ensures
        lines(joined(parts)) == parts,
    decreases parts.len(),
{
    if parts.len() > 0 {
        let tail = parts.drop_first();
        assert forall|i: int| 0 <= i < tail.len() implies last_line(#[trigger] tail[i]) by {
            assert(tail[i] == parts[i + 1]);
        }
        assert forall|i: int| 0 <= i < tail.len() - 1 implies ended_line(#[trigger] tail[i]) by {
            assert(tail[i] == parts[i + 1]);
        }
        lines_of_joined_lines(tail);
        if tail.len() == 0 {
            assert(joined(tail).len() == 0);
        } else {
            assert(ended_line(parts[0]));
        }
        assert(last_line(parts[0]));
        lemma_first_line_is(parts[0], joined(tail));
        assert(lines(joined(parts)) =~= seq![parts[0]] + tail);
        assert(parts =~= seq![parts[0]] + tail);
    } else {
        assert(lines(joined(parts)) =~= parts);
    }
}

/// After an ASCII byte on a character boundary comes another boundary.
proof fn lemma_boundary_after_ascii(bytes: Seq<u8>, k: int)
    requires
        valid_utf8(bytes),
        0 <= k < bytes.len(),
        bytes[k] < 0x80,
    ensures
        is_char_boundary(bytes, k + 1),
    decreases bytes.len(),
{
    is_char_boundary_iff_not_is_continuation_byte(bytes, k);
    let w = length_of_first_scalar(bytes);
    if k == 0 {
        reveal_with_fuel(is_char_boundary, 3);
    } else {
        assert(k >= w);
        assert(pop_first_scalar(bytes)[k - w] == bytes[k]);
        lemma_boundary_after_ascii(pop_first_scalar(bytes), k - w);
    }
}

/// Every ASCII character stands as its own byte in the encoding.
proof fn lemma_ascii_char_has_byte(s: Seq<char>, j: int)
    requires
        0 <= j < s.len(),
        (s[j] as u32) < 0x80,
    ensures
        encode_utf8(s.take(j)).len() < encode_utf8(s).len(),
        encode_utf8(s)[encode_utf8(s.take(j)).len() as int] == s[j] as u32,
        j < s.len() - 1 ==> encode_utf8(s.take(j)).len() < encode_utf8(s).len() - 1,
{
    let head = s.take(j);
    let upto = s.take(j + 1);
    let tail = s.skip(j + 1);
    assert(upto =~= head + seq![s[j]]);
    assert(s =~= upto + tail);
    text::lemma_encode_concat(head, seq![s[j]]);
    text::lemma_encode_concat(upto, tail);
    assert(seq![s[j]].drop_first() =~= Seq::<char>::empty());
    reveal_with_fuel(encode_utf8, 2);
    assert(encode_utf8(seq![s[j]]) =~= encode_scalar(s[j] as u32));
    let c = s[j] as u32;
    assert(c < 0x80 ==> (c & 0x7F) as u8 == c) by (bit_vector);
    if tail.len() > 0 {
        text::lemma_encode_last(tail);
    }
}

/// Cuts the first line off a body.
pub fn split_first_line(s: &str) -> (r: (&str, &str))
    requires
        s@.len() > 0,
    ensures
        r.0@ == s@.take(first_line_len(s@) as int),
        r.1@ == s@.skip(first_line_len(s@) as int),
        r.1@.len() < s@.len(),
{
    let bytes = s.as_bytes();
    let mut i: usize = 0;
    while i < bytes.len() && bytes[i] != 10
        invariant
            i <= bytes@.len(),
            forall|j: int| 0 <= j < i ==> bytes@[j] != 10,
        decreases bytes@.len() - i,
    {
        i = i + 1;
    }
    let mid: usize = if i < bytes.len() {
        i + 1
    } else {
        i
    };
    proof {
        encode_utf8_valid_utf8(s@);
        encode_utf8_decode_utf8(s@);
        if i < bytes@.len() {
            lemma_boundary_after_ascii(bytes@, i as int);
        } else {
            is_char_boundary_start_end_of_seq(bytes@);
        }
    }
    let (line, rest) = s.split_at(mid);
    proof {
        decode_utf8_split(bytes@, mid as int);
        encode_utf8_decode_utf8(line@);
        encode_utf8_decode_utf8(rest@);
        assert(line@ + rest@ =~= s@);
        text::lemma_encode_last(s@);
        assert(mid > 0);
        assert(line@.len() > 0) by {
            if line@.len() == 0 {
                assert(encode_utf8(line@).len() == 0);
            }
        }
        assert forall|j: int| 0 <= j < line@.len() - 1 implies line@[j] != '\n' by {
            if line@[j] == '\n' {
                lemma_ascii_char_has_byte(line@, j);
                let p = encode_utf8(line@.take(j)).len() as int;
                assert(encode_utf8(line@)[p] == bytes@[p]);
            }
        }
        text::lemma_encode_last(line@);
        if rest@.len() > 0 {
            text::lemma_encode_last(rest@);
            assert(mid < bytes@.len());
            assert(encode_utf8(line@).last() == bytes@[mid - 1]);
            char_u32_cast(line@.last(), 10);
            char_u32_cast('\n', 10);
        }
        lemma_first_line_is(line@, rest@);
    }
    (line, rest)
}

/// Removes a line's line feed and the carriage returns before it.
pub fn strip_eol(line: &[char]) -> (r: &[char])
    ensures
        r@ == without_eol(line@),
{
    text::strip_end(text::strip_end(line, '\n'), '\r')
}

/// Removes a line's line feed, or its carriage return and line feed.
pub fn strip_line_ending(line: &[char]) -> (r: &[char])
    ensures
        r@ == line_text(line@),
{
    let n = line.len();
    if n > 0 && line[n - 1] == '\n' {
        if n > 1 && line[n - 2] == '\r' {
            assert(line@.drop_last().drop_last() =~= line@.subrange(0, n - 2));
            slice_subrange(line, 0, n - 2)
        } else {
            assert(line@.drop_last() =~= line@.subrange(0, n - 1));
            slice_subrange(line, 0, n - 1)
        }
    } else {
        line
    }
}

// Laws.

/// A body is cut behind every line feed and nowhere else. The last line may
/// have none, and an empty body has no line.
pub proof fn bodies_are_cut_behind_line_feeds(line: Seq<char>, rest: Seq<char>)
    requires
        !line.contains('\n'),
    ensures
        ended_line(line.push('\n')),
        lines(line + seq!['\n'] + rest) == seq![line.push('\n')] + lines(rest),
        line.len() > 0 ==> last_line(line) && lines(line) == seq![line],
        lines(Seq::empty()) == Seq::<Seq<char>>::empty(),
{
    let ended = line.push('\n');
    assert forall|j: int| 0 <= j < ended.len() - 1 implies ended[j] != '\n' by {
        assert(ended[j] == line[j]);
        assert(line.contains(line[j]));
    }
    assert(line + seq!['\n'] + rest =~= ended + rest);
    lemma_first_line_is(ended, rest);
    if line.len() > 0 {
        assert forall|j: int| 0 <= j < line.len() - 1 implies line[j] != '\n' by {
            assert(line.contains(line[j]));
        }
        let none = Seq::<char>::empty();
        assert(line + none =~= line);
        lemma_first_line_is(line, none);
        assert(lines(none) =~= Seq::<Seq<char>>::empty());
        assert(lines(line) =~= seq![line]);
    }
}

/// The text of a line is the line without one line feed, or one carriage
/// return and line feed; a carriage return alone belongs to the text.
pub proof fn line_endings_come_off(s: Seq<char>)
    ensures
        line_text(s + seq!['\r', '\n']) == s,
        s.len() == 0 || s.last() != '\r' ==> line_text(s.push('\n')) == s,
        s.len() == 0 || s.last() != '\n' ==> line_text(s) == s,
{
    let long = s + seq!['\r', '\n'];
    assert(long.last() == '\n');
    assert(long.drop_last().last() == '\r');
    assert(long.drop_last().drop_last() =~= s);
    assert(s.push('\n').drop_last() =~= s);
}

/// All line feeds at the end of a line come off, and all carriage returns
/// before them.
pub proof fn all_line_endings_come_off(s: Seq<char>, crs: nat, lfs: nat)
    requires
        s.len() > 0 ==> s.last() != '\r' && s.last() != '\n',
    ensures
        without_eol(
            s + Seq::new(crs, |i: int| '\r') + Seq::new(lfs, |i: int| '\n'),
        ) == s,
{
    let bare = s + Seq::new(crs, |i: int| '\r');
    text::runs_are_taken_off(bare, '\n', lfs);
    text::runs_are_taken_off(s, '\r', crs);
}

} // verus!
