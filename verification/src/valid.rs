//! Crate name and version validation.
//!
//! The sparse-index and download paths come from the network. Their segments
//! become part of upstream URLs and of file paths in the cache, so anything
//! but the character sets that crates.io uses is turned away: a `:` could name
//! another scheme or host, a `/` another directory. A version may hold dots,
//! but is never a `.` or `..` segment.

use vstd::prelude::*;

use crate::text::to_chars;

verus! {

/// Maximum accepted crate name or version length (crates.io caps names at 64).
pub const MAX_LEN: usize = 64;

/// ASCII letters and digits.
pub open spec fn is_alphanumeric(c: char) -> bool {
    'a' <= c <= 'z' || 'A' <= c <= 'Z' || '0' <= c <= '9'
}

/// Characters of a crate name.
pub open spec fn name_char(c: char) -> bool {
    is_alphanumeric(c) || c == '-' || c == '_'
}

/// Characters of a crate version.
pub open spec fn version_char(c: char) -> bool {
    is_alphanumeric(c) || c == '.' || c == '-' || c == '+' || c == '_'
}

/// Syntactically valid crate names.
pub open spec fn crate_name(s: Seq<char>) -> bool {
    0 < s.len() <= MAX_LEN && forall|i: int| 0 <= i < s.len() ==> name_char(#[trigger] s[i])
}

/// Path segments that name the present or the parent directory.
pub open spec fn dot_segment(s: Seq<char>) -> bool {
    s == seq!['.'] || s == seq!['.', '.']
}

/// Syntactically plausible crate versions.
pub open spec fn crate_version(s: Seq<char>) -> bool {
    &&& 0 < s.len() <= MAX_LEN
    &&& !dot_segment(s)
    &&& forall|i: int| 0 <= i < s.len() ==> version_char(#[trigger] s[i])
}

fn alphanumeric(c: char) -> (r: bool)
    ensures
        r == is_alphanumeric(c),
{
    ('a' <= c && c <= 'z') || ('A' <= c && c <= 'Z') || ('0' <= c && c <= '9')
}

/// Returns `true` for a syntactically valid crate name.
///
/// Non-empty, at most 64 ASCII alphanumerics, `-` and `_`. Notably excludes
/// `.`, `/`, `:`, and `@`.
#[must_use]
pub fn is_crate_name(name: &str) -> (r: bool)
    ensures
        r == crate_name(name@),
{
    let chars = to_chars(name);
    if chars.len() == 0 || chars.len() > MAX_LEN {
        return false;
    }
    let mut i: usize = 0;
    while i < chars.len()
        invariant
            i <= chars@.len(),
            chars@ == name@,
            forall|j: int| 0 <= j < i ==> name_char(#[trigger] name@[j]),
        decreases chars@.len() - i,
    {
        let c = chars[i];
        if !(alphanumeric(c) || c == '-' || c == '_') {
            assert(!name_char(name@[i as int]));
            return false;
        }
        i = i + 1;
    }
    true
}

/// Tests for a path segment that names the present or the parent directory.
fn is_dot_segment(s: &[char]) -> (r: bool)
    ensures
        r == dot_segment(s@),
{
    let r = (s.len() == 1 && s[0] == '.') || (s.len() == 2 && s[0] == '.' && s[1] == '.');
    proof {
        assert(seq!['.'][0] == '.');
        assert(seq!['.', '.'][0] == '.' && seq!['.', '.'][1] == '.');
        if s@.len() == 1 && s@[0] == '.' {
            assert(s@ =~= seq!['.']);
        }
        if s@.len() == 2 && s@[0] == '.' && s@[1] == '.' {
            assert(s@ =~= seq!['.', '.']);
        }
    }
    r
}

/// Returns `true` for a syntactically plausible crate version.
///
/// Permits the semver character set (alphanumerics and `. - + _`), but not the
/// versions `.` and `..`; still excludes `/`, `:`, and `@`, so it cannot name a
/// host or a directory.
#[must_use]
pub fn is_crate_version(version: &str) -> (r: bool)
    ensures
        r == crate_version(version@),
{
    let chars = to_chars(version);
    if chars.len() == 0 || chars.len() > MAX_LEN {
        return false;
    }
    if is_dot_segment(chars.as_slice()) {
        return false;
    }
    let mut i: usize = 0;
    while i < chars.len()
        invariant
            i <= chars@.len(),
            chars@ == version@,
            0 < chars@.len() <= MAX_LEN,
            !dot_segment(version@),
            forall|j: int| 0 <= j < i ==> version_char(#[trigger] version@[j]),
        decreases chars@.len() - i,
    {
        let c = chars[i];
        if !(alphanumeric(c) || c == '.' || c == '-' || c == '+' || c == '_') {
            assert(!version_char(version@[i as int]));
            return false;
        }
        i = i + 1;
    }
    true
}

/// A crate name holds no character with a meaning in a URL or a path.
pub proof fn crate_names_are_plain(name: Seq<char>)
    requires
        crate_name(name),
    ensures
        !name.contains(':'),
        !name.contains('/'),
        !name.contains('@'),
        !name.contains('.'),
        !name.contains('\\'),
        !name.contains('"'),
        vstd::utf8::is_ascii_chars(name),
{
}

/// A crate version holds no scheme, host or path separator, and is no dot
/// segment.
pub proof fn crate_versions_are_plain(version: Seq<char>)
    requires
        crate_version(version),
    ensures
        !version.contains(':'),
        !version.contains('/'),
        !version.contains('@'),
        !version.contains('\\'),
        !version.contains('"'),
        !dot_segment(version),
        vstd::utf8::is_ascii_chars(version),
{
}

/// The letters and digits of ASCII, by their code points.
pub open spec fn code_is_alphanumeric(n: u32) -> bool {
    48 <= n <= 57 || 65 <= n <= 90 || 97 <= n <= 122
}

/// A text is a crate name if and only if it has 1 to 64 characters and every
/// one of them is a letter, a digit, a dash (45) or an underscore (95).
pub proof fn crate_names_by_code(s: Seq<char>)
    ensures
        crate_name(s) <==> 1 <= s.len() <= 64 && forall|i: int|
            0 <= i < s.len() ==> code_is_alphanumeric((#[trigger] s[i]) as u32) || s[i] as u32
                == 45 || s[i] as u32 == 95,
{
    assert forall|i: int| 0 <= i < s.len() implies (name_char(#[trigger] s[i]) <==> (
    code_is_alphanumeric(s[i] as u32) || s[i] as u32 == 45 || s[i] as u32 == 95)) by {
        lemma_codes(s[i]);
    }
}

/// A text is a crate version if and only if it has 1 to 64 characters, every
/// one of them is a letter, a digit, a plus (43), a dash (45), a dot (46) or an
/// underscore (95), and it is neither one dot nor two.
pub proof fn crate_versions_by_code(s: Seq<char>)
    ensures
        crate_version(s) <==> 1 <= s.len() <= 64 && (s.len() == 1 ==> s[0] != '.') && (s.len() == 2
            ==> s[0] != '.' || s[1] != '.') && forall|i: int|
            0 <= i < s.len() ==> code_is_alphanumeric((#[trigger] s[i]) as u32) || s[i] as u32
                == 43 || s[i] as u32 == 45 || s[i] as u32 == 46 || s[i] as u32 == 95,
{
    assert forall|i: int| 0 <= i < s.len() implies (version_char(#[trigger] s[i]) <==> (
    code_is_alphanumeric(s[i] as u32) || s[i] as u32 == 43 || s[i] as u32 == 45 || s[i] as u32 == 46
        || s[i] as u32 == 95)) by {
        lemma_codes(s[i]);
    }
    assert(seq!['.'][0] == '.');
    assert(seq!['.', '.'][0] == '.' && seq!['.', '.'][1] == '.');
    if s.len() == 1 && s[0] == '.' {
        assert(s =~= seq!['.']);
    }
    if s.len() == 2 && s[0] == '.' && s[1] == '.' {
        assert(s =~= seq!['.', '.']);
    }
}

proof fn lemma_codes(c: char)
    ensures
        name_char(c) <==> code_is_alphanumeric(c as u32) || c as u32 == 45 || c as u32 == 95,
        version_char(c) <==> code_is_alphanumeric(c as u32) || c as u32 == 43 || c as u32 == 45
            || c as u32 == 46 || c as u32 == 95,
{
}

} // verus!
