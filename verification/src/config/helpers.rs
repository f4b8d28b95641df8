//! Small parsing helpers used while building the configuration.

use vstd::array::array_as_slice;
use vstd::hash_set::StringHashSet;
use vstd::prelude::*;

use crate::text;
use crate::text::{same_text, split, to_chars, to_lower, trim};

verus! {

/// A path below a directory.
pub open spec fn joined_path(dir: Seq<char>, leaf: Seq<char>) -> Seq<char> {
    if dir.len() == 0 || dir.last() == '/' {
        dir + leaf
    } else {
        dir + seq!['/'] + leaf
    }
}

/// Builds the path of a file or directory below a directory.
#[must_use]
pub fn join_path(dir: &str, leaf: &str) -> (r: String)
    ensures
        r@ == joined_path(dir@, leaf@),
{
    let chars = to_chars(dir);
    let n: usize = chars.len();
    let mut out = dir.to_owned();
    if n > 0 && chars[n - 1] != '/' {
        out.push('/');
        assert(out@ =~= dir@ + seq!['/']);
    }
    out.append(leaf);
    out
}

/// The known log levels.
pub open spec fn is_log_level(level: Seq<char>) -> bool {
    level == "error"@ || level == "warn"@ || level == "info"@ || level == "debug"@ || level
        == "trace"@ || level == "off"@
}

/// A requested log level in its known form, `info` if there is none.
pub open spec fn normal_log_level(level: Option<Seq<char>>) -> Seq<char> {
    match level {
        Some(s) => if is_log_level(text::lowered(text::trimmed(s))) {
            text::lowered(text::trimmed(s))
        } else {
            "info"@
        },
        None => "info"@,
    }
}

/// Trims a text and puts it in lower case.
fn plain_form(s: &str) -> (r: String)
    ensures
        r@ == text::lowered(text::trimmed(s@)),
{
    let chars = to_chars(s);
    to_lower(trim(chars.as_slice()))
}

/// Normalizes a requested log level to a known value, defaulting to `info`.
pub fn normalize_log_level(level: Option<String>) -> (r: String)
    ensures
        r@ == normal_log_level(text::opt_text(level)),
{
    match level {
        Some(s) => {
            let l = plain_form(s.as_str());
            let name = l.as_str();
            if same_text(name, "error") || same_text(name, "warn") || same_text(name, "info")
                || same_text(name, "debug") || same_text(name, "trace") || same_text(name, "off") {
                l
            } else {
                "info".to_owned()
            }
        },
        None => "info".to_owned(),
    }
}

/// The log level in force: `-v`/`-vv` win over a requested level, which wins
/// over the `info` default.
pub open spec fn log_level(verbose: u8, level: Option<Seq<char>>) -> Seq<char> {
    if verbose == 0 {
        normal_log_level(level)
    } else if verbose == 1 {
        "debug"@
    } else {
        "trace"@
    }
}

/// Resolves the log level from the number of `-v` flags and the requested
/// level.
pub fn resolve_log_level(verbose: u8, level: Option<String>) -> (r: String)
    ensures
        r@ == log_level(verbose, text::opt_text(level)),
{
    if verbose == 0 {
        normalize_log_level(level)
    } else if verbose == 1 {
        "debug".to_owned()
    } else {
        "trace".to_owned()
    }
}

/// The characters that separate the names of a crate list.
pub open spec fn list_separators() -> Seq<char> {
    seq![',', ' ', '\t', '\n']
}

/// `name` is the trimmed, lower-cased form of the `i`th part of a crate list,
/// and not empty.
pub open spec fn listed(list: Seq<char>, i: int, name: Seq<char>) -> bool {
    let parts = text::pieces(list, list_separators());
    0 <= i < parts.len() && text::trimmed(parts[i]).len() > 0 && name == text::lowered(
        text::trimmed(parts[i]),
    )
}

/// The crates of a crate list.
pub open spec fn override_set(list: Seq<char>) -> Set<Seq<char>> {
    Set::new(|name: Seq<char>| exists|i: int| listed(list, i, name))
}

/// Parses a comma/whitespace-separated crate list into a lower-cased set.
pub fn parse_overrides(list: &str) -> (r: StringHashSet)
    ensures
        r@ == override_set(list@),
{
    let chars = to_chars(list);
    let seps: [char; 4] = [',', ' ', '\t', '\n'];
    assert(seps@ =~= list_separators());
    let parts = split(chars.as_slice(), array_as_slice(&seps));
    let ghost shown = text::texts(parts@);
    assert(shown == text::pieces(list@, list_separators()));
    let mut out = StringHashSet::new();
    let mut i: usize = 0;
    while i < parts.len()
        invariant
            i <= parts@.len(),
            shown == text::texts(parts@),
            shown == text::pieces(list@, list_separators()),
            forall|name: Seq<char>| #[trigger]
                out@.contains(name) <==> exists|k: int| k < i && listed(list@, k, name),
        decreases parts@.len() - i,
    {
        let ghost before = out@;
        assert(shown[i as int] == parts@[i as int]@);
        let name = trim(parts[i]);
        let ghost low = text::lowered(name@);
        if name.len() > 0 {
            out.insert(to_lower(name));
        }
        assert forall|n: Seq<char>| #[trigger] out@.contains(n) <==> exists|k: int|
            k < i + 1 && listed(list@, k, n) by {
            if before.contains(n) {
                let k = choose|k: int| k < i && listed(list@, k, n);
                assert(k < i + 1 && listed(list@, k, n));
            }
            if name@.len() > 0 && n == low {
                assert(listed(list@, i as int, n));
            }
            if exists|k: int| k < i + 1 && listed(list@, k, n) {
                let k = choose|k: int| k < i + 1 && listed(list@, k, n);
                if k < i {
                    assert(before.contains(n));
                }
            }
        }
        i = i + 1;
    }
    proof {
        assert forall|name: Seq<char>| #[trigger] out@.contains(name) <==> override_set(
            list@,
        ).contains(name) by {
            if exists|k: int| listed(list@, k, name) {
                let k = choose|k: int| listed(list@, k, name);
                assert(k < i && listed(list@, k, name));
            }
        }
        assert(out@ =~= override_set(list@));
    }
    out
}

/// A boolean environment flag is set by `1`, `true`, `yes` or `on`.
pub open spec fn is_set(value: Seq<char>) -> bool {
    let plain = text::lowered(text::trimmed(value));
    plain == "1"@ || plain == "true"@ || plain == "yes"@ || plain == "on"@
}

/// Reads the value of a boolean environment flag (`1`/`true`/`yes`/`on`,
/// case-insensitive).
pub fn env_flag(value: &str) -> (r: bool)
    ensures
        r == is_set(value@),
{
    let l = plain_form(value);
    let plain = l.as_str();
    same_text(plain, "1") || same_text(plain, "true") || same_text(plain, "yes") || same_text(
        plain,
        "on",
    )
}

/// Server listening address.
#[derive(Debug, PartialEq, Eq)]
pub enum ListenAddress {
    /// IP address + port.
    SocketAddr(String),
    /// Unix domain socket path.
    UnixPath(String),
}

/// Picks the address to listen at: a socket path wins over an IP address.
pub fn listen_address(unix_path: Option<String>, addr: String) -> (r: ListenAddress)
    ensures
        match unix_path {
            Some(path) => r == ListenAddress::UnixPath(path),
            None => r == ListenAddress::SocketAddr(addr),
        },
{
    match unix_path {
        Some(path) => ListenAddress::UnixPath(path),
        None => ListenAddress::SocketAddr(addr),
    }
}

// Laws.

/// A path below a directory has exactly one slash more than the two have, but
/// none is added behind a slash or to nothing.
pub proof fn paths_are_joined_by_one_slash(dir: Seq<char>, leaf: Seq<char>)
    ensures
        joined_path(Seq::empty(), leaf) == leaf,
        joined_path(dir.push('/'), leaf) == dir + seq!['/'] + leaf,
        dir.len() > 0 && dir.last() != '/' ==> joined_path(dir, leaf) == dir + seq!['/'] + leaf,
{
    assert(joined_path(Seq::empty(), leaf) =~= leaf);
    assert(joined_path(dir.push('/'), leaf) =~= dir + seq!['/'] + leaf);
}

/// A requested log level is one of six words, whatever its letter case and the
/// white space around it; anything else, or nothing, is `info`. One `-v` is
/// `debug` and more are `trace`, whatever is requested.
pub proof fn log_levels_are_the_six(verbose: u8, s: Seq<char>, level: Option<Seq<char>>)
    ensures
        ({
            let plain = text::lowered(text::trimmed(s));
            let known = plain == "error"@ || plain == "warn"@ || plain == "info"@ || plain
                == "debug"@ || plain == "trace"@ || plain == "off"@;
            &&& known ==> log_level(0, Some(s)) == plain
            &&& !known ==> log_level(0, Some(s)) == "info"@
            &&& log_level(0, None) == "info"@
            &&& log_level(1, level) == "debug"@
            &&& verbose >= 2 ==> log_level(verbose, level) == "trace"@
        }),
{
}

/// A flag is set by four words, whatever their letter case and the white space
/// around them, and by nothing else.
pub proof fn flags_are_set_by_four_words(before: Seq<char>, word: Seq<char>, after: Seq<char>)
    requires
        forall|i: int| 0 <= i < before.len() ==> text::is_space(#[trigger] before[i]),
        forall|i: int| 0 <= i < after.len() ==> text::is_space(#[trigger] after[i]),
        word.len() > 0 ==> !text::is_space(word[0]) && !text::is_space(word.last()),
    ensures
        is_set(before + word + after) <==> text::lowered(word) == "1"@ || text::lowered(word)
            == "true"@ || text::lowered(word) == "yes"@ || text::lowered(word) == "on"@,
{
    text::trimming_takes_off_white_space(before, word, after);
}

/// A list names what its parts name: a comma, a blank, a tab or a line feed
/// between two lists makes one list of the crates of both.
pub proof fn lists_are_cut_at_separators(a: Seq<char>, sep: char, b: Seq<char>)
    requires
        sep == ',' || sep == ' ' || sep == '\t' || sep == '\n',
    ensures
        override_set(a + seq![sep] + b) == override_set(a).union(override_set(b)),
{
    let seps = list_separators();
    assert(seps[0] == ',' && seps[1] == ' ' && seps[2] == '\t' && seps[3] == '\n');
    assert(seps.contains(sep));
    let all = a + seq![sep] + b;
    text::texts_are_split_at_separators(a, sep, b, seps);
    let pa = text::pieces(a, seps);
    let pb = text::pieces(b, seps);
    assert forall|name: Seq<char>| #[trigger] override_set(all).contains(name) <==> override_set(
        a,
    ).union(override_set(b)).contains(name) by {
        if override_set(all).contains(name) {
            let i = choose|i: int| listed(all, i, name);
            if i < pa.len() {
                assert(listed(a, i, name));
            } else {
                assert(listed(b, i - pa.len(), name));
            }
        }
        if override_set(a).contains(name) {
            let i = choose|i: int| listed(a, i, name);
            assert(listed(all, i, name));
        }
        if override_set(b).contains(name) {
            let i = choose|i: int| listed(b, i, name);
            assert(listed(all, pa.len() + i, name));
        }
    }
    assert(override_set(all) =~= override_set(a).union(override_set(b)));
}

/// A list without a separator names one crate, in lower case, or none if it is
/// all white space.
pub proof fn words_name_one_crate(word: Seq<char>)
    requires
        !word.contains(','),
        !word.contains(' '),
        !word.contains('\t'),
        !word.contains('\n'),
    ensures
        text::trimmed(word).len() > 0 ==> override_set(word) == set![
            text::lowered(text::trimmed(word)),
        ],
        text::trimmed(word).len() == 0 ==> override_set(word) == Set::<Seq<char>>::empty(),
{
    let seps = list_separators();
    assert forall|j: int| 0 <= j < word.len() implies !seps.contains(#[trigger] word[j]) by {
        assert(word.contains(word[j]));
    }
    text::lemma_pieces_single(word, seps);
    let low = text::lowered(text::trimmed(word));
    if text::trimmed(word).len() > 0 {
        assert(listed(word, 0, low));
        assert(override_set(word) =~= set![low]);
    } else {
        assert(override_set(word) =~= Set::<Seq<char>>::empty());
    }
}

} // verus!
