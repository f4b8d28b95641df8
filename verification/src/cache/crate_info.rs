//! Crate name and version handling helpers.

use vstd::array::array_as_slice;
use vstd::prelude::*;

use crate::text;
use crate::text::{from_chars, split, to_chars};
use crate::valid;
use crate::valid::{is_crate_name, is_crate_version};

verus! {

/// A version of a crate.
#[derive(Debug, PartialEq, Eq, PartialOrd, Ord)]
pub struct CrateInfo {
    /// Crate name.
    name: String,
    /// Crate version.
    version: String,
}

/// What a crate version holds.
pub struct CrateView {
    /// Crate name.
    pub name: Seq<char>,
    /// Crate version.
    pub version: Seq<char>,
}

impl View for CrateInfo {
    type V = CrateView;

    closed spec fn view(&self) -> CrateView {
        CrateView { name: self.name@, version: self.version@ }
    }
}

impl CrateView {
    /// Name and version are from the character sets of crates.io.
    pub open spec fn is_valid(self) -> bool {
        valid::crate_name(self.name) && valid::crate_version(self.version)
    }
}

/// The last segment of a download path.
pub open spec fn download_word() -> Seq<char> {
    seq!['d', 'o', 'w', 'n', 'l', 'o', 'a', 'd']
}

/// The crate that a path `<name>/<version>/download` asks for.
pub open spec fn download_path_crate(url: Seq<char>) -> Option<CrateView> {
    let parts = text::pieces(url, seq!['/']);
    if parts.len() == 3 && parts[2] == download_word() && valid::crate_name(parts[0])
        && valid::crate_version(parts[1]) {
        Some(CrateView { name: parts[0], version: parts[1] })
    } else {
        None
    }
}

/// The download path of a crate.
pub open spec fn download_url(info: CrateView) -> Seq<char> {
    info.name + seq!['/'] + info.version + seq!['/'] + download_word()
}

/// The file extension of crate files.
pub open spec fn crate_extension() -> Seq<char> {
    seq!['.', 'c', 'r', 'a', 't', 'e']
}

/// The name of the file of a crate in the cache.
pub open spec fn crate_file_name(info: CrateView) -> Seq<char> {
    info.name + seq!['-'] + info.version + crate_extension()
}

/// The path of the file of a crate in the cache.
pub open spec fn crate_file_path(info: CrateView) -> Seq<char> {
    info.name + seq!['/'] + crate_file_name(info)
}

impl Clone for CrateInfo {
    fn clone(&self) -> (r: Self)
        ensures
            r@ == self@,
    {
        CrateInfo { name: self.name.clone(), version: self.version.clone() }
    }
}

impl CrateInfo {
    /// Creates an object for a version of a crate.
    #[must_use]
    pub fn new(name: &str, version: &str) -> (r: Self)
        ensures
            r@ == (CrateView { name: name@, version: version@ }),
    {
        CrateInfo { name: name.to_owned(), version: version.to_owned() }
    }

    /// Creates an object from the path of a crate download request.
    ///
    /// Rejects names and versions outside the crates.io character sets.
    #[must_use]
    pub fn try_from_download_url(url: &str) -> (r: Option<Self>)
        ensures
            match r {
                Some(info) => download_path_crate(url@) == Some(info@),
                None => download_path_crate(url@) is None,
            },
    {
        let chars = to_chars(url);
        let slash: [char; 1] = ['/'];
        assert(slash@ =~= seq!['/']);
        let parts = split(chars.as_slice(), array_as_slice(&slash));
        let ghost shown = text::texts(parts@);
        assert(shown == text::pieces(url@, seq!['/']));
        assert(shown.len() == parts@.len());
        assert(forall|i: int| 0 <= i < parts@.len() ==> shown[i] == (#[trigger] parts@[i])@);
        if parts.len() != 3 {
            return None;
        }
        let word: [char; 8] = ['d', 'o', 'w', 'n', 'l', 'o', 'a', 'd'];
        assert(word@ =~= download_word());
        if !text::same_chars(parts[2], array_as_slice(&word)) {
            return None;
        }
        let name = from_chars(parts[0]);
        let version = from_chars(parts[1]);
        if is_crate_name(name.as_str()) && is_crate_version(version.as_str()) {
            Some(CrateInfo { name, version })
        } else {
            None
        }
    }

    /// Gets the crate name.
    #[must_use]
    pub fn name(&self) -> (r: &str)
        ensures
            r@ == self@.name,
    {
        self.name.as_str()
    }

    /// Gets the crate version.
    #[must_use]
    pub fn version(&self) -> (r: &str)
        ensures
            r@ == self@.version,
    {
        self.version.as_str()
    }

    /// Builds the crate download URL (relative).
    #[must_use]
    pub fn to_download_url(&self) -> (r: String)
        ensures
            r@ == download_url(self@),
    {
        let mut out = self.name.clone();
        out.push('/');
        out.append(self.version.as_str());
        out.append("/download");
        proof {
            reveal_strlit("/download");
            assert(out@ =~= download_url(self@));
        }
        out
    }

    /// Builds the relative crate file path for cache storage.
    #[must_use]
    pub fn to_file_path(&self) -> (r: String)
        ensures
            r@ == crate_file_path(self@),
    {
        let mut out = self.name.clone();
        out.push('/');
        out.append(self.name.as_str());
        out.push('-');
        out.append(self.version.as_str());
        out.append(".crate");
        proof {
            reveal_strlit(".crate");
            assert(out@ =~= crate_file_path(self@));
        }
        out
    }
}

// Laws.

proof fn lemma_no_slash(s: Seq<char>)
    requires
        !s.contains('/'),
    ensures
        forall|j: int| 0 <= j < s.len() ==> !seq!['/'].contains(#[trigger] s[j]),
{
    assert forall|j: int| 0 <= j < s.len() implies !seq!['/'].contains(#[trigger] s[j]) by {
        assert(s.contains(s[j]));
    }
}

proof fn lemma_download_pieces(info: CrateView)
    requires
        info.is_valid(),
    ensures
        text::pieces(download_url(info), seq!['/']) == seq![
            info.name,
            info.version,
            download_word(),
        ],
{
    valid::crate_names_are_plain(info.name);
    valid::crate_versions_are_plain(info.version);
    let seps = seq!['/'];
    assert(seps[0] == '/');
    lemma_no_slash(info.name);
    lemma_no_slash(info.version);
    text::lemma_pieces_single(download_word(), seps);
    let tail = info.version + seq!['/'] + download_word();
    assert(download_url(info) =~= info.name + seq!['/'] + tail);
    text::lemma_pieces_cons(info.version, '/', download_word(), seps);
    text::lemma_pieces_cons(info.name, '/', tail, seps);
    assert(text::pieces(download_url(info), seps) =~= seq![
        info.name,
        info.version,
        download_word(),
    ]);
}

/// The download path of a crate leads back to the crate.
pub proof fn download_urls_round_trip(info: CrateView)
    requires
        info.is_valid(),
    ensures
        download_path_crate(download_url(info)) == Some(info),
{
    lemma_download_pieces(info);
}

/// No segment of a download path is empty or a dot segment: joined to a base
/// URL it keeps the name, the version and the last word, and climbs nowhere.
pub proof fn download_urls_do_not_climb(info: CrateView, i: int)
    requires
        info.is_valid(),
        0 <= i < text::pieces(download_url(info), seq!['/']).len(),
    ensures
        text::pieces(download_url(info), seq!['/']).len() == 3,
        text::pieces(download_url(info), seq!['/'])[i].len() > 0,
        !valid::dot_segment(text::pieces(download_url(info), seq!['/'])[i]),
{
    lemma_download_pieces(info);
    valid::crate_names_are_plain(info.name);
    valid::crate_versions_are_plain(info.version);
    assert(seq!['.'][0] == '.');
    assert(seq!['.', '.'][0] == '.');
    assert(info.name.contains(info.name[0]));
    assert(download_word()[0] == 'd');
}

/// The cache file of a crate is a file in the directory of the crate's name;
/// neither of the two is empty or starts with a dot.
pub proof fn crate_files_stay_inside(info: CrateView)
    requires
        info.is_valid(),
    ensures
        text::pieces(crate_file_path(info), seq!['/']) == seq![info.name, crate_file_name(info)],
        info.name.len() > 0 && info.name[0] != '.',
        crate_file_name(info)[0] == info.name[0],
{
    valid::crate_names_are_plain(info.name);
    valid::crate_versions_are_plain(info.version);
    let seps = seq!['/'];
    assert(seps[0] == '/');
    lemma_no_slash(info.name);
    let file = crate_file_name(info);
    assert forall|j: int| 0 <= j < file.len() implies !seps.contains(#[trigger] file[j]) by {
        let n = info.name.len() as int;
        let v = info.version.len() as int;
        if j < n {
            assert(file[j] == info.name[j]);
            assert(info.name.contains(info.name[j]));
        } else if j > n && j < n + 1 + v {
            assert(file[j] == info.version[j - n - 1]);
            assert(info.version.contains(info.version[j - n - 1]));
        } else if j > n {
            assert(file[j] == crate_extension()[j - n - 1 - v]);
        }
    }
    text::lemma_pieces_single(file, seps);
    text::lemma_pieces_cons(info.name, '/', file, seps);
    assert(text::pieces(crate_file_path(info), seps) =~= seq![info.name, file]);
    assert(valid::name_char(info.name[0]));
}

/// A path asks for a crate if and only if it is the name, the version and the
/// word `download`, with a slash between them, and both are valid.
pub proof fn download_paths_are_taken_apart(url: Seq<char>, info: CrateView)
    ensures
        download_path_crate(url) == Some(info) <==> valid::crate_name(info.name)
            && valid::crate_version(info.version) && url == info.name + seq!['/'] + info.version
            + seq!['/'] + "download"@,
{
    reveal_strlit("download");
    assert(download_word() =~= "download"@);
    if download_path_crate(url) == Some(info) {
        text::lemma_three_pieces(url, '/');
    }
    if info.is_valid() && url == info.name + seq!['/'] + info.version + seq!['/'] + "download"@ {
        download_urls_round_trip(info);
    }
}

/// The paths of a crate, spelled out: below the download API, and in the cache.
pub proof fn crate_paths_are_spelled_out(info: CrateView)
    ensures
        download_url(info) == info.name + seq!['/'] + info.version + seq!['/'] + "download"@,
        crate_file_name(info) == info.name + seq!['-'] + info.version + ".crate"@,
        crate_file_path(info) == info.name + seq!['/'] + info.name + seq!['-'] + info.version
            + ".crate"@,
{
    reveal_strlit("download");
    reveal_strlit(".crate");
    assert(download_word() =~= "download"@);
    assert(crate_extension() =~= ".crate"@);
    assert(crate_file_path(info) =~= info.name + seq!['/'] + info.name + seq!['-'] + info.version
        + ".crate"@);
}

/// Different crates have different files: versions do not share one.
pub proof fn crates_have_their_own_files(a: CrateView, b: CrateView)
    requires
        a.is_valid(),
        b.is_valid(),
        crate_file_path(a) == crate_file_path(b),
    ensures
        a == b,
{
    crate_files_stay_inside(a);
    crate_files_stay_inside(b);
    assert(seq![a.name, crate_file_name(a)][0] == a.name);
    assert(seq![b.name, crate_file_name(b)][0] == b.name);
    assert(seq![a.name, crate_file_name(a)][1] == crate_file_name(a));
    assert(seq![b.name, crate_file_name(b)][1] == crate_file_name(b));
    let n = a.name.len() as int + 1;
    let fa = crate_file_name(a);
    let fb = crate_file_name(b);
    assert(fa.len() == a.name.len() + 1 + a.version.len() + 6);
    assert(fb.len() == b.name.len() + 1 + b.version.len() + 6);
    assert(fa.subrange(n, n + a.version.len()) =~= a.version);
    assert(fb.subrange(n, n + b.version.len()) =~= b.version);
}

} // verus!
