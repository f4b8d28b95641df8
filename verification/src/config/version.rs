//! Program version banner.

use vstd::prelude::*;

use crate::text;

verus! {

/// The version banner. Build details are shown only if all of them are known.
pub open spec fn banner(
    version: Seq<char>,
    build: Option<Seq<char>>,
    rev: Option<Seq<char>>,
    tag: Option<Seq<char>>,
) -> Seq<char> {
    match (build, rev, tag) {
        (Some(build), Some(rev), Some(tag)) => "chilled-crates "@ + version + "+"@ + build + ".g"@
            + rev + "."@ + tag,
        _ => "chilled-crates "@ + version,
    }
}

/// Formats the program version banner.
#[must_use]
pub fn version_banner(
    version: &str,
    build: Option<&str>,
    rev: Option<&str>,
    tag: Option<&str>,
) -> (r: String)
    ensures
        r@ == banner(version@, text::opt_str(build), text::opt_str(rev), text::opt_str(tag)),
{
    let mut out = "chilled-crates ".to_owned();
    out.append(version);
    if let (Some(build), Some(rev), Some(tag)) = (build, rev, tag) {
        out.append("+");
        out.append(build);
        out.append(".g");
        out.append(rev);
        out.append(".");
        out.append(tag);
    }
    out
}

/// The banner shows the name and the version, and then the build, the revision
/// and the tag if all three are known.
pub proof fn banners_are_spelled_out(
    version: Seq<char>,
    build: Option<Seq<char>>,
    rev: Option<Seq<char>>,
    tag: Option<Seq<char>>,
)
    ensures
        build is Some && rev is Some && tag is Some ==> banner(version, build, rev, tag)
            == "chilled-crates "@ + version + "+"@ + build->0 + ".g"@ + rev->0 + "."@ + tag->0,
        build is None || rev is None || tag is None ==> banner(version, build, rev, tag)
            == "chilled-crates "@ + version,
{
}

} // verus!
