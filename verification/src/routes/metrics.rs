//! `GET /metrics` — report cached crates (only routed when enabled).

use vstd::prelude::*;

use crate::cache::crate_info;
use crate::cache::crate_info::CrateView;
use crate::text;
use crate::text::{from_chars, push_decimal, same_chars, to_chars};
use crate::valid;
use crate::valid::{is_crate_name, is_crate_version};

verus! {

// The listing of the crate file cache.

/// A file in a directory of the crate file cache.
pub struct CacheFile {
    /// Name of the file.
    pub name: String,
    /// Modification time (unix seconds), if it is known.
    pub mtime: Option<u64>,
}

/// An entry of the crate file cache directory.
pub struct CacheDir {
    /// Name of the entry.
    pub name: String,
    /// The entry is a directory.
    pub is_dir: bool,
    /// Files of the directory, as far as they can be listed.
    pub files: Vec<CacheFile>,
}

/// A cached crate file.
pub struct CachedCrate {
    /// Crate name.
    pub name: String,
    /// Crate version.
    pub version: String,
    /// Cache timestamp (unix seconds).
    pub cached_at: u64,
}

/// What is reported of a cached crate file.
pub struct CachedView {
    /// Crate name.
    pub name: Seq<char>,
    /// Crate version.
    pub version: Seq<char>,
    /// Cache timestamp (unix seconds).
    pub cached_at: u64,
}

impl View for CachedCrate {
    type V = CachedView;

    open spec fn view(&self) -> CachedView {
        CachedView { name: self.name@, version: self.version@, cached_at: self.cached_at }
    }
}

/// The version in the name `<crate>-<version>.crate` of a file.
pub open spec fn file_version(name: Seq<char>, file: Seq<char>) -> Option<Seq<char>> {
    let ext = crate_info::crate_extension();
    let prefix = name + seq!['-'];
    let stem = file.take(file.len() - ext.len());
    if file.len() >= ext.len() && file.skip(file.len() - ext.len()) == ext && stem.len()
        >= prefix.len() && stem.take(prefix.len() as int) == prefix && valid::crate_version(
        stem.skip(prefix.len() as int),
    ) {
        Some(stem.skip(prefix.len() as int))
    } else {
        None
    }
}

/// The crates in the first `n` files of a directory.
pub open spec fn dir_crates(name: Seq<char>, files: Seq<CacheFile>, n: int) -> Seq<CachedView>
    decreases n,
{
    if n <= 0 {
        seq![]
    } else {
        let file = files[n - 1];
        let before = dir_crates(name, files, n - 1);
        match file_version(name, file.name@) {
            Some(version) => before.push(
                CachedView {
                    name,
                    version,
                    cached_at: match file.mtime {
                        Some(secs) => secs,
                        None => 0,
                    },
                },
            ),
            None => before,
        }
    }
}

/// The crates in the first `n` entries of the cache directory: those of the
/// directories that have the name of a crate.
pub open spec fn cached_crates(dirs: Seq<CacheDir>, n: int) -> Seq<CachedView>
    decreases n,
{
    if n <= 0 {
        seq![]
    } else {
        let dir = dirs[n - 1];
        let before = cached_crates(dirs, n - 1);
        if dir.is_dir && valid::crate_name(dir.name@) {
            before + dir_crates(dir.name@, dir.files@, dir.files@.len() as int)
        } else {
            before
        }
    }
}

/// The views of cached crates.
pub open spec fn views(items: Seq<CachedCrate>) -> Seq<CachedView> {
    items.map_values(|c: CachedCrate| c@)
}

/// Reads the version out of a file name.
fn version_of_file(name: &str, file: &str) -> (r: Option<String>)
    ensures
        text::opt_text(r) == file_version(name@, file@),
{
    let file_chars = to_chars(file);
    let ext_chars = to_chars(".crate");
    let mut prefix = to_chars(name);
    prefix.push('-');
    proof {
        reveal_strlit(".crate");
        assert(ext_chars@ =~= crate_info::crate_extension());
        assert(prefix@ =~= name@ + seq!['-']);
    }
    let n: usize = file_chars.len();
    if n < ext_chars.len() {
        return None;
    }
    let cut: usize = n - ext_chars.len();
    let all = file_chars.as_slice();
    let ending = vstd::slice::slice_subrange(all, cut, n);
    let stem = vstd::slice::slice_subrange(all, 0, cut);
    assert(ending@ =~= file@.skip(cut as int));
    assert(stem@ =~= file@.take(cut as int));
    if !same_chars(ending, ext_chars.as_slice()) || stem.len() < prefix.len() {
        return None;
    }
    let head = vstd::slice::slice_subrange(stem, 0, prefix.len());
    let tail = vstd::slice::slice_subrange(stem, prefix.len(), cut);
    assert(head@ =~= stem@.take(prefix@.len() as int));
    assert(tail@ =~= stem@.skip(prefix@.len() as int));
    if !same_chars(head, prefix.as_slice()) {
        return None;
    }
    let version = from_chars(tail);
    if is_crate_version(version.as_str()) {
        Some(version)
    } else {
        None
    }
}

/// Scans one directory of the cache.
fn scan_dir(out: &mut Vec<CachedCrate>, name: &str, files: &Vec<CacheFile>)
    ensures
        views(final(out)@) == views(old(out)@) + dir_crates(
            name@,
            files@,
            files@.len() as int,
        ),
{
    let mut i: usize = 0;
    assert(views(out@) =~= views(old(out)@) + dir_crates(name@, files@, 0));
    while i < files.len()
        invariant
            i <= files@.len(),
            views(out@) == views(old(out)@) + dir_crates(name@, files@, i as int),
        decreases files@.len() - i,
    {
        let file = &files[i];
        let ghost before = out@;
        if let Some(version) = version_of_file(name, file.name.as_str()) {
            let cached_at: u64 = match file.mtime {
                Some(secs) => secs,
                None => 0,
            };
            let item = CachedCrate { name: name.to_owned(), version, cached_at };
            let ghost shown = item@;
            out.push(item);
            assert(views(out@) =~= views(before).push(shown));
            assert(views(out@) =~= views(old(out)@) + dir_crates(name@, files@, i + 1));
        }
        i = i + 1;
    }
}

/// Scans a listing of the crate file cache, returning the name, the version
/// and the timestamp of each cached `.crate` file. Best-effort: malformed
/// entries are skipped rather than failing the whole report.
pub fn scan_cached_crates(dirs: &Vec<CacheDir>) -> (r: Vec<CachedCrate>)
    ensures
        views(r@) == cached_crates(dirs@, dirs@.len() as int),
{
    let mut out: Vec<CachedCrate> = Vec::new();
    let mut i: usize = 0;
    assert(views(out@) =~= cached_crates(dirs@, 0));
    while i < dirs.len()
        invariant
            i <= dirs@.len(),
            views(out@) == cached_crates(dirs@, i as int),
        decreases dirs@.len() - i,
    {
        let dir = &dirs[i];
        if dir.is_dir && is_crate_name(dir.name.as_str()) {
            scan_dir(&mut out, dir.name.as_str(), &dir.files);
        }
        i = i + 1;
    }
    out
}

// The order of the report.

/// Lexicographic order of texts.
pub open spec fn text_le(a: Seq<char>, b: Seq<char>) -> bool
    decreases a.len(),
{
    if a.len() == 0 {
        true
    } else if b.len() == 0 {
        false
    } else if a[0] == b[0] {
        text_le(a.drop_first(), b.drop_first())
    } else {
        a[0] < b[0]
    }
}

/// Order of the report: by name, then by version, then by timestamp.
pub open spec fn report_le(a: CachedView, b: CachedView) -> bool {
    if a.name != b.name {
        text_le(a.name, b.name)
    } else if a.version != b.version {
        text_le(a.version, b.version)
    } else {
        a.cached_at <= b.cached_at
    }
}

/// The order of the report as a relation.
pub open spec fn report_order() -> spec_fn(CachedView, CachedView) -> bool {
    |a: CachedView, b: CachedView| report_le(a, b)
}

proof fn lemma_text_le_self(a: Seq<char>)
    ensures
        text_le(a, a),
    decreases a.len(),
{
    if a.len() > 0 {
        lemma_text_le_self(a.drop_first());
    }
}

/// Text order is total.
pub proof fn text_order_is_total(a: Seq<char>, b: Seq<char>, c: Seq<char>)
    ensures
        text_le(a, a),
        text_le(a, b) || text_le(b, a),
        text_le(a, b) && text_le(b, a) ==> a == b,
        text_le(a, b) && text_le(b, c) ==> text_le(a, c),
    decreases a.len() + b.len() + c.len(),
{
    let ta = a.drop_first();
    let tb = b.drop_first();
    let tc = c.drop_first();
    lemma_text_le_self(a);
    if a.len() > 0 && b.len() > 0 && a[0] == b[0] {
        if c.len() > 0 {
            text_order_is_total(ta, tb, tc);
        } else {
            text_order_is_total(ta, tb, c);
        }
        if ta == tb {
            assert(a =~= seq![a[0]] + ta);
            assert(b =~= seq![b[0]] + tb);
        }
    }
    if a.len() == 0 && b.len() == 0 {
        assert(a =~= b);
    }
}

/// The order of the report is total.
pub proof fn report_order_is_total()
    ensures
        vstd::relations::total_ordering(report_order()),
{
    let leq = report_order();
    assert forall|x: CachedView| #[trigger] leq(x, x) by {}
    assert forall|x: CachedView, y: CachedView| #[trigger] leq(x, y) && #[trigger] leq(y, x) implies x
        == y by {
        text_order_is_total(x.name, y.name, y.name);
        text_order_is_total(x.version, y.version, y.version);
    }
    assert forall|x: CachedView, y: CachedView| #[trigger] leq(x, y) || #[trigger] leq(y, x) by {
        text_order_is_total(x.name, y.name, y.name);
        text_order_is_total(x.version, y.version, y.version);
    }
    assert forall|x: CachedView, y: CachedView, z: CachedView| #[trigger] leq(x, y) && #[trigger] leq(
        y,
        z,
    ) implies leq(x, z) by {
        text_order_is_total(x.name, y.name, z.name);
        text_order_is_total(y.name, z.name, x.name);
        text_order_is_total(x.version, y.version, z.version);
        text_order_is_total(y.version, z.version, x.version);
    }
}

/// Compares two texts.
fn text_at_most(a: &str, b: &str) -> (r: bool)
    ensures
        r == text_le(a@, b@),
{
    let x = to_chars(a);
    let y = to_chars(b);
    let mut i: usize = 0;
    assert(x@.skip(0) =~= x@);
    assert(y@.skip(0) =~= y@);
    while i < x.len()
        invariant
            i <= x@.len(),
            i <= y@.len(),
            x@ == a@,
            y@ == b@,
            text_le(x@.skip(i as int), y@.skip(i as int)) == text_le(x@, y@),
        decreases x@.len() - i,
    {
        if i >= y.len() {
            return false;
        }
        assert(x@.skip(i as int)[0] == x@[i as int]);
        assert(y@.skip(i as int)[0] == y@[i as int]);
        if x[i] != y[i] {
            return x[i] < y[i];
        }
        assert(x@.skip(i as int).drop_first() =~= x@.skip(i + 1));
        assert(y@.skip(i as int).drop_first() =~= y@.skip(i + 1));
        i = i + 1;
    }
    true
}

/// Compares two crates in the order of the report.
fn at_most(a: &CachedCrate, b: &CachedCrate) -> (r: bool)
    ensures
        r == report_le(a@, b@),
{
    if !text::same_text(a.name.as_str(), b.name.as_str()) {
        text_at_most(a.name.as_str(), b.name.as_str())
    } else if !text::same_text(a.version.as_str(), b.version.as_str()) {
        text_at_most(a.version.as_str(), b.version.as_str())
    } else {
        a.cached_at <= b.cached_at
    }
}

/// The views of references to cached crates.
pub open spec fn ref_views(items: Seq<&CachedCrate>) -> Seq<CachedView> {
    items.map_values(|c: &CachedCrate| c@)
}

/// Merges two sorted lists.
fn merge<'a>(a: &Vec<&'a CachedCrate>, b: &Vec<&'a CachedCrate>) -> (r: Vec<&'a CachedCrate>)
    requires
        vstd::relations::sorted_by(ref_views(a@), report_order()),
        vstd::relations::sorted_by(ref_views(b@), report_order()),
    ensures
        vstd::relations::sorted_by(ref_views(r@), report_order()),
        ref_views(r@).to_multiset() == ref_views(a@).to_multiset().add(
            ref_views(b@).to_multiset(),
        ),
{
    let mut out: Vec<&'a CachedCrate> = Vec::new();
    let mut i: usize = 0;
    let mut j: usize = 0;
    let ghost leq = report_order();
    let ghost va = ref_views(a@);
    let ghost vb = ref_views(b@);
    proof {
        report_order_is_total();
        assert(ref_views(out@) =~= Seq::<CachedView>::empty());
        assert(va.take(0) =~= Seq::<CachedView>::empty());
        assert(vb.take(0) =~= Seq::<CachedView>::empty());
        vstd::seq_lib::lemma_multiset_commutative(va.take(0), vb.take(0));
        assert(va.take(0) + vb.take(0) =~= ref_views(out@));
    }
    while i < a.len() || j < b.len()
        invariant
            i <= a@.len(),
            j <= b@.len(),
            va == ref_views(a@),
            vb == ref_views(b@),
            leq == report_order(),
            vstd::relations::total_ordering(leq),
            vstd::relations::sorted_by(va, leq),
            vstd::relations::sorted_by(vb, leq),
            vstd::relations::sorted_by(ref_views(out@), leq),
            ref_views(out@).len() > 0 && i < va.len() ==> leq(
                ref_views(out@).last(),
                va[i as int],
            ),
            ref_views(out@).len() > 0 && j < vb.len() ==> leq(
                ref_views(out@).last(),
                vb[j as int],
            ),
            ref_views(out@).to_multiset() == va.take(i as int).to_multiset().add(
                vb.take(j as int).to_multiset(),
            ),
        decreases a@.len() - i + b@.len() - j,
    {
        let ghost before = ref_views(out@);
        let first = j >= b.len() || (i < a.len() && at_most(a[i], b[j]));
        proof {
            if i < a@.len() {
                assert(va[i as int] == a@[i as int]@);
            }
            if j < b@.len() {
                assert(vb[j as int] == b@[j as int]@);
            }
        }
        let next: &'a CachedCrate = if first {
            a[i]
        } else {
            b[j]
        };
        let ghost (i0, j0) = (i as int, j as int);
        out.push(next);
        if first {
            i = i + 1;
        } else {
            j = j + 1;
        }
        proof {
            let after = ref_views(out@);
            assert(after =~= before.push(next@));
            assert(next@ == (if first { va[i0] } else { vb[j0] }));
            lemma_push_sorted(before, next@, leq);
            before.to_multiset_ensures();
            if first {
                assert(va.take(i0 + 1) =~= va.take(i0).push(va[i0]));
                va.take(i0).to_multiset_ensures();
                assert(after.to_multiset() =~= va.take(i as int).to_multiset().add(
                    vb.take(j as int).to_multiset(),
                ));
            } else {
                assert(vb.take(j0 + 1) =~= vb.take(j0).push(vb[j0]));
                vb.take(j0).to_multiset_ensures();
                if i0 < va.len() {
                    assert(leq(va[i0], vb[j0]) || leq(vb[j0], va[i0]));
                }
                assert(after.to_multiset() =~= va.take(i as int).to_multiset().add(
                    vb.take(j as int).to_multiset(),
                ));
            }
        }
    }
    proof {
        assert(va.take(i as int) =~= va);
        assert(vb.take(j as int) =~= vb);
    }
    out
}

/// A sorted list stays sorted when an element is appended that is not below
/// its last.
proof fn lemma_push_sorted(
    s: Seq<CachedView>,
    x: CachedView,
    leq: spec_fn(CachedView, CachedView) -> bool,
)
    requires
        vstd::relations::total_ordering(leq),
        vstd::relations::sorted_by(s, leq),
        s.len() > 0 ==> leq(s.last(), x),
    ensures
        vstd::relations::sorted_by(s.push(x), leq),
{
    let t = s.push(x);
    assert forall|i: int, j: int| 0 <= i < j < t.len() implies #[trigger] leq(t[i], t[j]) by {
        if j == s.len() {
            if i < s.len() - 1 {
                assert(leq(s[i], s[s.len() - 1]));
            }
        } else {
            assert(leq(s[i], s[j]));
        }
    }
}

/// Sorts a list in the order of the report.
fn sort_items<'a>(items: &Vec<&'a CachedCrate>) -> (r: Vec<&'a CachedCrate>)
    ensures
        ref_views(r@) == ref_views(items@).sort_by(report_order()),
    decreases items@.len(),
{
    let n: usize = items.len();
    let half: usize = n / 2;
    let mut left: Vec<&'a CachedCrate> = Vec::new();
    let mut right: Vec<&'a CachedCrate> = Vec::new();
    let mut i: usize = 0;
    while i < n
        invariant
            n == items@.len(),
            half <= n,
            i <= n,
            left@ == items@.take(if i <= half {
                i as int
            } else {
                half as int
            }),
            right@ == (if i <= half {
                Seq::<&CachedCrate>::empty()
            } else {
                items@.subrange(half as int, i as int)
            }),
        decreases n - i,
    {
        if i < half {
            left.push(items[i]);
            assert(left@ =~= items@.take(i + 1));
        } else {
            right.push(items[i]);
            assert(right@ =~= items@.subrange(half as int, i + 1));
        }
        i = i + 1;
    }
    let ghost all = ref_views(items@);
    let ghost leq = report_order();
    proof {
        report_order_is_total();
        all.lemma_sort_by_ensures(leq);
        assert(n > 0 ==> left@ =~= items@.take(half as int));
        assert(n > 0 ==> right@ =~= items@.subrange(half as int, n as int));
    }
    if n <= 1 {
        proof {
            if n == 1 {
                assert(right@ =~= items@);
            } else {
                assert(right@ =~= items@);
            }
            vstd::seq_lib::lemma_sorted_unique(all, all.sort_by(leq), leq);
        }
        return right;
    }
    let a = sort_items(&left);
    let b = sort_items(&right);
    proof {
        let va = ref_views(left@);
        let vb = ref_views(right@);
        va.lemma_sort_by_ensures(leq);
        vb.lemma_sort_by_ensures(leq);
        assert(all =~= va + vb);
        vstd::seq_lib::lemma_multiset_commutative(va, vb);
    }
    let r = merge(&a, &b);
    proof {
        vstd::seq_lib::lemma_sorted_unique(ref_views(r@), all.sort_by(leq), leq);
    }
    r
}

// The report.

/// The report of one crate. Names and versions are from the validated
/// character sets, so they need no escaping.
pub open spec fn crate_json(item: CachedView) -> Seq<char> {
    "{\"name\":\""@ + item.name + "\",\"version\":\""@ + item.version + "\",\"cached_at\":"@
        + text::decimal(item.cached_at as nat) + "}"@
}

/// The reports of the first `n` crates, separated by commas.
pub open spec fn crate_list(items: Seq<CachedView>, n: int) -> Seq<char>
    decreases n,
{
    if n <= 0 {
        seq![]
    } else if n == 1 {
        crate_json(items[0])
    } else {
        crate_list(items, n - 1) + seq![','] + crate_json(items[n - 1])
    }
}

/// The metrics document of a list of crates.
pub open spec fn metrics_document(items: Seq<CachedView>) -> Seq<char> {
    "{\"service\":\"chilled-crates\",\"cached_count\":"@ + text::decimal(items.len())
        + ",\"crates\":["@ + crate_list(items, items.len() as int) + "]}"@
}

/// Appends the report of one crate.
fn push_crate(out: &mut String, item: &CachedCrate)
    ensures
        final(out)@ == old(out)@ + crate_json(item@),
{
    out.append("{\"name\":\"");
    out.append(item.name.as_str());
    out.append("\",\"version\":\"");
    out.append(item.version.as_str());
    out.append("\",\"cached_at\":");
    push_decimal(out, item.cached_at);
    out.append("}");
    assert(out@ =~= old(out)@ + crate_json(item@));
}

/// Formats the metrics document of cached crates, sorted.
pub fn format_metrics(items: &Vec<CachedCrate>) -> (r: String)
    ensures
        r@ == metrics_document(views(items@).sort_by(report_order())),
{
    let mut refs: Vec<&CachedCrate> = Vec::new();
    let mut i: usize = 0;
    while i < items.len()
        invariant
            i <= items@.len(),
            ref_views(refs@) == views(items@).take(i as int),
        decreases items@.len() - i,
    {
        let ghost before = ref_views(refs@);
        refs.push(&items[i]);
        i = i + 1;
        assert(ref_views(refs@) =~= before.push(items@[i - 1]@));
        assert(ref_views(refs@) =~= views(items@).take(i as int));
    }
    assert(views(items@).take(i as int) =~= views(items@));
    let sorted = sort_items(&refs);
    let ghost shown = ref_views(sorted@);
    assert(shown.len() == sorted@.len());
    let mut out = "{\"service\":\"chilled-crates\",\"cached_count\":".to_owned();
    push_decimal(&mut out, sorted.len() as u64);
    out.append(",\"crates\":[");
    let ghost head = out@;
    let mut k: usize = 0;
    assert(out@ =~= head + crate_list(shown, 0));
    while k < sorted.len()
        invariant
            k <= sorted@.len(),
            shown == ref_views(sorted@),
            out@ == head + crate_list(shown, k as int),
        decreases sorted@.len() - k,
    {
        let ghost before = crate_list(shown, k as int);
        if k > 0 {
            out.push(',');
        }
        push_crate(&mut out, sorted[k]);
        assert(shown[k as int] == sorted@[k as int]@);
        k = k + 1;
        assert(out@ =~= head + crate_list(shown, k as int));
    }
    out.append("]}");
    assert(out@ =~= metrics_document(shown));
    out
}

/// Builds the metrics JSON document out of a listing of the crate file cache.
pub fn metrics_json(dirs: &Vec<CacheDir>) -> (r: String)
    ensures
        r@ == metrics_document(
            cached_crates(dirs@, dirs@.len() as int).sort_by(report_order()),
        ),
{
    let items = scan_cached_crates(dirs);
    format_metrics(&items)
}

// Laws.

/// The report lists every cached crate, as often as it is cached, in order.
pub proof fn report_is_a_sorted_permutation(items: Seq<CachedView>)
    ensures
        items.sort_by(report_order()).to_multiset() == items.to_multiset(),
        vstd::relations::sorted_by(items.sort_by(report_order()), report_order()),
        items.sort_by(report_order()).len() == items.len(),
{
    report_order_is_total();
    items.lemma_sort_by_ensures(report_order());
    items.to_multiset_ensures();
    items.sort_by(report_order()).to_multiset_ensures();
}

/// The cache file of a crate is reported as that crate: the version is read
/// back out of its name.
pub proof fn cached_files_are_reported(info: CrateView)
    requires
        info.is_valid(),
    ensures
        file_version(info.name, crate_info::crate_file_name(info)) == Some(info.version),
{
    let file = crate_info::crate_file_name(info);
    let ext = crate_info::crate_extension();
    let prefix = info.name + seq!['-'];
    let stem = file.take(file.len() - ext.len());
    assert(file.skip(file.len() - ext.len()) =~= ext);
    assert(stem =~= prefix + info.version);
    assert(stem.take(prefix.len() as int) =~= prefix);
    assert(stem.skip(prefix.len() as int) =~= info.version);
}

/// Every reported crate has a valid name and version.
pub proof fn reported_crates_are_valid(dirs: Seq<CacheDir>, n: int, i: int)
    requires
        0 <= n <= dirs.len(),
        0 <= i < cached_crates(dirs, n).len(),
    ensures
        valid::crate_name(cached_crates(dirs, n)[i].name),
        valid::crate_version(cached_crates(dirs, n)[i].version),
    decreases n,
{
    if n > 0 {
        let dir = dirs[n - 1];
        let before = cached_crates(dirs, n - 1);
        if i < before.len() {
            reported_crates_are_valid(dirs, n - 1, i);
        } else {
            lemma_dir_crates_valid(dir.name@, dir.files@, dir.files@.len() as int, i - before.len());
        }
    }
}

proof fn lemma_dir_crates_valid(name: Seq<char>, files: Seq<CacheFile>, n: int, i: int)
    requires
        0 <= n <= files.len(),
        0 <= i < dir_crates(name, files, n).len(),
    ensures
        dir_crates(name, files, n)[i].name == name,
        valid::crate_version(dir_crates(name, files, n)[i].version),
    decreases n,
{
    if n > 0 && i < dir_crates(name, files, n - 1).len() {
        lemma_dir_crates_valid(name, files, n - 1, i);
    }
}

// Laws of the scan.

/// `item` is the report of the `j`th file of the `i`th entry of the cache
/// directory: the entry is a directory with the name of a crate, and the file
/// is named `<crate>-<version>.crate`.
pub open spec fn reports(dirs: Seq<CacheDir>, i: int, j: int, item: CachedView) -> bool {
    &&& 0 <= i < dirs.len()
    &&& dirs[i].is_dir
    &&& valid::crate_name(dirs[i].name@)
    &&& item.name == dirs[i].name@
    &&& reports_file(dirs[i].name@, dirs[i].files@, j, item)
}

/// `item` is the report of the `j`th file of the directory `name`.
pub open spec fn reports_file(
    name: Seq<char>,
    files: Seq<CacheFile>,
    j: int,
    item: CachedView,
) -> bool {
    &&& 0 <= j < files.len()
    &&& item.name == name
    &&& valid::crate_version(item.version)
    &&& files[j].name@ == name + seq!['-'] + item.version + seq!['.', 'c', 'r', 'a', 't', 'e']
    &&& files[j].mtime matches Some(secs) ==> item.cached_at == secs
    &&& files[j].mtime is None ==> item.cached_at == 0
}

/// A file name has a version if and only if it is made of the crate name, a
/// dash, that version and `.crate`.
pub proof fn file_names_are_taken_apart(name: Seq<char>, file: Seq<char>, version: Seq<char>)
    ensures
        file_version(name, file) == Some(version) <==> valid::crate_version(version) && file
            == name + seq!['-'] + version + seq!['.', 'c', 'r', 'a', 't', 'e'],
{
    let ext = seq!['.', 'c', 'r', 'a', 't', 'e'];
    assert(crate_info::crate_extension() =~= ext);
    let prefix = name + seq!['-'];
    let whole = prefix + version + ext;
    let stem = file.take(file.len() - ext.len());
    if file_version(name, file) == Some(version) {
        assert(stem =~= prefix + version) by {
            assert(stem =~= stem.take(prefix.len() as int) + stem.skip(prefix.len() as int));
        }
        assert(file =~= stem + ext) by {
            assert(file =~= stem + file.skip(file.len() - ext.len()));
        }
        assert(file =~= whole);
    }
    if valid::crate_version(version) && file == whole {
        assert(file.skip(file.len() - ext.len()) =~= ext);
        assert(stem =~= prefix + version);
        assert(stem.take(prefix.len() as int) =~= prefix);
        assert(stem.skip(prefix.len() as int) =~= version);
    }
}

proof fn lemma_dir_report(name: Seq<char>, files: Seq<CacheFile>, n: int) -> (at: Seq<int>)
    requires
        0 <= n <= files.len(),
    ensures
        at.len() == dir_crates(name, files, n).len(),
        forall|k: int|
            0 <= k < at.len() ==> #[trigger] at[k] < n && reports_file(
                name,
                files,
                at[k],
                dir_crates(name, files, n)[k],
            ),
        forall|k: int, l: int| 0 <= k < l < at.len() ==> #[trigger] at[k] < #[trigger] at[l],
        forall|j: int, item: CachedView| #[trigger]
            reports_file(name, files, j, item) && j < n ==> exists|k: int|
                0 <= k < at.len() && #[trigger] at[k] == j && dir_crates(name, files, n)[k] == item,
    decreases n,
{
    if n == 0 {
        Seq::empty()
    } else {
        let before = lemma_dir_report(name, files, n - 1);
        let file = files[n - 1];
        let items = dir_crates(name, files, n - 1);
        let all = dir_crates(name, files, n);
        let found = file_version(name, file.name@);
        if found is Some {
            file_names_are_taken_apart(name, file.name@, found->0);
        }
        let at = if found is Some {
            before.push(n - 1)
        } else {
            before
        };
        if found is Some {
            assert(all.last().version == found->0);
            assert forall|k: int| 0 <= k < at.len() implies #[trigger] at[k] < n && reports_file(
                name,
                files,
                at[k],
                all[k],
            ) by {
                if k < before.len() {
                    assert(at[k] == before[k]);
                    assert(all[k] == items[k]);
                } else {
                    assert(all[k] == all.last());
                }
            }
        }
        assert forall|j: int, item: CachedView| #[trigger]
            reports_file(name, files, j, item) && j < n implies exists|k: int|
            0 <= k < at.len() && #[trigger] at[k] == j && all[k] == item by {
            if j < n - 1 {
                let k = choose|k: int|
                    0 <= k < before.len() && #[trigger] before[k] == j && items[k] == item;
                assert(at[k] == j && all[k] == item);
            } else {
                file_names_are_taken_apart(name, file.name@, item.version);
                assert(found == Some(item.version));
                let k = before.len() as int;
                assert(all[k] == item);
                assert(at[k] == j);
            }
        }
        at
    }
}

proof fn lemma_report(dirs: Seq<CacheDir>, n: int) -> (at: Seq<(int, int)>)
    requires
        0 <= n <= dirs.len(),
    ensures
        at.len() == cached_crates(dirs, n).len(),
        forall|k: int|
            0 <= k < at.len() ==> (#[trigger] at[k]).0 < n && reports(
                dirs,
                at[k].0,
                at[k].1,
                cached_crates(dirs, n)[k],
            ),
        forall|k: int, l: int|
            0 <= k < l < at.len() ==> (#[trigger] at[k]).0 < (#[trigger] at[l]).0 || (at[k].0
                == at[l].0 && at[k].1 < at[l].1),
        forall|i: int, j: int, item: CachedView| #[trigger]
            reports(dirs, i, j, item) && i < n ==> exists|k: int|
                0 <= k < at.len() && #[trigger] at[k] == (i, j) && cached_crates(dirs, n)[k]
                    == item,
    decreases n,
{
    if n == 0 {
        Seq::empty()
    } else {
        let before = lemma_report(dirs, n - 1);
        let dir = dirs[n - 1];
        let items = cached_crates(dirs, n - 1);
        let all = cached_crates(dirs, n);
        if dir.is_dir && valid::crate_name(dir.name@) {
            let here = lemma_dir_report(dir.name@, dir.files@, dir.files@.len() as int);
            let more = dir_crates(dir.name@, dir.files@, dir.files@.len() as int);
            let tail = here.map_values(|j: int| (n - 1, j));
            let at = before + tail;
            assert(all == items + more);
            let m = before.len() as int;
            assert forall|k: int| 0 <= k < at.len() implies (#[trigger] at[k]).0 < n && reports(
                dirs,
                at[k].0,
                at[k].1,
                all[k],
            ) by {
                if k < m {
                    assert(at[k] == before[k]);
                    assert(all[k] == items[k]);
                } else {
                    assert(at[k] == (n - 1, here[k - m]));
                    assert(all[k] == more[k - m]);
                }
            }
            assert forall|k: int, l: int| 0 <= k < l < at.len() implies (#[trigger] at[k]).0 < (
            #[trigger] at[l]).0 || (at[k].0 == at[l].0 && at[k].1 < at[l].1) by {
                if l < m {
                    assert(at[k] == before[k]);
                    assert(at[l] == before[l]);
                } else {
                    assert(at[l] == (n - 1, here[l - m]));
                    if k < m {
                        assert(at[k] == before[k]);
                    } else {
                        assert(at[k] == (n - 1, here[k - m]));
                    }
                }
            }
            assert forall|i: int, j: int, item: CachedView| #[trigger]
                reports(dirs, i, j, item) && i < n implies exists|k: int|
                0 <= k < at.len() && #[trigger] at[k] == (i, j) && all[k] == item by {
                if i < n - 1 {
                    let k = choose|k: int|
                        0 <= k < before.len() && #[trigger] before[k] == (i, j) && items[k] == item;
                    assert(at[k] == (i, j) && all[k] == item);
                } else {
                    assert(reports_file(dir.name@, dir.files@, j, item));
                    let k = choose|k: int|
                        0 <= k < here.len() && #[trigger] here[k] == j && more[k] == item;
                    assert(at[m + k] == (i, j));
                    assert(all[m + k] == item);
                }
            }
            at
        } else {
            before
        }
    }
}

/// The scan is complete and exact: every file `<crate>-<version>.crate` with a
/// valid version, at any position of any directory with the name of a crate,
/// is reported once, with its modification time (zero if that is not known),
/// in the order of the listing, and nothing else is. The positions `at` of the
/// reported files show it: the `k`th item is the report of the file at
/// `at[k]`, and there are as many items as such files.
pub proof fn scans_are_complete(dirs: Seq<CacheDir>) -> (at: Seq<(int, int)>)
    ensures
        at.len() == cached_crates(dirs, dirs.len() as int).len(),
        forall|k: int|
            0 <= k < at.len() ==> reports(
                dirs,
                (#[trigger] at[k]).0,
                at[k].1,
                cached_crates(dirs, dirs.len() as int)[k],
            ),
        forall|k: int, l: int|
            0 <= k < l < at.len() ==> (#[trigger] at[k]).0 < (#[trigger] at[l]).0 || (at[k].0
                == at[l].0 && at[k].1 < at[l].1),
        forall|i: int, j: int, item: CachedView| #[trigger]
            reports(dirs, i, j, item) ==> exists|k: int|
                0 <= k < at.len() && #[trigger] at[k] == (i, j) && cached_crates(
                    dirs,
                    dirs.len() as int,
                )[k] == item,
{
    lemma_report(dirs, dirs.len() as int)
}

/// Every cached crate file is in the sorted report, and every item of the
/// report is a cached crate file.
pub proof fn reports_hold_every_file(dirs: Seq<CacheDir>, item: CachedView)
    ensures
        cached_crates(dirs, dirs.len() as int).sort_by(report_order()).contains(item)
            <==> exists|i: int, j: int| #[trigger] reports(dirs, i, j, item),
{
    let items = cached_crates(dirs, dirs.len() as int);
    let at = scans_are_complete(dirs);
    let sorted = items.sort_by(report_order());
    report_is_a_sorted_permutation(items);
    items.to_multiset_ensures();
    sorted.to_multiset_ensures();
    assert(sorted.to_multiset().count(item) == items.to_multiset().count(item));
    assert(sorted.contains(item) <==> items.contains(item));
    if items.contains(item) {
        let k = choose|k: int| 0 <= k < items.len() && items[k] == item;
        assert(reports(dirs, at[k].0, at[k].1, item));
    }
    if exists|i: int, j: int| #[trigger] reports(dirs, i, j, item) {
        let (i, j) = choose|i: int, j: int| #[trigger] reports(dirs, i, j, item);
        let k = choose|k: int| 0 <= k < at.len() && #[trigger] at[k] == (i, j) && items[k] == item;
        assert(items[k] == item);
    }
}

// Laws of the order and of the document.

/// Texts are ordered by the first character in which they differ; a text comes
/// before its own continuations.
pub proof fn texts_are_ordered_by_their_first_difference(
    head: Seq<char>,
    a: Seq<char>,
    b: Seq<char>,
    x: char,
    y: char,
)
    ensures
        text_le(head, head + a),
        a.len() > 0 ==> !text_le(head + a, head),
        x < y ==> text_le(head.push(x) + a, head.push(y) + b),
        x < y ==> !text_le(head.push(y) + b, head.push(x) + a),
    decreases head.len(),
{
    if head.len() == 0 {
        assert(head + a =~= a);
        assert((head.push(x) + a)[0] == x);
        assert((head.push(y) + b)[0] == y);
    } else {
        let rest = head.drop_first();
        texts_are_ordered_by_their_first_difference(rest, a, b, x, y);
        assert((head + a).drop_first() =~= rest + a);
        assert((head.push(x) + a).drop_first() =~= rest.push(x) + a);
        assert((head.push(y) + b).drop_first() =~= rest.push(y) + b);
        assert((head + a)[0] == head[0]);
        assert((head.push(x) + a)[0] == head[0]);
        assert((head.push(y) + b)[0] == head[0]);
    }
}

/// The report is ordered by name before version and by version before time.
pub proof fn reports_are_ordered_by_name_version_time(a: CachedView, b: CachedView)
    ensures
        a.name != b.name ==> report_le(a, b) == text_le(a.name, b.name),
        a.name == b.name && a.version != b.version ==> report_le(a, b) == text_le(
            a.version,
            b.version,
        ),
        a.name == b.name && a.version == b.version ==> report_le(a, b) == (a.cached_at
            <= b.cached_at),
        report_order()(a, b) == report_le(a, b),
{
}

proof fn lemma_crate_list_prefix(items: Seq<CachedView>, item: CachedView, n: int)
    requires
        0 <= n <= items.len(),
    ensures
        crate_list(items.push(item), n) == crate_list(items, n),
    decreases n,
{
    if n > 1 {
        lemma_crate_list_prefix(items, item, n - 1);
    }
}

/// The document of no crates, and what each crate adds to it: its object, and
/// a comma before it unless it is the first. The count is the number of
/// objects.
pub proof fn documents_list_their_crates(items: Seq<CachedView>, item: CachedView)
    ensures
        crate_list(Seq::empty(), 0) == Seq::<char>::empty(),
        crate_list(seq![item], 1) == crate_json(item),
        items.len() > 0 ==> crate_list(items.push(item), items.len() as int + 1) == crate_list(
            items,
            items.len() as int,
        ) + seq![','] + crate_json(item),
        crate_json(item) == "{\"name\":\""@ + item.name + "\",\"version\":\""@ + item.version
            + "\",\"cached_at\":"@ + text::decimal(item.cached_at as nat) + "}"@,
        metrics_document(items) == "{\"service\":\"chilled-crates\",\"cached_count\":"@
            + text::decimal(items.len()) + ",\"crates\":["@ + crate_list(
            items,
            items.len() as int,
        ) + "]}"@,
{
    lemma_crate_list_prefix(items, item, items.len() as int);
    assert(items.push(item)[items.len() as int] == item);
    assert(seq![item][0] == item);
}

/// The views of crates are those of the crates, one by one, field by field.
pub proof fn cached_crates_show_what_they_hold(items: Seq<CachedCrate>, i: int)
    requires
        0 <= i < items.len(),
    ensures
        views(items).len() == items.len(),
        views(items)[i].name == items[i].name@,
        views(items)[i].version == items[i].version@,
        views(items)[i].cached_at == items[i].cached_at,
{
}

} // verus!
