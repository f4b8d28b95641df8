//! Memoization of age-gated (filtered) index bodies.
//!
//! Filtering an index entry is CPU work repeated on every served request. The
//! memo caches the filtered bytes keyed by `(crate, source-validator, cutoff
//! bucket)`, so repeated hits reuse the result instead of re-filtering, while a
//! mismatch on either tag guarantees stale or time-shifted output is never
//! returned.

use bytes::Bytes;

use vstd::hash_map::StringHashMap;
use vstd::prelude::*;

use crate::cache::metadata;
use crate::http::body;
use crate::http::body::bytes_clone;
use crate::text::same_text;

verus! {

/// Granularity (seconds) of the filtered-output memo cutoff bucket.
///
/// The age-gating cutoff advances every second, but the *filtered output* only
/// changes when a version crosses the boundary. Bucketing the cutoff to the
/// hour makes the memo key stable, so repeated hits within the hour reuse the
/// filtered bytes; the cost is at most ~1h of aging-in jitter, irrelevant for a
/// day-scale cooldown.
pub const MEMO_BUCKET_SECS: u64 = 3600;

/// Maximum number of crates held in the filtered-output memo before it is
/// cleared. Each crate keeps at most one entry, so this bounds memory use.
pub const MEMO_MAX_ENTRIES: usize = 8192;

/// One memoized filtered index body, tagged with the source identity and the
/// cooldown bucket it was produced for.
struct MemoEntry {
    /// Source content validator (upstream etag or last-modified).
    validator: String,
    /// Cutoff bucket (cutoff / [`MEMO_BUCKET_SECS`]) the body was filtered for.
    bucket: u64,
    /// The filtered bytes (cheap to clone).
    data: Bytes,
}

/// What a memoized body holds.
pub struct MemoEntryView {
    /// Source content validator.
    pub validator: Seq<char>,
    /// Cutoff bucket.
    pub bucket: u64,
    /// Filtered bytes.
    pub data: Seq<u8>,
}

impl View for MemoEntry {
    type V = MemoEntryView;

    closed spec fn view(&self) -> MemoEntryView {
        MemoEntryView {
            validator: self.validator@,
            bucket: self.bucket,
            data: body::content(self.data),
        }
    }
}

/// The memoized bodies, by crate name.
pub type MemoView = Map<Seq<char>, MemoEntryView>;

/// Bounded cache of filtered index bodies keyed by crate name.
///
/// At most one entry per crate is retained; a lookup hits only when both the
/// source validator and the cutoff bucket still match, so stale or
/// time-shifted output is never reused.
pub struct FilteredMemo {
    inner: StringHashMap<MemoEntry>,
}

impl View for FilteredMemo {
    type V = MemoView;

    closed spec fn view(&self) -> MemoView {
        self.inner@.map_values(|e: MemoEntry| e@)
    }
}

/// What a lookup finds.
pub open spec fn memo_hit(
    memo: MemoView,
    name: Seq<char>,
    validator: Seq<char>,
    bucket: u64,
) -> Option<Seq<u8>> {
    if memo.contains_key(name) && memo[name].validator == validator && memo[name].bucket
        == bucket {
        Some(memo[name].data)
    } else {
        None
    }
}

impl FilteredMemo {
    /// The memo is within its bound.
    pub open spec fn wf(self) -> bool {
        self@.dom().finite() && self@.len() <= MEMO_MAX_ENTRIES
    }

    /// Creates an empty memo.
    pub fn new() -> (r: Self)
        ensures
            r.wf(),
            r@ == Map::<Seq<char>, MemoEntryView>::empty(),
    {
        let r = FilteredMemo { inner: StringHashMap::new() };
        assert(r@ =~= Map::<Seq<char>, MemoEntryView>::empty());
        r
    }

    /// Returns the memoized filtered body for `name` if it was produced from
    /// the same source `validator` and cutoff `bucket`.
    pub fn get(&self, name: &str, validator: &str, bucket: u64) -> (r: Option<Bytes>)
        ensures
            match r {
                Some(data) => memo_hit(self@, name@, validator@, bucket) == Some(
                    body::content(data),
                ),
                None => memo_hit(self@, name@, validator@, bucket) is None,
            },
    {
        match self.inner.get(name) {
            Some(entry) => {
                if same_text(entry.validator.as_str(), validator) && entry.bucket == bucket {
                    Some(bytes_clone(&entry.data))
                } else {
                    None
                }
            },
            None => None,
        }
    }

    /// Stores the filtered body for `name`, evicting everything if the memo is
    /// full and this is a new crate (keeps memory bounded).
    pub fn put(&mut self, name: String, validator: String, bucket: u64, data: Bytes)
        requires
            old(self).wf(),
        ensures
            final(self).wf(),
            final(self)@ == metadata::bounded_insert(
                old(self)@,
                MEMO_MAX_ENTRIES as nat,
                name@,
                MemoEntryView { validator: validator@, bucket, data: body::content(data) },
            ),
    {
        assert(self.inner@.dom() =~= self@.dom());
        if self.inner.len() >= MEMO_MAX_ENTRIES && !self.inner.contains_key(name.as_str()) {
            self.inner.clear();
            assert(self@ =~= Map::<Seq<char>, MemoEntryView>::empty());
        }
        let ghost before = self@;
        let ghost key = name@;
        let entry = MemoEntry { validator, bucket, data };
        let ghost value = entry@;
        self.inner.insert(name, entry);
        assert(self@ =~= before.insert(key, value));
    }
}

/// A body put into the memo is found under the same validator and bucket, and
/// under no other.
pub proof fn memo_respects_its_tags(
    memo: MemoView,
    name: Seq<char>,
    entry: MemoEntryView,
    validator: Seq<char>,
    bucket: u64,
)
    ensures
        memo_hit(
            metadata::bounded_insert(memo, MEMO_MAX_ENTRIES as nat, name, entry),
            name,
            validator,
            bucket,
        ) == (if validator == entry.validator && bucket == entry.bucket {
            Some(entry.data)
        } else {
            None
        }),
{
}

/// Two cutoffs in one bucket are less than an hour apart.
pub proof fn buckets_are_an_hour_wide(a: u64, b: u64)
    requires
        a / MEMO_BUCKET_SECS == b / MEMO_BUCKET_SECS,
    ensures
        MEMO_BUCKET_SECS == 3600,
        a < b + MEMO_BUCKET_SECS,
        b < a + MEMO_BUCKET_SECS,
{
}

/// A lookup finds the body that stands under the name if both tags are its
/// own, and nothing otherwise; a body put in under one name is found under no
/// other.
pub proof fn memo_finds_what_it_holds(
    memo: MemoView,
    name: Seq<char>,
    entry: MemoEntryView,
    other: Seq<char>,
    validator: Seq<char>,
    bucket: u64,
)
    requires
        other != name,
    ensures
        !memo.contains_key(name) ==> memo_hit(memo, name, validator, bucket) is None,
        memo.contains_key(name) && memo[name] == entry ==> memo_hit(
            memo,
            name,
            entry.validator,
            entry.bucket,
        ) == Some(entry.data),
        memo.contains_key(name) && memo[name].validator != validator ==> memo_hit(
            memo,
            name,
            validator,
            bucket,
        ) is None,
        memo.contains_key(name) && memo[name].bucket != bucket ==> memo_hit(
            memo,
            name,
            validator,
            bucket,
        ) is None,
        memo.len() < 8192 || memo.contains_key(name) ==> memo_hit(
            metadata::bounded_insert(memo, MEMO_MAX_ENTRIES as nat, name, entry),
            other,
            validator,
            bucket,
        ) == memo_hit(memo, other, validator, bucket),
        memo.len() >= 8192 && !memo.contains_key(name) ==> memo_hit(
            metadata::bounded_insert(memo, MEMO_MAX_ENTRIES as nat, name, entry),
            other,
            validator,
            bucket,
        ) is None,
{
}

} // verus!
