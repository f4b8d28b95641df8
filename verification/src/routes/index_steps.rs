//! The course of a sparse-index request.
//!
//! The server performs the file and network operations; this module decides
//! which one comes next. A request starts with [`handle_index`]. Each
//! [`IndexStep`] that comes back names an operation, and the function to call
//! with its outcome:
//!
//! - [`IndexStep::ReadFile`]: read the cached index file, then [`read_done`];
//! - [`IndexStep::FindFile`]: look up the modification time of the cached index
//!   file, then [`find_done`];
//! - [`IndexStep::Fetch`]: ask the upstream registry, then [`fetched`] or
//!   [`fetch_failed`];
//! - [`IndexStep::WriteFile`]: store the index file, then [`write_done`];
//! - [`IndexStep::Serve`]: serve the entry with [`serve`].

use std::time::Instant;

use bytes::Bytes;

use vstd::prelude::*;
use vstd::utf8::*;

use crate::address;
use crate::cache::index_entry;
use crate::cache::index_entry::{EntryView, IndexEntry};
use crate::cache::memo;
use crate::cache::memo::{
    FilteredMemo, MemoEntryView, MemoView, MEMO_BUCKET_SECS, MEMO_MAX_ENTRIES,
};
use crate::cache::metadata;
use crate::cache::metadata::{MetadataCache, MetadataView, METADATA_MAX_ENTRIES};
use crate::config::config::{Config, ConfigView};
use crate::constants::{INDEX_CTYPE, JSON_CTYPE};
use crate::cooldown;
use crate::cooldown::filter_index;
use crate::http::body;
use crate::http::body::{bytes_clone, bytes_from_vec};
use crate::http::fetch::FetchError;
use crate::http::response;
use crate::http::response::{
    error_response, format_json_error, json_response, Body, Response, ResponseView,
};
use crate::routes::etag;
use crate::routes::index;
use crate::routes::index::{
    entry_validator, index_not_modified, index_request, with_index_validators, IndexRequest,
    RequestView,
};
use crate::text;
use crate::text::text_lossy;
use crate::time;
use crate::time::{read_clock, read_instant, Duration, Timestamp, NANOS_PER_SEC};
use crate::valid;

verus! {

// States.

/// An index entry that a client asks for.
pub struct IndexQuery {
    /// The entry, with the validators of the copy that the client has.
    entry: IndexEntry,
    /// The client's copy (if any) was filtered at the same cooldown window we
    /// serve at now; only then is a `304` safe.
    window_ok: bool,
}

/// What a query holds.
pub struct QueryView {
    /// The entry, with the validators of the copy that the client has.
    pub entry: EntryView,
    /// The client's copy was filtered at the window we serve at now.
    pub window_ok: bool,
}

impl View for IndexQuery {
    type V = QueryView;

    closed spec fn view(&self) -> QueryView {
        QueryView { entry: self.entry@, window_ok: self.window_ok }
    }
}

impl IndexQuery {
    #[verifier::type_invariant]
    spec fn inv(self) -> bool {
        valid::crate_name(self.entry@.name)
    }

    /// Gets the name of the crate.
    pub fn name(&self) -> (r: &str)
        ensures
            r@ == self@.entry.name,
            valid::crate_name(r@),
    {
        proof {
            use_type_invariant(self);
        }
        self.entry.name()
    }

    /// Gets the path of the cached index file in the index directory.
    pub fn file_path(&self) -> (r: String)
        ensures
            r@ == index_entry::index_url(self@.entry.name),
    {
        proof {
            use_type_invariant(self);
            index_entry::crate_names_have_index_urls(self.entry@.name);
        }
        self.entry.to_file_path()
    }
}

/// What a cached index file is read for.
pub enum ReadPurpose {
    /// Serve it under this entry of the metadata cache, which has not expired.
    Warm(IndexEntry),
    /// Serve it for want of an answer from the upstream, which failed with
    /// this message.
    Stale(String),
    /// Serve it under this entry, which the upstream has just confirmed.
    Revalidated(IndexEntry),
}

/// What a cached index file is read for.
pub enum PurposeView {
    /// Serve it under an entry of the metadata cache.
    Warm(EntryView),
    /// Serve it for want of an answer from the upstream.
    Stale(Seq<char>),
    /// Serve it under an entry that the upstream has confirmed.
    Revalidated(EntryView),
}

impl View for ReadPurpose {
    type V = PurposeView;

    open spec fn view(&self) -> PurposeView {
        match *self {
            ReadPurpose::Warm(entry) => PurposeView::Warm(entry@),
            ReadPurpose::Stale(message) => PurposeView::Stale(message@),
            ReadPurpose::Revalidated(entry) => PurposeView::Revalidated(entry@),
        }
    }
}

/// A cached index file that is to be read.
pub struct IndexRead {
    /// The query.
    pub query: IndexQuery,
    /// What the file is read for.
    pub purpose: ReadPurpose,
}

/// A request to the upstream registry that is to be made.
pub struct IndexFetch {
    query: IndexQuery,
    request: IndexEntry,
}

impl IndexFetch {
    #[verifier::type_invariant]
    spec fn inv(self) -> bool {
        valid::crate_name(self.request@.name)
    }

    /// The query.
    pub closed spec fn query(self) -> IndexQuery {
        self.query
    }

    /// The entry to ask for, with the validators of the copy that the proxy
    /// has.
    pub closed spec fn asked(self) -> EntryView {
        self.request@
    }

    /// Gets the name of the crate.
    pub fn name(&self) -> (r: &str)
        ensures
            r@ == self.query()@.entry.name,
    {
        self.query.name()
    }
}

/// An index file that is to be stored.
pub struct IndexWrite {
    query: IndexQuery,
    entry: IndexEntry,
    data: Vec<u8>,
}

impl IndexWrite {
    #[verifier::type_invariant]
    spec fn inv(self) -> bool {
        valid::crate_name(self.entry@.name)
    }

    /// The query.
    pub closed spec fn query(self) -> IndexQuery {
        self.query
    }

    /// The entry that the upstream has sent.
    pub closed spec fn stored(self) -> EntryView {
        self.entry@
    }

    /// The contents of the file.
    pub closed spec fn contents(self) -> Seq<u8> {
        self.data@
    }

    /// Gets the name of the crate.
    pub fn name(&self) -> (r: &str)
        ensures
            r@ == self.query()@.entry.name,
    {
        self.query.name()
    }

    /// Gets the path of the file in the index directory.
    pub fn file_path(&self) -> (r: String)
        ensures
            r@ == index_entry::index_url(self.stored().name),
    {
        proof {
            use_type_invariant(self);
            index_entry::crate_names_have_index_urls(self.entry@.name);
        }
        self.entry.to_file_path()
    }

    /// Gets the modification time to give the file.
    pub fn mtime(&self) -> (r: Option<Timestamp>)
        ensures
            match r {
                Some(t) => self.stored().mtime == Some((t.secs() as int, t.nanos() as int)),
                None => self.stored().mtime is None,
            },
    {
        self.entry.mtime()
    }

    /// Gets the contents of the file.
    pub fn data(&self) -> (r: &[u8])
        ensures
            r@ == self.contents(),
    {
        self.data.as_slice()
    }
}

/// An index entry that is to be served, with its unfiltered contents.
pub struct IndexServe {
    /// The query.
    pub query: IndexQuery,
    /// The entry to serve.
    pub entry: IndexEntry,
    /// The unfiltered contents.
    pub data: Vec<u8>,
}

/// What comes next in an index request.
pub enum IndexStep {
    /// Answer with the registry configuration file.
    ConfigJson,
    /// Answer with this response.
    Respond(Response),
    /// Read the cached index file.
    ReadFile(IndexRead),
    /// Look up the modification time of the cached index file.
    FindFile(IndexQuery),
    /// Ask the upstream registry.
    Fetch(IndexFetch),
    /// Store the index file.
    WriteFile(IndexWrite),
    /// Serve the entry.
    Serve(IndexServe),
}

/// What comes next in an index request.
pub enum StepView {
    /// Answer with the registry configuration file.
    ConfigJson,
    /// Answer with a response.
    Respond(ResponseView),
    /// Read the cached index file.
    ReadFile {
        /// The query.
        query: QueryView,
        /// What the file is read for.
        purpose: PurposeView,
    },
    /// Look up the modification time of the cached index file.
    FindFile {
        /// The query.
        query: QueryView,
    },
    /// Ask the upstream registry.
    Fetch {
        /// The query.
        query: QueryView,
        /// The entry to ask for.
        asked: EntryView,
    },
    /// Store the index file.
    WriteFile {
        /// The query.
        query: QueryView,
        /// The entry to store.
        entry: EntryView,
        /// The contents of the file.
        data: Seq<u8>,
    },
    /// Serve the entry.
    Serve {
        /// The query.
        query: QueryView,
        /// The entry to serve.
        entry: EntryView,
        /// The unfiltered contents.
        data: Seq<u8>,
    },
}

impl View for IndexStep {
    type V = StepView;

    open spec fn view(&self) -> StepView {
        match *self {
            IndexStep::ConfigJson => StepView::ConfigJson,
            IndexStep::Respond(r) => StepView::Respond(r@),
            IndexStep::ReadFile(read) => StepView::ReadFile {
                query: read.query@,
                purpose: read.purpose@,
            },
            IndexStep::FindFile(query) => StepView::FindFile { query: query@ },
            IndexStep::Fetch(fetch) => StepView::Fetch {
                query: fetch.query()@,
                asked: fetch.asked(),
            },
            IndexStep::WriteFile(write) => StepView::WriteFile {
                query: write.query()@,
                entry: write.stored(),
                data: write.contents(),
            },
            IndexStep::Serve(s) => StepView::Serve {
                query: s.query@,
                entry: s.entry@,
                data: s.data@,
            },
        }
    }
}

// The start of a request.

/// What comes first in a request for an entry: an expired copy is refreshed, a
/// fresh one is served, and without one the cached file is looked for.
pub open spec fn lookup(
    config: ConfigView,
    entry: EntryView,
    window: Option<u64>,
    cached: Option<EntryView>,
    expired: bool,
    cutoff: Option<u64>,
) -> StepView {
    let query = QueryView { entry, window_ok: window == config.window(cutoff) };
    match cached {
        Some(c) => if expired {
            StepView::Fetch { query, asked: c }
        } else if query.window_ok && c.equivalent(entry) {
            StepView::Respond(index::not_modified_view(c, config.window(cutoff)))
        } else {
            StepView::ReadFile { query, purpose: PurposeView::Warm(c) }
        },
        None => StepView::FindFile { query },
    }
}

/// The view of an optional entry.
pub open spec fn opt_entry(entry: Option<IndexEntry>) -> Option<EntryView> {
    match entry {
        Some(e) => Some(e@),
        None => None,
    }
}

/// What a metadata cache holds of a crate.
pub open spec fn cached_entry(map: MetadataView, name: Seq<char>) -> Option<EntryView> {
    if map.contains_key(name) {
        Some(map[name])
    } else {
        None
    }
}

/// Decides what comes first in a request for an entry, given the cached
/// metadata, whether they have expired, and the cutoff of the crate.
pub fn lookup_at(
    config: &Config,
    entry: IndexEntry,
    window: Option<u64>,
    cached: Option<IndexEntry>,
    expired: bool,
    cutoff: Option<u64>,
) -> (r: IndexStep)
    requires
        valid::crate_name(entry@.name),
        cached is Some ==> valid::crate_name((cached->0)@.name),
    ensures
        r@ == lookup(config@, entry@, window, opt_entry(cached), expired, cutoff),
{
    let served = config.window(cutoff);
    let window_ok = match (window, served) {
        (Some(a), Some(b)) => a == b,
        (None, None) => true,
        _ => false,
    };
    match cached {
        Some(c) => {
            if expired {
                let query = IndexQuery { entry, window_ok };
                return IndexStep::Fetch(IndexFetch { query, request: c });
            }
            if window_ok && c.is_equivalent(&entry) {
                return IndexStep::Respond(index_not_modified(&c, served));
            }
            let query = IndexQuery { entry, window_ok };
            IndexStep::ReadFile(IndexRead { query, purpose: ReadPurpose::Warm(c) })
        },
        None => IndexStep::FindFile(IndexQuery { entry, window_ok }),
    }
}

/// What comes first in a request for an entry, given the time since the cached
/// metadata were last checked: they expire when that is more than the
/// configured Time-to-Live.
pub open spec fn lookup_after(
    config: ConfigView,
    entry: EntryView,
    window: Option<u64>,
    cached: Option<EntryView>,
    elapsed: Duration,
    cutoff: Option<u64>,
) -> StepView {
    lookup(
        config,
        entry,
        window,
        cached,
        cached is Some && cached->0.expired_after(elapsed, config.cache_ttl),
        cutoff,
    )
}

/// Decides what comes first in a request for an entry, given the cached
/// metadata, the time since they were last checked, and the cutoff of the
/// crate.
pub fn lookup_elapsed(
    config: &Config,
    entry: IndexEntry,
    window: Option<u64>,
    cached: Option<IndexEntry>,
    elapsed: &Duration,
    cutoff: Option<u64>,
) -> (r: IndexStep)
    requires
        valid::crate_name(entry@.name),
        cached is Some ==> valid::crate_name((cached->0)@.name),
    ensures
        r@ == lookup_after(config@, entry@, window, opt_entry(cached), *elapsed, cutoff),
{
    let ttl = config.cache_ttl();
    let expired = match &cached {
        Some(c) => c.is_expired_after(elapsed, &ttl),
        None => false,
    };
    lookup_at(config, entry, window, cached, expired, cutoff)
}

/// Decides what comes first in a request for an entry, given what the metadata
/// cache holds of the crate, the time since that was last checked, and the
/// seconds on the clock.
pub fn handle_entry_at(
    config: &Config,
    entry: IndexEntry,
    window: Option<u64>,
    cached: Option<IndexEntry>,
    elapsed: &Duration,
    now: Option<u64>,
) -> (r: IndexStep)
    requires
        valid::crate_name(entry@.name),
        cached is Some ==> valid::crate_name((cached->0)@.name),
    ensures
        r@ == lookup_after(
            config@,
            entry@,
            window,
            opt_entry(cached),
            *elapsed,
            config@.cutoff_at(entry@.name, now),
        ),
{
    let cutoff = config.cutoff_at(entry.name(), now);
    lookup_elapsed(config, entry, window, cached, elapsed, cutoff)
}

/// `elapsed` is what a reading of the time since the last check of a cached
/// entry gave; without a check there is nothing to read.
pub open spec fn check_age_read(cached: Option<EntryView>, elapsed: Duration) -> bool {
    cached is Some && cached->0.atime is Some ==> time::elapsed_reads(
        cached->0.atime->0,
        elapsed,
    )
}

/// Handles a sparse registry index request: `GET /index/<path>`, up to the
/// first operation. The time, and the time since the cached metadata were last
/// checked, are read off the clock.
pub fn handle_index(
    config: &Config,
    metadata: &MetadataCache,
    path: &str,
    if_none_match: Option<&str>,
    if_modified_since: Option<&str>,
) -> (r: IndexStep)
    requires
        metadata.wf(),
    ensures
        match index::request_of(
            path@,
            text::opt_str(if_none_match),
            text::opt_str(if_modified_since),
        ) {
            RequestView::ConfigJson => r@ == StepView::ConfigJson,
            RequestView::Malformed => r@ == StepView::Respond(response::error_view(404)),
            RequestView::Entry(entry, window) => exists|elapsed: Duration, cutoff: Option<u64>|
                config@.cutoff_possible(entry.name, cutoff) && config@.cutoff_read(
                    entry.name,
                    cutoff,
                ) && elapsed.nanos() < NANOS_PER_SEC && check_age_read(
                    cached_entry(metadata@, entry.name),
                    elapsed,
                ) && r@ == #[trigger] lookup_after(
                    config@,
                    entry,
                    window,
                    cached_entry(metadata@, entry.name),
                    elapsed,
                    cutoff,
                ),
        },
{
    match index_request(path, if_none_match, if_modified_since) {
        IndexRequest::ConfigJson => IndexStep::ConfigJson,
        IndexRequest::Malformed => IndexStep::Respond(error_response(404)),
        IndexRequest::Entry(entry, window) => {
            let ghost asked = entry@;
            let cached = metadata.fetch(entry.name());
            let elapsed = match &cached {
                Some(c) => c.since_update(),
                None => Duration::from_secs(0),
            };
            let now = read_clock();
            let step = handle_entry_at(config, entry, window, cached, &elapsed, now);
            assert(config@.cutoff_read(asked.name, config@.cutoff_at(asked.name, now)));
            step
        },
    }
}

// Files.

/// What comes after a cached index file was read, or not found.
pub open spec fn after_read(
    query: QueryView,
    purpose: PurposeView,
    data: Option<Seq<u8>>,
) -> StepView {
    match (purpose, data) {
        (PurposeView::Warm(entry), Some(d)) => StepView::Serve { query, entry, data: d },
        (PurposeView::Warm(_), None) => StepView::FindFile { query },
        (PurposeView::Stale(_), Some(d)) => StepView::Serve { query, entry: query.entry, data: d },
        (PurposeView::Stale(message), None) => StepView::Respond(
            response::json_view(502, response::json_error(message)),
        ),
        (PurposeView::Revalidated(entry), Some(d)) => StepView::Serve { query, entry, data: d },
        (PurposeView::Revalidated(_), None) => StepView::Respond(response::error_view(503)),
    }
}

/// The contents of an optional vector.
pub open spec fn opt_bytes(data: Option<Vec<u8>>) -> Option<Seq<u8>> {
    match data {
        Some(d) => Some(d@),
        None => None,
    }
}

/// Goes on after a cached index file was read, or not found.
///
/// A warm entry without a file is fetched anew. Without a file to stand in for
/// it, an upstream failure is reported. If the upstream confirmed a file that
/// is gone, the metadata of the crate are forgotten.
pub fn read_done(read: IndexRead, data: Option<Vec<u8>>, metadata: &mut MetadataCache) -> (r:
    IndexStep)
    requires
        old(metadata).wf(),
    ensures
        final(metadata).wf(),
        r@ == after_read(read.query@, read.purpose@, opt_bytes(data)),
        final(metadata)@ == (if read.purpose@ is Revalidated && data is None {
            old(metadata)@.remove(read.query@.entry.name)
        } else {
            old(metadata)@
        }),
{
    let query = read.query;
    match read.purpose {
        ReadPurpose::Warm(entry) => match data {
            Some(data) => IndexStep::Serve(IndexServe { query, entry, data }),
            None => IndexStep::FindFile(query),
        },
        ReadPurpose::Stale(message) => match data {
            Some(data) => {
                let entry = query.entry.clone();
                IndexStep::Serve(IndexServe { query, entry, data })
            },
            None => IndexStep::Respond(
                json_response(502, format_json_error(message.as_str())),
            ),
        },
        ReadPurpose::Revalidated(entry) => match data {
            Some(data) => IndexStep::Serve(IndexServe { query, entry, data }),
            None => {
                metadata.invalidate(&query.entry);
                IndexStep::Respond(error_response(503))
            },
        },
    }
}

/// The entry to ask the upstream for: the crate with the modification time of
/// the cached file, or, without a file, the entry of the client.
pub open spec fn asked_entry(query: QueryView, mtime: Option<(int, int)>) -> EntryView {
    match mtime {
        Some(t) => EntryView { mtime: Some(t), ..EntryView::bare(query.entry.name) },
        None => query.entry,
    }
}

/// The seconds and nanoseconds of an optional time.
pub open spec fn opt_time(time: Option<Timestamp>) -> Option<(int, int)> {
    match time {
        Some(t) => Some((t.secs() as int, t.nanos() as int)),
        None => None,
    }
}

/// Goes on after the modification time of the cached index file was looked up:
/// recreates the metadata from it, then fetches from upstream.
pub fn find_done(query: IndexQuery, mtime: Option<Timestamp>) -> (r: IndexStep)
    ensures
        r@ == (StepView::Fetch {
            query: query@,
            asked: asked_entry(query@, opt_time(mtime)),
        }),
{
    proof {
        use_type_invariant(&query);
    }
    let request = match mtime {
        Some(time) => {
            let mut entry = IndexEntry::new(query.entry.name());
            entry.set_mtime(time);
            entry
        },
        None => query.entry.clone(),
    };
    IndexStep::Fetch(IndexFetch { query, request })
}

// The upstream registry.

/// A request to an upstream server.
pub struct UpstreamRequest {
    /// URL to get.
    pub url: String,
    /// `Accept-Encoding` header.
    pub accept_encoding: Option<&'static str>,
    /// `If-None-Match` header.
    pub if_none_match: Option<String>,
    /// `If-Modified-Since` header.
    pub if_modified_since: Option<String>,
}

/// What an upstream server sees of a request.
pub struct UpstreamView {
    /// URL to get.
    pub url: Seq<char>,
    /// `Accept-Encoding` header.
    pub accept_encoding: Option<Seq<char>>,
    /// `If-None-Match` header.
    pub if_none_match: Option<Seq<char>>,
    /// `If-Modified-Since` header.
    pub if_modified_since: Option<Seq<char>>,
}

impl View for UpstreamRequest {
    type V = UpstreamView;

    open spec fn view(&self) -> UpstreamView {
        UpstreamView {
            url: self.url@,
            accept_encoding: text::opt_str(self.accept_encoding),
            if_none_match: text::opt_text(self.if_none_match),
            if_modified_since: text::opt_text(self.if_modified_since),
        }
    }
}

/// The request for an index entry at a URL. The identity encoding is pinned: a
/// compressed body would fail the UTF-8 check and pass through unfiltered,
/// silently disabling age-gating. An entity tag wins over a date.
pub open spec fn upstream_request(url: Seq<char>, asked: EntryView) -> UpstreamView {
    UpstreamView {
        url,
        accept_encoding: Some("identity"@),
        if_none_match: asked.etag,
        if_modified_since: if asked.etag is Some {
            None
        } else {
            asked.last_modified()
        },
    }
}

/// Builds the request for an index entry at a URL.
pub fn index_request_at(url: &str, asked: &IndexEntry) -> (r: UpstreamRequest)
    ensures
        r@ == upstream_request(url@, asked@),
{
    let (if_none_match, if_modified_since) = match asked.etag() {
        Some(e) => (Some(e.to_owned()), None),
        None => (None, asked.last_modified()),
    };
    UpstreamRequest {
        url: url.to_owned(),
        accept_encoding: Some("identity"),
        if_none_match,
        if_modified_since,
    }
}

impl IndexFetch {
    /// Builds the request that downloads the index entry from the upstream
    /// registry, with the conditional headers that the entry carries. There is
    /// none if the index URL cannot be a base URL.
    pub fn upstream(&self, config: &Config) -> (r: Option<UpstreamRequest>)
        ensures
            match address::joined_url(
                config@.index_url,
                index_entry::index_url(self.asked().name),
            ) {
                Some(url) => r is Some && (r->0)@ == upstream_request(url, self.asked()),
                None => r is None,
            },
    {
        proof {
            use_type_invariant(self);
            index_entry::crate_names_have_index_urls(self.request@.name);
        }
        let path = self.request.to_index_url();
        match config.index_url().join(path.as_str()) {
            Some(url) => Some(index_request_at(url.as_str(), &self.request)),
            None => None,
        }
    }
}

/// An answer of the upstream registry.
pub struct UpstreamReply {
    /// Status code.
    pub status: u16,
    /// `ETag` header.
    pub etag: Option<String>,
    /// `Last-Modified` header.
    pub last_modified: Option<String>,
    /// Body.
    pub data: Vec<u8>,
}

/// An entry with the validators of an answer, where it has them.
pub open spec fn updated_entry(
    entry: EntryView,
    etag: Option<Seq<char>>,
    last_modified: Option<Seq<char>>,
) -> EntryView {
    let tagged = EntryView {
        etag: if etag is Some {
            etag
        } else {
            entry.etag
        },
        ..entry
    };
    match last_modified {
        Some(date) => tagged.with_last_modified(date),
        None => tagged,
    }
}

/// Takes over the validators of an answer.
pub fn update_entry(entry: &mut IndexEntry, etag: Option<&str>, last_modified: Option<&str>)
    ensures
        final(entry)@ == updated_entry(
            old(entry)@,
            text::opt_str(etag),
            text::opt_str(last_modified),
        ),
{
    if let Some(tag) = etag {
        entry.set_etag(tag);
    }
    if let Some(date) = last_modified {
        entry.set_last_modified(date);
    }
}

/// A step and the metadata cache that goes with it.
pub struct Outcome {
    /// What comes next.
    pub step: StepView,
    /// The cached metadata.
    pub metadata: MetadataView,
}

/// The metadata cache after an entry was stored.
pub open spec fn remembered(map: MetadataView, entry: EntryView) -> MetadataView {
    metadata::bounded_insert(map, METADATA_MAX_ENTRIES as nat, entry.name, entry)
}

/// What comes after the upstream has answered; `entry` has the validators of
/// the answer.
pub open spec fn settled(
    config: ConfigView,
    map: MetadataView,
    query: QueryView,
    entry: EntryView,
    status: u16,
    data: Seq<u8>,
    cutoff: Option<u64>,
) -> Outcome {
    if status == 200 {
        Outcome { step: StepView::WriteFile { query, entry, data }, metadata: map }
    } else if status == 304 {
        Outcome {
            step: if query.window_ok && entry.equivalent(query.entry) {
                StepView::Respond(index::not_modified_view(entry, config.window(cutoff)))
            } else {
                StepView::ReadFile { query, purpose: PurposeView::Revalidated(entry) }
            },
            metadata: remembered(map, entry),
        }
    } else {
        Outcome {
            step: StepView::Respond(response::json_view(status, text::lossy_text(data))),
            metadata: map,
        }
    }
}

/// An answer with a status other than 200 and 304, whose body is a text, is
/// forwarded with its status and its bytes.
pub open spec fn forwards_verbatim(step: StepView, status: u16, data: Seq<u8>) -> bool {
    status != 200 && status != 304 && valid_utf8(data) ==> step == StepView::Respond(
        ResponseView {
            status,
            content_type: Some(JSON_CTYPE@),
            etag: None,
            last_modified: None,
            body: data,
        },
    )
}

/// Goes on after the upstream has answered, given the entry with the
/// validators of the answer, and the cutoff of the crate.
///
/// A new index file is stored. A confirmed one is served, or the client told
/// that its copy is up to date. Other statuses (e.g. 404) are forwarded
/// verbatim, but for the parts of a body that are no text.
pub fn settle_at(
    config: &Config,
    metadata: &mut MetadataCache,
    query: IndexQuery,
    entry: IndexEntry,
    status: u16,
    data: Vec<u8>,
    cutoff: Option<u64>,
) -> (r: IndexStep)
    requires
        old(metadata).wf(),
        valid::crate_name(entry@.name),
    ensures
        final(metadata).wf(),
        (Outcome { step: r@, metadata: final(metadata)@ }) == settled(
            config@,
            old(metadata)@,
            query@,
            entry@,
            status,
            data@,
            cutoff,
        ),
        forwards_verbatim(r@, status, data@),
{
    if status == 200 {
        IndexStep::WriteFile(IndexWrite { query, entry, data })
    } else if status == 304 {
        metadata.store(&entry);
        if query.window_ok && entry.is_equivalent(&query.entry) {
            IndexStep::Respond(index_not_modified(&entry, config.window(cutoff)))
        } else {
            IndexStep::ReadFile(IndexRead { query, purpose: ReadPurpose::Revalidated(entry) })
        }
    } else {
        proof {
            if valid_utf8(data@) {
                decode_utf8_encode_utf8(data@);
            }
        }
        IndexStep::Respond(json_response(status, text_lossy(data.as_slice())))
    }
}

/// The entry that was asked for, with the validators of an answer and the time
/// at which it came.
pub open spec fn checked_entry(
    asked: EntryView,
    etag: Option<Seq<char>>,
    last_modified: Option<Seq<char>>,
    checked: Instant,
) -> EntryView {
    EntryView { atime: Some(checked), ..updated_entry(asked, etag, last_modified) }
}

/// Goes on after the upstream has answered, given the instant of the answer and
/// the seconds on the clock.
pub fn fetched_at(
    config: &Config,
    metadata: &mut MetadataCache,
    fetch: IndexFetch,
    reply: UpstreamReply,
    checked: Instant,
    now: Option<u64>,
) -> (r: IndexStep)
    requires
        old(metadata).wf(),
    ensures
        final(metadata).wf(),
        (Outcome { step: r@, metadata: final(metadata)@ }) == settled(
            config@,
            old(metadata)@,
            fetch.query()@,
            checked_entry(
                fetch.asked(),
                text::opt_text(reply.etag),
                text::opt_text(reply.last_modified),
                checked,
            ),
            reply.status,
            reply.data@,
            config@.cutoff_at(fetch.query()@.entry.name, now),
        ),
        forwards_verbatim(r@, reply.status, reply.data@),
{
    proof {
        use_type_invariant(&fetch);
    }
    let query = fetch.query;
    let mut entry = fetch.request;
    let etag = match &reply.etag {
        Some(tag) => Some(tag.as_str()),
        None => None,
    };
    let last_modified = match &reply.last_modified {
        Some(date) => Some(date.as_str()),
        None => None,
    };
    update_entry(&mut entry, etag, last_modified);
    entry.set_last_updated_at(checked);
    let cutoff = config.cutoff_at(query.name(), now);
    settle_at(config, metadata, query, entry, reply.status, reply.data, cutoff)
}

/// Goes on after the upstream has answered. The instant of the answer and the
/// time are read off the clock.
pub fn fetched(
    config: &Config,
    metadata: &mut MetadataCache,
    fetch: IndexFetch,
    reply: UpstreamReply,
) -> (r: IndexStep)
    requires
        old(metadata).wf(),
    ensures
        final(metadata).wf(),
        exists|checked: Instant, cutoff: Option<u64>|
            time::instant_reads(checked) && config@.cutoff_possible(
                fetch.query()@.entry.name,
                cutoff,
            ) && config@.cutoff_read(fetch.query()@.entry.name, cutoff) && (Outcome {
                step: r@,
                metadata: final(metadata)@,
            }) == #[trigger] settled(
                config@,
                old(metadata)@,
                fetch.query()@,
                checked_entry(
                    fetch.asked(),
                    text::opt_text(reply.etag),
                    text::opt_text(reply.last_modified),
                    checked,
                ),
                reply.status,
                reply.data@,
                cutoff,
            ),
        forwards_verbatim(r@, reply.status, reply.data@),
{
    let checked = read_instant();
    let now = read_clock();
    let ghost name = fetch.query()@.entry.name;
    let r = fetched_at(config, metadata, fetch, reply, checked, now);
    assert(config@.cutoff_read(name, config@.cutoff_at(name, now)));
    r
}

/// Goes on after the upstream could not be asked, or its answer could not be
/// read: serves a possibly-stale cached copy if present.
pub fn fetch_failed(fetch: IndexFetch, error: FetchError) -> (r: IndexStep)
    ensures
        r@ == (StepView::ReadFile {
            query: fetch.query()@,
            purpose: PurposeView::Stale(error.text()),
        }),
{
    let message = error.message();
    IndexStep::ReadFile(IndexRead { query: fetch.query, purpose: ReadPurpose::Stale(message) })
}

/// What comes after a new index file was stored.
pub open spec fn after_write(
    config: ConfigView,
    map: MetadataView,
    query: QueryView,
    entry: EntryView,
    data: Seq<u8>,
    cutoff: Option<u64>,
) -> Outcome {
    Outcome {
        step: if query.window_ok && entry.equivalent(query.entry) {
            StepView::Respond(index::not_modified_view(entry, config.window(cutoff)))
        } else {
            StepView::Serve { query, entry, data }
        },
        metadata: remembered(map, entry),
    }
}

/// Goes on after a new index file was stored, given the cutoff of the crate:
/// remembers the metadata, and serves the file unless the client has it.
pub fn write_done_at(
    config: &Config,
    metadata: &mut MetadataCache,
    write: IndexWrite,
    cutoff: Option<u64>,
) -> (r: IndexStep)
    requires
        old(metadata).wf(),
    ensures
        final(metadata).wf(),
        (Outcome { step: r@, metadata: final(metadata)@ }) == after_write(
            config@,
            old(metadata)@,
            write.query()@,
            write.stored(),
            write.contents(),
            cutoff,
        ),
{
    let query = write.query;
    let entry = write.entry;
    let data = write.data;
    metadata.store(&entry);
    if query.window_ok && entry.is_equivalent(&query.entry) {
        IndexStep::Respond(index_not_modified(&entry, config.window(cutoff)))
    } else {
        IndexStep::Serve(IndexServe { query, entry, data })
    }
}

/// Goes on after a new index file was stored, given the seconds on the clock.
pub fn write_done_at_time(
    config: &Config,
    metadata: &mut MetadataCache,
    write: IndexWrite,
    now: Option<u64>,
) -> (r: IndexStep)
    requires
        old(metadata).wf(),
    ensures
        final(metadata).wf(),
        (Outcome { step: r@, metadata: final(metadata)@ }) == after_write(
            config@,
            old(metadata)@,
            write.query()@,
            write.stored(),
            write.contents(),
            config@.cutoff_at(write.query()@.entry.name, now),
        ),
{
    let cutoff = config.cutoff_at(write.name(), now);
    write_done_at(config, metadata, write, cutoff)
}

/// Goes on after a new index file was stored. The time is read off the clock.
pub fn write_done(config: &Config, metadata: &mut MetadataCache, write: IndexWrite) -> (r:
    IndexStep)
    requires
        old(metadata).wf(),
    ensures
        final(metadata).wf(),
        exists|cutoff: Option<u64>|
            config@.cutoff_possible(write.query()@.entry.name, cutoff) && config@.cutoff_read(
                write.query()@.entry.name,
                cutoff,
            ) && (Outcome {
                step: r@,
                metadata: final(metadata)@,
            }) == #[trigger] after_write(
                config@,
                old(metadata)@,
                write.query()@,
                write.stored(),
                write.contents(),
                cutoff,
            ),
{
    let now = read_clock();
    let ghost name = write.query()@.entry.name;
    let r = write_done_at_time(config, metadata, write, now);
    assert(config@.cutoff_read(name, config@.cutoff_at(name, now)));
    r
}

// Serving.

/// Index data that are to be filtered. The scan is cheap but entries can be
/// large, so it is worth a thread of its own.
pub struct FilterJob {
    /// The unfiltered data.
    pub data: Vec<u8>,
    /// The cutoff (unix seconds).
    pub cutoff: u64,
}

impl FilterJob {
    /// Filters the data.
    pub fn run(&self) -> (r: Vec<u8>)
        ensures
            r@ == cooldown::gated_data(self.data@, self.cutoff),
    {
        filter_index(self.data.as_slice(), self.cutoff)
    }
}

/// What becomes of filtered data.
pub struct FilterTicket {
    /// The crate.
    pub name: String,
    /// The entry to serve.
    pub entry: IndexEntry,
    /// The cutoff bucket.
    pub bucket: u64,
}

/// What comes next when an index entry is served.
pub enum ServeStep {
    /// Answer with this response.
    Respond(Response),
    /// Filter the data, then [`filter_done`].
    Filter(FilterJob, FilterTicket),
}

/// What comes next when an index entry is served.
pub enum ServeView {
    /// Answer with a response.
    Respond(ResponseView),
    /// Filter the data.
    Filter {
        /// The unfiltered data.
        data: Seq<u8>,
        /// The cutoff (unix seconds).
        cutoff: u64,
        /// The crate.
        name: Seq<char>,
        /// The entry to serve.
        entry: EntryView,
        /// The cutoff bucket.
        bucket: u64,
    },
}

impl View for ServeStep {
    type V = ServeView;

    open spec fn view(&self) -> ServeView {
        match *self {
            ServeStep::Respond(r) => ServeView::Respond(r@),
            ServeStep::Filter(job, ticket) => ServeView::Filter {
                data: job.data@,
                cutoff: job.cutoff,
                name: ticket.name@,
                entry: ticket.entry@,
                bucket: ticket.bucket,
            },
        }
    }
}

/// How an entry is served: verbatim with the upstream validators if it is not
/// subject to cooldown; else filtered, from the memo if it has been filtered
/// for this cutoff bucket before.
pub open spec fn served(
    config: ConfigView,
    memo: MemoView,
    name: Seq<char>,
    entry: EntryView,
    data: Seq<u8>,
    cutoff: Option<u64>,
) -> ServeView {
    match cutoff {
        None => ServeView::Respond(index::index_view(entry, None, data)),
        Some(c) => {
            let bucket = c / MEMO_BUCKET_SECS;
            match memo::memo_hit(memo, name, index::validator(entry), bucket) {
                Some(body) => ServeView::Respond(
                    index::index_view(entry, Some(config.cooldown.secs()), body),
                ),
                None => ServeView::Filter { data, cutoff: c, name, entry, bucket },
            }
        },
    }
}

/// Builds an index `200 OK` response.
fn index_ok(entry: &IndexEntry, window: Option<u64>, data: Bytes) -> (r: Response)
    ensures
        r@ == index::index_view(entry@, window, body::content(data)),
{
    with_index_validators(200, Some(INDEX_CTYPE), Body::Data(data), entry, window)
}

/// Serves an index entry, given the cutoff of the crate: age-gates (and
/// memoizes) the body when the crate is subject to cooldown.
pub fn serve_at(config: &Config, memo: &FilteredMemo, job: IndexServe, cutoff: Option<u64>) -> (r:
    ServeStep)
    ensures
        r@ == served(config@, memo@, job.query@.entry.name, job.entry@, job.data@, cutoff),
{
    let entry = job.entry;
    match cutoff {
        None => ServeStep::Respond(index_ok(&entry, None, bytes_from_vec(job.data))),
        Some(cutoff) => {
            let bucket: u64 = cutoff / MEMO_BUCKET_SECS;
            let name = job.query.name();
            let validator = entry_validator(&entry);
            match memo.get(name, validator.as_str(), bucket) {
                Some(cached) => {
                    let window = config.cooldown().as_secs();
                    ServeStep::Respond(index_ok(&entry, Some(window), cached))
                },
                None => {
                    let ticket = FilterTicket { name: name.to_owned(), entry, bucket };
                    ServeStep::Filter(FilterJob { data: job.data, cutoff }, ticket)
                },
            }
        },
    }
}

/// Serves an index entry, given the seconds on the clock.
pub fn serve_at_time(
    config: &Config,
    memo: &FilteredMemo,
    job: IndexServe,
    now: Option<u64>,
) -> (r: ServeStep)
    ensures
        r@ == served(
            config@,
            memo@,
            job.query@.entry.name,
            job.entry@,
            job.data@,
            config@.cutoff_at(job.query@.entry.name, now),
        ),
{
    let cutoff = config.cutoff_at(job.query.name(), now);
    serve_at(config, memo, job, cutoff)
}

/// Serves an index entry. The time is read off the clock.
pub fn serve(config: &Config, memo: &FilteredMemo, job: IndexServe) -> (r: ServeStep)
    ensures
        exists|cutoff: Option<u64>|
            config@.cutoff_possible(job.query@.entry.name, cutoff) && config@.cutoff_read(
                job.query@.entry.name,
                cutoff,
            ) && r@ == #[trigger] served(
                config@,
                memo@,
                job.query@.entry.name,
                job.entry@,
                job.data@,
                cutoff,
            ),
{
    let now = read_clock();
    let ghost name = job.query@.entry.name;
    let r = serve_at_time(config, memo, job, now);
    assert(config@.cutoff_read(name, config@.cutoff_at(name, now)));
    r
}

/// The memo after a filtered body was put into it.
pub open spec fn memoized(
    memo: MemoView,
    name: Seq<char>,
    entry: EntryView,
    bucket: u64,
    data: Seq<u8>,
) -> MemoView {
    metadata::bounded_insert(
        memo,
        MEMO_MAX_ENTRIES as nat,
        name,
        MemoEntryView { validator: index::validator(entry), bucket, data },
    )
}

/// Goes on after data were filtered: memoizes and serves them.
///
/// Without filtered data (the task failed) the answer is a `500`: a failure
/// must not be served as an empty (and thus version-less) `200`.
pub fn filter_done(
    config: &Config,
    memo: &mut FilteredMemo,
    ticket: FilterTicket,
    filtered: Option<Vec<u8>>,
) -> (r: Response)
    requires
        old(memo).wf(),
    ensures
        final(memo).wf(),
        match filtered {
            Some(data) => r@ == index::index_view(
                ticket.entry@,
                Some(config@.cooldown.secs()),
                data@,
            ) && final(memo)@ == memoized(
                old(memo)@,
                ticket.name@,
                ticket.entry@,
                ticket.bucket,
                data@,
            ),
            None => r@ == response::error_view(500) && final(memo)@ == old(memo)@,
        },
{
    match filtered {
        Some(data) => {
            let body = bytes_from_vec(data);
            let shared = bytes_clone(&body);
            let validator = entry_validator(&ticket.entry);
            memo.put(ticket.name, validator, ticket.bucket, shared);
            let window = config.cooldown().as_secs();
            index_ok(&ticket.entry, Some(window), body)
        },
        None => error_response(500),
    }
}

} // verus!
