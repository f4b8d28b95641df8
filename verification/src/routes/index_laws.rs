//! Laws of the sparse-index route.

use bytes::Bytes;

use vstd::prelude::*;
use vstd::utf8::*;

use crate::cache::index_entry;
use crate::cache::index_entry::{EntryView, IndexEntry};
use crate::cache::memo;
use crate::cache::memo::{MemoView, MEMO_BUCKET_SECS};
use crate::cache::metadata::MetadataView;
use crate::config::config;
use crate::config::config::ConfigView;
use crate::cooldown;
use crate::http::body;
use crate::http::response;
use crate::http::response::{Body, Response, ResponseView};
use crate::lines;
use crate::routes::etag;
use crate::routes::index;
use crate::routes::index::{IndexRequest, RequestView};
use crate::routes::index_steps;
use crate::routes::index_steps::{
    FilterJob, FilterTicket, IndexFetch, IndexQuery, IndexRead, IndexServe, IndexStep, IndexWrite,
    PurposeView, QueryView, ReadPurpose, ServeStep, ServeView, StepView, UpstreamRequest,
};
use crate::text;
use crate::time;
use crate::time::{Duration, Timestamp};

verus! {

// The registry configuration file.

/// The URLs in the registry configuration do not end in a slash.
pub proof fn config_urls_have_no_trailing_slash(url: Seq<char>)
    ensures
        text::without_end(url, '/').len() > 0 ==> text::without_end(url, '/').last() != '/',
    decreases url.len(),
{
    if url.len() > 0 && url.last() == '/' {
        config_urls_have_no_trailing_slash(url.drop_last());
    }
}

/// The registry configuration points crate downloads below the URL of the
/// proxy, whatever path that URL has.
pub proof fn config_points_downloads_at_the_proxy(proxy: Seq<char>, api: Seq<char>)
    ensures
        index::config_json(index::download_api_url(proxy), api) == "{\"dl\":\""@
            + text::without_end(proxy, '/') + "/api/v1/crates"@ + "\",\"api\":\""@
            + text::without_end(api, '/') + "\"}"@,
{
    reveal_strlit("/api/v1/crates");
    let dl = index::download_api_url(proxy);
    assert(dl.last() == 's');
    assert(text::without_end(dl, '/') == dl);
    assert(index::config_json(dl, api) =~= "{\"dl\":\""@ + text::without_end(proxy, '/')
        + "/api/v1/crates"@ + "\",\"api\":\""@ + text::without_end(api, '/') + "\"}"@);
}

// Expiry.

/// Cached metadata are revalidated once they are older than the configured
/// Time-to-Live, with the validators that they hold, and not before.
pub proof fn entries_are_revalidated_after_the_ttl(
    config: ConfigView,
    entry: EntryView,
    window: Option<u64>,
    cached: EntryView,
    elapsed: Duration,
    cutoff: Option<u64>,
)
    requires
        cached.atime is Some,
    ensures
        ({
            let step = index_steps::lookup_after(
                config,
                entry,
                window,
                Some(cached),
                elapsed,
                cutoff,
            );
            let query = QueryView { entry, window_ok: window == config.window(cutoff) };
            &&& elapsed.total_nanos() > config.cache_ttl.total_nanos() ==> step
                == (StepView::Fetch { query, asked: cached })
            &&& elapsed.total_nanos() <= config.cache_ttl.total_nanos() ==> !(step is Fetch)
        }),
{
}

// Revalidation.

/// A client that revalidates with the tag of a filtered copy asks with the
/// upstream's own tag, and for the window of that copy.
pub proof fn filtered_tags_are_undone(
    path: Seq<char>,
    name: Seq<char>,
    upstream: Seq<char>,
    window: u64,
    if_modified_since: Option<Seq<char>>,
)
    requires
        path != index::CONFIG_JSON_ENDPOINT@,
        index_entry::index_path_name(path) == Some(name),
        etag::is_strong(upstream),
    ensures
        index::request_of(path, Some(etag::filtered(upstream, window)), if_modified_since)
            == RequestView::Entry(
            EntryView { etag: Some(upstream), ..EntryView::bare(name) },
            Some(window),
        ),
{
    etag::strong_etags_are_recovered(upstream, window);
    etag::marked_etags_round_trip(upstream, window);
}

/// A response that tells the client to keep its copy.
pub open spec fn keeps_copy(step: StepView) -> bool {
    step matches StepView::Respond(r) && r.status == 304
}

/// At the start of a request a `304` is sent only if the cached entry is fresh
/// and equivalent to the client's, and the client's copy was filtered at the
/// window that is in force now.
pub proof fn warm_304_is_safe(
    config: ConfigView,
    entry: EntryView,
    window: Option<u64>,
    cached: Option<EntryView>,
    expired: bool,
    cutoff: Option<u64>,
)
    ensures
        keeps_copy(index_steps::lookup(config, entry, window, cached, expired, cutoff)) <==> cached
            is Some && !expired && window == config.window(cutoff) && cached->0.equivalent(entry),
{
}

/// After an answer of the upstream a `304` is sent only if the entry is
/// equivalent to the client's, and the client's copy was filtered at the
/// window that was in force at the start of the request.
pub proof fn fetched_304_is_safe(
    config: ConfigView,
    map: MetadataView,
    query: QueryView,
    entry: EntryView,
    status: u16,
    data: Seq<u8>,
    cutoff: Option<u64>,
)
    ensures
        keeps_copy(
            index_steps::settled(config, map, query, entry, status, data, cutoff).step,
        ) <==> status == 304 && query.window_ok && entry.equivalent(query.entry),
        keeps_copy(
            index_steps::after_write(config, map, query, entry, data, cutoff).step,
        ) <==> query.window_ok && entry.equivalent(query.entry),
{
}

/// A file that was read is never answered with a `304`.
pub proof fn files_are_served(query: QueryView, purpose: PurposeView, data: Option<Seq<u8>>)
    ensures
        !keeps_copy(index_steps::after_read(query, purpose, data)),
{
}

/// Changing the cooldown window invalidates every copy that a client has: a
/// copy that was filtered at another window, or not filtered, is not confirmed
/// at the start of a request, nor after an answer of the upstream.
pub proof fn changed_windows_invalidate_copies(
    config: ConfigView,
    entry: EntryView,
    window: Option<u64>,
    cached: Option<EntryView>,
    expired: bool,
    cutoff: Option<u64>,
)
    requires
        window != config.window(cutoff),
    ensures
        ({
            let step = index_steps::lookup(config, entry, window, cached, expired, cutoff);
            &&& !keeps_copy(step)
            &&& step matches StepView::Fetch { query, .. } ==> !query.window_ok
            &&& step matches StepView::ReadFile { query, .. } ==> !query.window_ok
            &&& step matches StepView::FindFile { query } ==> !query.window_ok
        }),
{
}

/// A client that revalidates an unchanged filtered copy, with the tag that it
/// was served with, is told to keep it, under the same tag.
pub proof fn unchanged_copies_are_kept(
    config: ConfigView,
    path: Seq<char>,
    cached: EntryView,
    upstream: Seq<char>,
    cutoff: u64,
)
    requires
        path != index::CONFIG_JSON_ENDPOINT@,
        index_entry::index_path_name(path) == Some(cached.name),
        cached.etag == Some(upstream),
        etag::is_strong(upstream),
    ensures
        ({
            let tag = etag::filtered(upstream, config.cooldown.secs());
            &&& index::request_of(path, Some(tag), None) matches RequestView::Entry(entry, window)
            &&& index_steps::lookup(config, entry, window, Some(cached), false, Some(cutoff))
                == StepView::Respond(
                ResponseView {
                    status: 304,
                    content_type: None,
                    etag: Some(tag),
                    last_modified: None,
                    body: seq![],
                },
            )
        }),
{
    filtered_tags_are_undone(path, cached.name, upstream, config.cooldown.secs(), None);
}

/// A filtered entry is never served under a validator of the upstream: its tag
/// is weak, and it has no modification time.
pub proof fn filtered_entries_have_their_own_validators(
    entry: EntryView,
    window: u64,
    data: Seq<u8>,
)
    ensures
        ({
            let r = index::index_view(entry, Some(window), data);
            &&& r.last_modified is None
            &&& r.etag is Some <==> entry.etag is Some
            &&& r.etag matches Some(tag) ==> tag.len() > 2 && tag[0] == 'W' && tag[1] == '/'
            &&& entry.etag is Some && etag::is_strong(entry.etag->0) ==> r.etag != entry.etag
        }),
{
    if entry.etag is Some {
        let e = entry.etag->0;
        let tag = etag::filtered(e, window);
        assert(tag[0] == 'W' && tag[1] == '/');
        if etag::is_strong(e) {
            assert(e[0] == '"');
        }
    }
}

// Failures.

/// When the upstream fails, a cached file is served in its place; without one
/// the failure is reported.
pub proof fn failures_fall_back_to_the_cached_file(
    query: QueryView,
    message: Seq<char>,
    data: Seq<u8>,
)
    ensures
        index_steps::after_read(query, PurposeView::Stale(message), Some(data))
            == (StepView::Serve { query, entry: query.entry, data }),
        index_steps::after_read(query, PurposeView::Stale(message), None) == StepView::Respond(
            response::json_view(502, response::json_error(message)),
        ),
{
}

/// What the upstream has sent or confirmed is remembered.
pub proof fn answers_are_remembered(
    config: ConfigView,
    map: MetadataView,
    query: QueryView,
    entry: EntryView,
    data: Seq<u8>,
    cutoff: Option<u64>,
)
    ensures
        index_steps::cached_entry(
            index_steps::settled(config, map, query, entry, 304, data, cutoff).metadata,
            entry.name,
        ) == Some(entry),
        index_steps::cached_entry(
            index_steps::after_write(config, map, query, entry, data, cutoff).metadata,
            entry.name,
        ) == Some(entry),
{
}

// Age-gating.

/// A crate that is exempt, or any crate without a cooldown, is served verbatim
/// with the validators of the upstream.
pub proof fn exempt_entries_are_served_verbatim(
    config: ConfigView,
    memo: MemoView,
    name: Seq<char>,
    entry: EntryView,
    data: Seq<u8>,
    cutoff: Option<u64>,
)
    requires
        config.exempt(name) || config.cooldown.secs() == 0,
        config.cutoff_possible(name, cutoff),
    ensures
        index_steps::served(config, memo, name, entry, data, cutoff) matches ServeView::Respond(r)
            && r.status == 200 && r.body == data && r.etag == entry.etag && r.last_modified
            == entry.last_modified(),
{
}

/// A body that is not in the memo is filtered at the cutoff.
pub proof fn other_entries_are_filtered(
    config: ConfigView,
    memo: MemoView,
    name: Seq<char>,
    entry: EntryView,
    data: Seq<u8>,
    cutoff: u64,
)
    requires
        memo::memo_hit(memo, name, index::validator(entry), cutoff / MEMO_BUCKET_SECS) is None,
    ensures
        index_steps::served(config, memo, name, entry, data, Some(cutoff)) == (ServeView::Filter {
            data,
            cutoff,
            name,
            entry,
            bucket: cutoff / MEMO_BUCKET_SECS,
        }),
{
}

/// Every memoized body is what filtering the contents that its validator
/// stands for gives, at a cutoff of its bucket. `source` tells the contents
/// that a crate has under a validator.
pub open spec fn memo_sound(
    memo: MemoView,
    source: spec_fn(Seq<char>, Seq<char>) -> Seq<u8>,
) -> bool {
    forall|name: Seq<char>| #[trigger]
        memo.contains_key(name) ==> exists|c: u64|
            filtered_at(memo[name].data, source(name, memo[name].validator), c)
                && #[trigger] in_bucket(c, memo[name].bucket)
}

/// `data` is `source` filtered at cutoff `c`.
pub open spec fn filtered_at(data: Seq<u8>, source: Seq<u8>, c: u64) -> bool {
    data == cooldown::gated_data(source, c)
}

/// Cutoff `c` falls into a bucket.
pub open spec fn in_bucket(c: u64, bucket: u64) -> bool {
    c / MEMO_BUCKET_SECS == bucket
}

/// An empty memo is sound, and putting a filtered body into the memo keeps it
/// sound.
pub proof fn memo_stays_sound(
    memo: MemoView,
    source: spec_fn(Seq<char>, Seq<char>) -> Seq<u8>,
    name: Seq<char>,
    entry: EntryView,
    cutoff: u64,
)
    requires
        memo_sound(memo, source),
    ensures
        memo_sound(Map::<Seq<char>, memo::MemoEntryView>::empty(), source),
        memo_sound(
            index_steps::memoized(
                memo,
                name,
                entry,
                cutoff / MEMO_BUCKET_SECS,
                cooldown::gated_data(source(name, index::validator(entry)), cutoff),
            ),
            source,
        ),
{
    let data = cooldown::gated_data(source(name, index::validator(entry)), cutoff);
    let bucket = cutoff / MEMO_BUCKET_SECS;
    let after = index_steps::memoized(memo, name, entry, bucket, data);
    assert forall|n: Seq<char>| #[trigger] after.contains_key(n) implies exists|c: u64|
        filtered_at(after[n].data, source(n, after[n].validator), c) && #[trigger] in_bucket(
            c,
            after[n].bucket,
        ) by {
        if n == name {
            assert(in_bucket(cutoff, after[n].bucket));
            assert(filtered_at(after[n].data, source(n, after[n].validator), cutoff));
        } else {
            assert(memo.contains_key(n));
            assert(after[n] == memo[n]);
        }
    }
}

/// What is served from a sound memo is filtered at a cutoff less than an hour
/// away from the present one.
pub proof fn memo_hits_are_filtered_within_the_hour(
    config: ConfigView,
    memo: MemoView,
    source: spec_fn(Seq<char>, Seq<char>) -> Seq<u8>,
    name: Seq<char>,
    entry: EntryView,
    data: Seq<u8>,
    cutoff: u64,
)
    requires
        memo_sound(memo, source),
    ensures
        index_steps::served(config, memo, name, entry, data, Some(cutoff))
            matches ServeView::Respond(r) ==> exists|c: u64| #[trigger]
            filtered_at(r.body, source(name, index::validator(entry)), c) && c < cutoff
                + MEMO_BUCKET_SECS && cutoff < c + MEMO_BUCKET_SECS,
{
    match index_steps::served(config, memo, name, entry, data, Some(cutoff)) {
        ServeView::Respond(r) => {
            assert(memo.contains_key(name));
            let c = choose|c: u64|
                filtered_at(memo[name].data, source(name, memo[name].validator), c)
                    && #[trigger] in_bucket(c, memo[name].bucket);
            memo::buckets_are_an_hour_wide(c, cutoff);
            assert(filtered_at(r.body, source(name, index::validator(entry)), c));
        },
        ServeView::Filter { .. } => {},
    }
}

/// A filtered text holds no line that was published after a cutoff that is not
/// before the one it was filtered at.
pub proof fn filtered_text_holds_no_newer_line(source: Seq<u8>, c: u64, limit: u64, line: Seq<char>)
    requires
        valid_utf8(source),
        c <= limit,
        lines::lines(decode_utf8(cooldown::gated_data(source, c))).contains(line),
    ensures
        !cooldown::too_new(line, limit),
{
    let body = decode_utf8(source);
    encode_utf8_decode_utf8(cooldown::gated(body, c));
    cooldown::only_too_new_lines_are_dropped(body, c, line);
}

/// The response that a client gets when an entry is served at a cutoff.
pub open spec fn served_response(
    config: ConfigView,
    memo: MemoView,
    name: Seq<char>,
    entry: EntryView,
    data: Seq<u8>,
    cutoff: u64,
) -> ResponseView {
    match index_steps::served(config, memo, name, entry, data, Some(cutoff)) {
        ServeView::Respond(r) => r,
        ServeView::Filter { .. } => index::index_view(
            entry,
            Some(config.cooldown.secs()),
            cooldown::gated_data(data, cutoff),
        ),
    }
}

/// No too-new version is served: with a sound memo, no line of a served body
/// was published an hour or more after the cutoff, and none at all after it
/// unless the body comes from the memo.
pub proof fn no_too_new_line_is_served(
    config: ConfigView,
    memo: MemoView,
    source: spec_fn(Seq<char>, Seq<char>) -> Seq<u8>,
    name: Seq<char>,
    entry: EntryView,
    data: Seq<u8>,
    cutoff: u64,
    limit: u64,
    line: Seq<char>,
)
    requires
        memo_sound(memo, source),
        data == source(name, index::validator(entry)),
        valid_utf8(data),
        limit >= cutoff + MEMO_BUCKET_SECS - 1,
        lines::lines(
            decode_utf8(served_response(config, memo, name, entry, data, cutoff).body),
        ).contains(line),
    ensures
        !cooldown::too_new(line, limit),
        memo::memo_hit(memo, name, index::validator(entry), cutoff / MEMO_BUCKET_SECS) is None
            ==> !cooldown::too_new(line, cutoff),
{
    match index_steps::served(config, memo, name, entry, data, Some(cutoff)) {
        ServeView::Respond(r) => {
            memo_hits_are_filtered_within_the_hour(
                config,
                memo,
                source,
                name,
                entry,
                data,
                cutoff,
            );
            let c = choose|c: u64| #[trigger]
                filtered_at(r.body, source(name, index::validator(entry)), c) && c < cutoff
                    + MEMO_BUCKET_SECS && cutoff < c + MEMO_BUCKET_SECS;
            filtered_text_holds_no_newer_line(data, c, limit, line);
        },
        ServeView::Filter { .. } => {
            filtered_text_holds_no_newer_line(data, cutoff, limit, line);
            filtered_text_holds_no_newer_line(data, cutoff, cutoff, line);
        },
    }
}

// Progress.

/// The number of operations that a request can still need, at most, before it
/// is answered or served.
pub open spec fn operations_left(step: StepView) -> nat {
    match step {
        StepView::ConfigJson => 0,
        StepView::Respond(_) => 0,
        StepView::Serve { .. } => 0,
        StepView::WriteFile { .. } => 1,
        StepView::ReadFile { purpose, .. } => match purpose {
            PurposeView::Warm(_) => 4,
            PurposeView::Stale(_) => 1,
            PurposeView::Revalidated(_) => 1,
        },
        StepView::Fetch { .. } => 2,
        StepView::FindFile { .. } => 3,
    }
}

/// Every request comes to an end: it needs four operations at most, and each
/// of them leaves fewer to come, whatever its outcome.
pub proof fn requests_come_to_an_end(
    config: ConfigView,
    map: MetadataView,
    query: QueryView,
    purpose: PurposeView,
    asked: EntryView,
    entry: EntryView,
    status: u16,
    data: Seq<u8>,
    file: Option<Seq<u8>>,
    message: Seq<char>,
    cutoff: Option<u64>,
    step: StepView,
)
    ensures
        operations_left(step) <= 4,
        operations_left(index_steps::after_read(query, purpose, file)) < operations_left(
            StepView::ReadFile { query, purpose },
        ),
        operations_left(StepView::Fetch { query, asked }) < operations_left(
            StepView::FindFile { query },
        ),
        operations_left(
            index_steps::settled(config, map, query, entry, status, data, cutoff).step,
        ) < operations_left(StepView::Fetch { query, asked }),
        operations_left(
            StepView::ReadFile { query, purpose: PurposeView::Stale(message) },
        ) < operations_left(StepView::Fetch { query, asked }),
        operations_left(
            index_steps::after_write(config, map, query, entry, data, cutoff).step,
        ) < operations_left(StepView::WriteFile { query, entry, data }),
{
}

// Outcomes.

/// An unfiltered entry is served with the validators of the upstream, a
/// filtered one with a weak tag of its own; a `304` has the same validators and
/// neither type nor body.
pub proof fn index_responses_are_spelled_out(entry: EntryView, secs: u64, data: Seq<u8>)
    ensures
        ({
            let tag = match entry.etag {
                Some(e) => Some(
                    "W/\""@ + etag::inner(e) + ".cd"@ + text::decimal(secs as nat) + "\""@,
                ),
                None => None,
            };
            &&& index::index_view(entry, None, data) == (ResponseView {
                status: 200,
                content_type: Some("text/plain"@),
                etag: entry.etag,
                last_modified: entry.last_modified(),
                body: data,
            })
            &&& index::index_view(entry, Some(secs), data) == (ResponseView {
                status: 200,
                content_type: Some("text/plain"@),
                etag: tag,
                last_modified: None,
                body: data,
            })
            &&& index::not_modified_view(entry, None) == (ResponseView {
                status: 304,
                content_type: None,
                etag: entry.etag,
                last_modified: entry.last_modified(),
                body: Seq::empty(),
            })
            &&& index::not_modified_view(entry, Some(secs)) == (ResponseView {
                status: 304,
                content_type: None,
                etag: tag,
                last_modified: None,
                body: Seq::empty(),
            })
        }),
{
    if entry.etag is Some {
        etag::filtered_tags_are_spelled_out(entry.etag->0, secs);
    }
}

/// The contents of an entry are told apart by its tag, or else by its date.
pub proof fn contents_are_told_apart_by_validators(entry: EntryView)
    ensures
        entry.etag is Some ==> index::validator(entry) == entry.etag->0,
        entry.etag is None && entry.mtime is Some ==> Some(index::validator(entry))
            == entry.last_modified(),
        entry.etag is None && entry.mtime is None ==> index::validator(entry)
            == Seq::<char>::empty(),
{
}

/// What a path and its headers ask for: `config.json` is the configuration
/// file whatever the headers are, a path without a crate is malformed, and a
/// tag wins over a date.
pub proof fn requests_are_read(
    path: Seq<char>,
    name: Seq<char>,
    tag: Option<Seq<char>>,
    date: Option<Seq<char>>,
)
    ensures
        index::request_of("config.json"@, tag, date) == RequestView::ConfigJson,
        path != "config.json"@ && index_entry::index_path_name(path) is None ==> index::request_of(
            path,
            tag,
            date,
        ) == RequestView::Malformed,
        path != "config.json"@ && index_entry::index_path_name(path) == Some(name) ==> {
            let asked = index::request_of(path, tag, date);
            &&& tag is Some ==> asked == RequestView::Entry(
                EntryView {
                    name,
                    etag: Some(etag::unmarked(tag->0)),
                    mtime: None,
                    atime: None,
                },
                etag::window(tag->0),
            )
            &&& tag is None && date is Some ==> asked == RequestView::Entry(
                EntryView { name, etag: None, mtime: None, atime: None }.with_last_modified(
                    date->0,
                ),
                None,
            )
            &&& tag is None && date is None ==> asked == RequestView::Entry(
                EntryView { name, etag: None, mtime: None, atime: None },
                None,
            )
        },
{
}

/// The four ways in which a request for an entry starts. The client's copy
/// counts only if it was filtered at the window in force, or neither is
/// filtered.
pub proof fn requests_start_in_one_of_four_ways(
    config: ConfigView,
    entry: EntryView,
    window: Option<u64>,
    cached: EntryView,
    elapsed: Duration,
    cutoff: Option<u64>,
)
    ensures
        ({
            let served = if cutoff is Some {
                Some(config.cooldown.secs())
            } else {
                None
            };
            let window_ok = window == served;
            let query = QueryView { entry, window_ok };
            let expired = cached.atime is Some && elapsed.total_nanos()
                > config.cache_ttl.total_nanos();
            let known = index_steps::lookup_after(
                config,
                entry,
                window,
                Some(cached),
                elapsed,
                cutoff,
            );
            let unknown = index_steps::lookup_after(config, entry, window, None, elapsed, cutoff);
            &&& unknown == (StepView::FindFile { query })
            &&& expired ==> known == (StepView::Fetch { query, asked: cached })
            &&& !expired && window_ok && cached.equivalent(entry) ==> known == StepView::Respond(
                index::not_modified_view(cached, served),
            )
            &&& !expired && !(window_ok && cached.equivalent(entry)) ==> known
                == (StepView::ReadFile { query, purpose: PurposeView::Warm(cached) })
        }),
{
}

/// What comes after a cached file was read for each purpose, or not found.
pub proof fn read_files_are_used(
    query: QueryView,
    entry: EntryView,
    message: Seq<char>,
    data: Seq<u8>,
)
    ensures
        index_steps::after_read(query, PurposeView::Warm(entry), Some(data)) == (StepView::Serve {
            query,
            entry,
            data,
        }),
        index_steps::after_read(query, PurposeView::Warm(entry), None) == (StepView::FindFile {
            query,
        }),
        index_steps::after_read(query, PurposeView::Revalidated(entry), Some(data))
            == (StepView::Serve { query, entry, data }),
        index_steps::after_read(query, PurposeView::Revalidated(entry), None)
            == StepView::Respond(response::error_view(503)),
        index_steps::after_read(query, PurposeView::Stale(message), Some(data))
            == (StepView::Serve { query, entry: query.entry, data }),
{
}

/// The upstream is asked with the time of the cached file, or, without one,
/// with the validators of the client; with a tag before a date, and never for a
/// compressed body.
pub proof fn the_upstream_is_asked_conditionally(
    query: QueryView,
    time: (int, int),
    url: Seq<char>,
    asked: EntryView,
)
    ensures
        index_steps::asked_entry(query, Some(time)) == (EntryView {
            name: query.entry.name,
            etag: None,
            mtime: Some(time),
            atime: None,
        }),
        index_steps::asked_entry(query, None) == query.entry,
        index_steps::upstream_request(url, asked).url == url,
        index_steps::upstream_request(url, asked).accept_encoding == Some("identity"@),
        index_steps::upstream_request(url, asked).if_none_match == asked.etag,
        asked.etag is Some ==> index_steps::upstream_request(url, asked).if_modified_since is None,
        asked.etag is None ==> index_steps::upstream_request(url, asked).if_modified_since
            == asked.last_modified(),
{
}

/// The validators of an answer replace those of the entry, each where the
/// answer has it; the name stays.
pub proof fn answers_update_validators(
    entry: EntryView,
    tag: Option<Seq<char>>,
    date: Option<Seq<char>>,
    checked: std::time::Instant,
)
    ensures
        ({
            let r = index_steps::checked_entry(entry, tag, date, checked);
            &&& r.name == entry.name
            &&& r.atime == Some(checked)
            &&& tag is Some ==> r.etag == tag
            &&& tag is None ==> r.etag == entry.etag
            &&& date is Some ==> r.mtime == entry.with_last_modified(date->0).mtime
            &&& date is None ==> r.mtime == entry.mtime
        }),
{
}

/// What comes after an answer of the upstream: a new file is stored and
/// nothing remembered yet; a confirmed one is remembered, and the client told
/// so or served; any other status is forwarded and nothing remembered.
pub proof fn answers_are_settled(
    config: ConfigView,
    map: MetadataView,
    query: QueryView,
    entry: EntryView,
    status: u16,
    data: Seq<u8>,
    cutoff: Option<u64>,
)
    ensures
        ({
            let new = index_steps::settled(config, map, query, entry, 200, data, cutoff);
            let same = index_steps::settled(config, map, query, entry, 304, data, cutoff);
            let other = index_steps::settled(config, map, query, entry, status, data, cutoff);
            let written = index_steps::after_write(config, map, query, entry, data, cutoff);
            let served = if cutoff is Some {
                Some(config.cooldown.secs())
            } else {
                None
            };
            let kept = query.window_ok && entry.equivalent(query.entry);
            &&& new.step == (StepView::WriteFile { query, entry, data })
            &&& new.metadata == map
            &&& kept ==> same.step == StepView::Respond(index::not_modified_view(entry, served))
            &&& !kept ==> same.step == (StepView::ReadFile {
                query,
                purpose: PurposeView::Revalidated(entry),
            })
            &&& kept ==> written.step == StepView::Respond(index::not_modified_view(entry, served))
            &&& !kept ==> written.step == (StepView::Serve { query, entry, data })
            &&& same.metadata == written.metadata
            &&& same.metadata.contains_key(entry.name) && same.metadata[entry.name] == entry
            &&& map.len() < 8192 ==> same.metadata == map.insert(entry.name, entry)
            &&& status != 200 && status != 304 ==> other.metadata == map && other.step
                == StepView::Respond(response::json_view(status, text::lossy_text(data)))
        }),
{
}

/// Forwarded answers keep their status and their bytes.
pub proof fn forwarded_answers_are_verbatim(step: StepView, status: u16, data: Seq<u8>)
    requires
        index_steps::forwards_verbatim(step, status, data),
        status != 200,
        status != 304,
        valid_utf8(data),
    ensures
        step is Respond,
        step->Respond_0.status == status,
        step->Respond_0.body == data,
        step->Respond_0.content_type == Some("application/json; charset=utf-8"@),
{
}

/// How an entry is served: without a cutoff verbatim; with one, a body that is
/// in the memo for the same contents and the same hour, under the window's
/// tag; else the body is filtered at that very cutoff.
pub proof fn entries_are_served_at_their_cutoff(
    config: ConfigView,
    memo: MemoView,
    name: Seq<char>,
    entry: EntryView,
    data: Seq<u8>,
    cutoff: u64,
)
    ensures
        ({
            let plain = index_steps::served(config, memo, name, entry, data, None);
            let gated = index_steps::served(config, memo, name, entry, data, Some(cutoff));
            let hit = memo.contains_key(name) && memo[name].validator == index::validator(entry)
                && memo[name].bucket == cutoff / 3600;
            &&& plain == ServeView::Respond(index::index_view(entry, None, data))
            &&& hit ==> gated == ServeView::Respond(
                index::index_view(entry, Some(config.cooldown.secs()), memo[name].data),
            )
            &&& !hit ==> gated == (ServeView::Filter {
                data,
                cutoff,
                name,
                entry,
                bucket: cutoff / 3600,
            })
        }),
{
}

/// A body that was filtered for a cutoff is served again for every cutoff of
/// the same hour, while the contents are the same.
pub proof fn filtered_bodies_are_served_again(
    config: ConfigView,
    memo: MemoView,
    name: Seq<char>,
    entry: EntryView,
    data: Seq<u8>,
    filtered: Seq<u8>,
    first: u64,
    second: u64,
)
    ensures
        ({
            let later = index_steps::memoized(memo, name, entry, first / 3600, filtered);
            let step = index_steps::served(config, later, name, entry, data, Some(second));
            if first / 3600 == second / 3600 {
                step == ServeView::Respond(
                    index::index_view(entry, Some(config.cooldown.secs()), filtered),
                )
            } else {
                step == (ServeView::Filter {
                    data,
                    cutoff: second,
                    name,
                    entry,
                    bucket: second / 3600,
                })
            }
        }),
{
}

/// The registry configuration, spelled out for URLs with any number of slashes
/// at their ends.
pub proof fn config_json_is_spelled_out(dl: Seq<char>, api: Seq<char>, n: nat, m: nat)
    requires
        dl.len() > 0 ==> dl.last() != '/',
        api.len() > 0 ==> api.last() != '/',
    ensures
        index::config_json(
            dl + Seq::new(n, |i: int| '/'),
            api + Seq::new(m, |i: int| '/'),
        ) == "{\"dl\":\""@ + dl + "\",\"api\":\""@ + api + "\"}"@,
        index::download_api_url(dl + Seq::new(n, |i: int| '/')) == dl + "/api/v1/crates"@,
{
    text::runs_are_taken_off(dl, '/', n);
    text::runs_are_taken_off(api, '/', m);
}

/// An entry that is served at a time that was read off the clock is filtered
/// at the cutoff of that reading: with a window, a crate that is not exempt,
/// and nothing in the memo, one window before it. Without a time on the clock
/// it is served verbatim.
pub proof fn entries_are_served_at_the_cutoff_of_the_clock(
    config: ConfigView,
    memo: MemoView,
    name: Seq<char>,
    entry: EntryView,
    data: Seq<u8>,
    cutoff: Option<u64>,
)
    requires
        config.cutoff_read(name, cutoff),
        config.cooldown.secs() > 0,
        !config.overrides.contains(text::lowered(name)),
        !memo.contains_key(name),
    ensures
        exists|now: Option<u64>| #[trigger]
            time::clock_reads(now) && match now {
                Some(secs) => index_steps::served(config, memo, name, entry, data, cutoff)
                    matches ServeView::Filter { data: d, cutoff: c, .. } && d == data && c == (
                if secs >= config.cooldown.secs() {
                    secs - config.cooldown.secs()
                } else {
                    0
                }),
                None => index_steps::served(config, memo, name, entry, data, cutoff)
                    == ServeView::Respond(index::index_view(entry, None, data)),
            },
{
    config::read_cutoffs_are_one_window_back(config, name, cutoff);
}

/// Steps, requests and purposes show what they hold: the entries, the data and
/// the cutoffs of their views are their own.
pub proof fn index_steps_show_what_they_hold(
    response: Response,
    read: IndexRead,
    query: IndexQuery,
    fetch: IndexFetch,
    write: IndexWrite,
    serve: IndexServe,
    entry: IndexEntry,
    message: String,
    window: Option<u64>,
    job: FilterJob,
    ticket: FilterTicket,
)
    ensures
        IndexStep::ConfigJson@ == StepView::ConfigJson,
        IndexStep::Respond(response)@ == StepView::Respond(response@),
        IndexStep::ReadFile(read)@ == (StepView::ReadFile {
            query: read.query@,
            purpose: read.purpose@,
        }),
        IndexStep::FindFile(query)@ == (StepView::FindFile { query: query@ }),
        IndexStep::Fetch(fetch)@ == (StepView::Fetch {
            query: fetch.query()@,
            asked: fetch.asked(),
        }),
        IndexStep::WriteFile(write)@ == (StepView::WriteFile {
            query: write.query()@,
            entry: write.stored(),
            data: write.contents(),
        }),
        IndexStep::Serve(serve)@ == (StepView::Serve {
            query: serve.query@,
            entry: serve.entry@,
            data: serve.data@,
        }),
        ReadPurpose::Warm(entry)@ == PurposeView::Warm(entry@),
        ReadPurpose::Stale(message)@ == PurposeView::Stale(message@),
        ReadPurpose::Revalidated(entry)@ == PurposeView::Revalidated(entry@),
        IndexRequest::ConfigJson@ == RequestView::ConfigJson,
        IndexRequest::Malformed@ == RequestView::Malformed,
        IndexRequest::Entry(entry, window)@ == RequestView::Entry(entry@, window),
        ServeStep::Respond(response)@ == ServeView::Respond(response@),
        ServeStep::Filter(job, ticket)@ == (ServeView::Filter {
            data: job.data@,
            cutoff: job.cutoff,
            name: ticket.name@,
            entry: ticket.entry@,
            bucket: ticket.bucket,
        }),
{
}

/// Responses and upstream requests show their headers and their bodies as they
/// are.
pub proof fn messages_show_what_they_hold(
    response: Response,
    request: UpstreamRequest,
    t: String,
    data: Bytes,
)
    ensures
        response@.status == response.status,
        response@.content_type is Some <==> response.content_type is Some,
        response.content_type is Some ==> response@.content_type->0 == (response.content_type->0)@,
        response@.etag is Some <==> response.etag is Some,
        response.etag is Some ==> response@.etag->0 == (response.etag->0)@,
        response@.last_modified is Some <==> response.last_modified is Some,
        response.last_modified is Some ==> response@.last_modified->0 == (
        response.last_modified->0)@,
        response@.body == response.body.bytes(),
        Body::Empty.bytes() == Seq::<u8>::empty(),
        Body::Text(t).bytes() == encode_utf8(t@),
        Body::Data(data).bytes() == body::content(data),
        request@.url == request.url@,
        request@.accept_encoding is Some <==> request.accept_encoding is Some,
        request.accept_encoding is Some ==> request@.accept_encoding->0 == (
        request.accept_encoding->0)@,
        request@.if_none_match is Some <==> request.if_none_match is Some,
        request.if_none_match is Some ==> request@.if_none_match->0 == (request.if_none_match->0)@,
        request@.if_modified_since is Some <==> request.if_modified_since is Some,
        request.if_modified_since is Some ==> request@.if_modified_since->0 == (
        request.if_modified_since->0)@,
{
}

/// What there is of an optional file, time or entry is all of it.
pub proof fn optional_values_are_whole(
    data: Vec<u8>,
    time: Timestamp,
    entry: IndexEntry,
    map: MetadataView,
    name: Seq<char>,
)
    ensures
        index_steps::opt_bytes(Some(data)) == Some(data@),
        index_steps::opt_bytes(None) is None,
        index_steps::opt_time(Some(time)) == Some((time.secs() as int, time.nanos() as int)),
        index_steps::opt_time(None) is None,
        index_steps::opt_entry(Some(entry)) == Some(entry@),
        index_steps::opt_entry(None) is None,
        map.contains_key(name) ==> index_steps::cached_entry(map, name) == Some(map[name]),
        !map.contains_key(name) ==> index_steps::cached_entry(map, name) is None,
{
}

/// The age of a cached entry that was checked is read off the clock, and a
/// request that starts at that age refreshes the entry if and only if the age
/// is above the configured Time-to-Live.
pub proof fn entries_are_refreshed_at_their_read_age(
    config: ConfigView,
    entry: EntryView,
    window: Option<u64>,
    cached: EntryView,
    elapsed: Duration,
    cutoff: Option<u64>,
)
    requires
        index_steps::check_age_read(Some(cached), elapsed),
        cached.atime is Some,
    ensures
        time::elapsed_reads(cached.atime->0, elapsed),
        index_steps::lookup_after(config, entry, window, Some(cached), elapsed, cutoff) is Fetch
            <==> elapsed.total_nanos() > config.cache_ttl.total_nanos(),
{
}

} // verus!
