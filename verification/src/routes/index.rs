//! `GET /index/<path>` — proxied, cached, age-gated sparse-index entries.

use vstd::prelude::*;

use crate::address;
use crate::cache::index_entry;
use crate::cache::index_entry::{EntryView, IndexEntry};
use crate::config::config::Config;
use crate::constants::{CRATES_API_PATH, INDEX_CTYPE};
use crate::http::response::{Body, Response, ResponseView};
use crate::routes::etag;
use crate::routes::etag::{etag_window, filtered_etag, unmark_etag};
use crate::text;
use crate::text::{from_chars, same_text, strip_end, to_chars};
use crate::valid;

verus! {

// The registry configuration file.

/// Registry configuration file endpoint path (at the sparse-index root).
pub const CONFIG_JSON_ENDPOINT: &'static str = "config.json";

/// Checks for the registry configuration file download endpoint.
pub fn is_config_json_url(index_url: &str) -> (r: bool)
    ensures
        r == (index_url@ == CONFIG_JSON_ENDPOINT@),
{
    same_text(index_url, CONFIG_JSON_ENDPOINT)
}

/// The registry `config.json` for a download and an API URL. Cargo can not
/// handle trailing slashes in it.
pub open spec fn config_json(dl: Seq<char>, api: Seq<char>) -> Seq<char> {
    "{\"dl\":\""@ + text::without_end(dl, '/') + "\",\"api\":\""@ + text::without_end(api, '/')
        + "\"}"@
}

/// Formats the registry `config.json`.
pub fn format_config_json(dl_url: &str, api_url: &str) -> (r: String)
    ensures
        r@ == config_json(dl_url@, api_url@),
{
    let dl_chars = to_chars(dl_url);
    let api_chars = to_chars(api_url);
    let dl = from_chars(strip_end(dl_chars.as_slice(), '/'));
    let api = from_chars(strip_end(api_chars.as_slice(), '/'));
    let mut out = "{\"dl\":\"".to_owned();
    out.append(dl.as_str());
    out.append("\",\"api\":\"");
    out.append(api.as_str());
    out.append("\"}");
    out
}

/// The crate download API URL below the URL of a proxy server.
pub open spec fn download_api_url(proxy: Seq<char>) -> Seq<char> {
    text::without_end(proxy, '/') + "/api/v1/crates"@
}

/// Formats the registry `config.json` of a proxy server: crate downloads go to
/// the download API below the URL of the proxy, wherever that URL points.
pub fn proxy_config_json(proxy_url: &str, api_url: &str) -> (r: String)
    ensures
        r@ == config_json(download_api_url(proxy_url@), api_url@),
{
    let chars = to_chars(proxy_url);
    let mut dl_url = from_chars(strip_end(chars.as_slice(), '/'));
    dl_url.append("/api/v1/crates");
    format_config_json(dl_url.as_str(), api_url)
}

/// Dynamically generates the registry `config.json`, pointing crate downloads
/// at this proxy server. There is none if the proxy server URL cannot be a
/// base URL.
pub fn gen_config_json_file(config: &Config) -> (r: Option<String>)
    ensures
        match address::joined_url(config@.proxy_url, CRATES_API_PATH@) {
            Some(_) => r is Some && (r->0)@ == config_json(
                download_api_url(config@.proxy_url),
                config@.upstream_url,
            ),
            None => r is None,
        },
{
    match config.proxy_url().join(CRATES_API_PATH) {
        Some(_) => Some(
            proxy_config_json(config.proxy_url().as_str(), config.upstream_url().as_str()),
        ),
        None => None,
    }
}

// Responses.

/// The `ETag` and `Last-Modified` headers of an index response. A filtered
/// entry has a weak, cooldown-tagged ETag and no `Last-Modified` (the filtered
/// representation is time-dependent); any other has the validators of the
/// upstream verbatim.
pub open spec fn index_validators(entry: EntryView, filtered_secs: Option<u64>) -> (
    Option<Seq<char>>,
    Option<Seq<char>>,
) {
    match filtered_secs {
        Some(secs) => (
            match entry.etag {
                Some(e) => Some(etag::filtered(e, secs)),
                None => None,
            },
            None,
        ),
        None => (entry.etag, entry.last_modified()),
    }
}

/// An index `304 Not Modified` response.
pub open spec fn not_modified_view(entry: EntryView, filtered_secs: Option<u64>) -> ResponseView {
    let (etag, last_modified) = index_validators(entry, filtered_secs);
    ResponseView { status: 304, content_type: None, etag, last_modified, body: seq![] }
}

/// An index `200 OK` response.
pub open spec fn index_view(
    entry: EntryView,
    filtered_secs: Option<u64>,
    data: Seq<u8>,
) -> ResponseView {
    let (etag, last_modified) = index_validators(entry, filtered_secs);
    ResponseView {
        status: 200,
        content_type: Some(INDEX_CTYPE@),
        etag,
        last_modified,
        body: data,
    }
}

/// Builds an index response with the cooldown-aware cache validators.
pub fn with_index_validators(
    status: u16,
    content_type: Option<&'static str>,
    body: Body,
    entry: &IndexEntry,
    filtered_secs: Option<u64>,
) -> (r: Response)
    ensures
        r@ == (ResponseView {
            status,
            content_type: text::opt_str(content_type),
            etag: index_validators(entry@, filtered_secs).0,
            last_modified: index_validators(entry@, filtered_secs).1,
            body: body.bytes(),
        }),
{
    match filtered_secs {
        Some(secs) => {
            let etag = match entry.etag() {
                Some(e) => Some(filtered_etag(e, secs)),
                None => None,
            };
            Response { status, content_type, etag, last_modified: None, body }
        },
        None => {
            let etag = match entry.etag() {
                Some(e) => Some(e.to_owned()),
                None => None,
            };
            Response { status, content_type, etag, last_modified: entry.last_modified(), body }
        },
    }
}

/// Builds an index `304 Not Modified` response (no body).
pub fn index_not_modified(entry: &IndexEntry, window: Option<u64>) -> (r: Response)
    ensures
        r@ == not_modified_view(entry@, window),
{
    with_index_validators(304, None, Body::Empty, entry, window)
}

/// The source-content validator used as a memo key and for the weak ETag.
pub open spec fn validator(entry: EntryView) -> Seq<char> {
    match entry.etag {
        Some(e) => e,
        None => match entry.last_modified() {
            Some(date) => date,
            None => seq![],
        },
    }
}

/// Gets the source-content validator of an entry.
pub fn entry_validator(entry: &IndexEntry) -> (r: String)
    ensures
        r@ == validator(entry@),
{
    match entry.etag() {
        Some(e) => e.to_owned(),
        None => match entry.last_modified() {
            Some(date) => date,
            None => String::new(),
        },
    }
}

/// The cooldown window (seconds) this crate is served under right now, or
/// `None` when it is served unfiltered (cooldown off, or crate overridden).
/// The time is read off the clock.
pub fn serve_window(config: &Config, name: &str) -> (r: Option<u64>)
    ensures
        exists|cutoff: Option<u64>|
            config@.cutoff_possible(name@, cutoff) && config@.cutoff_read(name@, cutoff)
                && r == config@.window(cutoff),
        config@.exempt(name@) || config@.cooldown.secs() == 0 ==> r is None,
{
    let cutoff = config.cutoff_for(name);
    config.window(cutoff)
}

// Requests.

/// What an index path and its conditional headers ask for.
pub enum IndexRequest {
    /// The registry configuration file.
    ConfigJson,
    /// Nothing that the registry has.
    Malformed,
    /// An index entry: the entry, with the validators of the copy that the
    /// client has, and the cooldown window that this copy was filtered for.
    Entry(IndexEntry, Option<u64>),
}

/// What an index request asks for.
pub enum RequestView {
    /// The registry configuration file.
    ConfigJson,
    /// Nothing that the registry has.
    Malformed,
    /// An index entry.
    Entry(EntryView, Option<u64>),
}

impl View for IndexRequest {
    type V = RequestView;

    open spec fn view(&self) -> RequestView {
        match *self {
            IndexRequest::ConfigJson => RequestView::ConfigJson,
            IndexRequest::Malformed => RequestView::Malformed,
            IndexRequest::Entry(entry, window) => RequestView::Entry(entry@, window),
        }
    }
}

/// What an index request asks for. An `If-None-Match` header wins over an
/// `If-Modified-Since` header.
pub open spec fn request_of(
    path: Seq<char>,
    if_none_match: Option<Seq<char>>,
    if_modified_since: Option<Seq<char>>,
) -> RequestView {
    if path == CONFIG_JSON_ENDPOINT@ {
        RequestView::ConfigJson
    } else {
        match index_entry::index_path_name(path) {
            None => RequestView::Malformed,
            Some(name) => {
                let bare = EntryView::bare(name);
                match (if_none_match, if_modified_since) {
                    (Some(tag), _) => RequestView::Entry(
                        EntryView { etag: Some(etag::unmarked(tag)), ..bare },
                        etag::window(tag),
                    ),
                    (None, Some(date)) => RequestView::Entry(bare.with_last_modified(date), None),
                    (None, None) => RequestView::Entry(bare, None),
                }
            },
        }
    }
}

/// Reads an index request.
///
/// The client's cooldown ETag marker is undone so the upstream conditional GET
/// uses the real validator. The marker's window is remembered: a `304` is only
/// safe if it matches the window we serve at now (so enabling/changing cooldown
/// invalidates stale client copies).
pub fn index_request(
    path: &str,
    if_none_match: Option<&str>,
    if_modified_since: Option<&str>,
) -> (r: IndexRequest)
    ensures
        r@ == request_of(path@, text::opt_str(if_none_match), text::opt_str(if_modified_since)),
        r matches IndexRequest::Entry(entry, _) ==> valid::crate_name(entry@.name),
{
    if is_config_json_url(path) {
        return IndexRequest::ConfigJson;
    }
    let mut entry = match IndexEntry::try_from_index_url(path) {
        Some(entry) => entry,
        None => {
            return IndexRequest::Malformed;
        },
    };
    let mut window: Option<u64> = None;
    if let Some(tag) = if_none_match {
        let upstream = unmark_etag(tag);
        entry.set_etag(upstream.as_str());
        window = etag_window(tag);
    } else if let Some(date) = if_modified_since {
        entry.set_last_modified(date);
    }
    IndexRequest::Entry(entry, window)
}

} // verus!
