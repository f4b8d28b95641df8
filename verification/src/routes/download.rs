//! `GET /api/v1/crates/<path>` — proxied, cached crate files.
//!
//! The server performs the file and network operations; this module decides
//! which one comes next. A request starts with [`handle_download`]. Each
//! [`DownloadStep`] that comes back names an operation, and the function to
//! call with its outcome:
//!
//! - [`DownloadStep::ReadIndex`]: read the cached index file of the crate, then
//!   [`index_read`];
//! - [`DownloadStep::ReadCrate`]: read the cached crate file, then
//!   [`crate_read`];
//! - [`DownloadStep::Fetch`]: ask the upstream download server, then
//!   [`crate_fetched`];
//! - [`DownloadStep::StoreCrate`]: store the crate file, then
//!   [`crate_stored`].

use vstd::prelude::*;
use vstd::utf8::*;

use crate::address;
use crate::cache::crate_info;
use crate::cache::crate_info::{CrateInfo, CrateView};
use crate::cache::index_entry;
use crate::cache::index_entry::IndexEntry;
use crate::config::config;
use crate::config::config::{Config, ConfigView};
use crate::constants::CRATES_API_PATH;
use crate::cooldown;
use crate::cooldown::version_pubtime;
use crate::http::body::bytes_from_vec;
use crate::http::fetch::FetchError;
use crate::http::response;
use crate::http::response::{
    crate_response, error_response, format_json_error, json_response, Response, ResponseView,
};
use crate::routes::index_steps;
use crate::routes::index_steps::{UpstreamRequest, UpstreamView};
use crate::text;
use crate::text::utf8_text;
use crate::time;
use crate::time::read_clock;
use crate::valid;

verus! {

/// A download that waits for the publication time of its version.
pub struct GateCheck {
    info: CrateInfo,
    cutoff: u64,
}

impl GateCheck {
    #[verifier::type_invariant]
    spec fn inv(self) -> bool {
        valid::crate_name(self.info@.name)
    }

    /// The crate to download.
    pub closed spec fn info(self) -> CrateView {
        self.info@
    }

    /// The cutoff (unix seconds).
    pub closed spec fn cutoff(self) -> u64 {
        self.cutoff
    }

    /// Gets the crate to download.
    pub fn crate_info(&self) -> (r: &CrateInfo)
        ensures
            r@ == self.info(),
    {
        &self.info
    }

    /// Gets the path of the cached index file in the index directory.
    pub fn index_path(&self) -> (r: String)
        ensures
            r@ == index_entry::index_url(self.info().name),
    {
        proof {
            use_type_invariant(self);
            index_entry::crate_names_have_index_urls(self.info@.name);
        }
        IndexEntry::new(self.info.name()).to_file_path()
    }
}

/// What comes next in a download request.
pub enum DownloadStep {
    /// Answer with this response.
    Respond(Response),
    /// Read the cached index file of the crate.
    ReadIndex(GateCheck),
    /// Read the cached crate file.
    ReadCrate(CrateInfo),
    /// Ask the upstream download server.
    Fetch(CrateInfo),
    /// Store the crate file.
    StoreCrate(CrateInfo, Vec<u8>),
}

/// What comes next in a download request.
pub enum DownloadView {
    /// Answer with a response.
    Respond(ResponseView),
    /// Read the cached index file of the crate.
    ReadIndex(CrateView, u64),
    /// Read the cached crate file.
    ReadCrate(CrateView),
    /// Ask the upstream download server.
    Fetch(CrateView),
    /// Store the crate file.
    StoreCrate(CrateView, Seq<u8>),
}

impl View for DownloadStep {
    type V = DownloadView;

    open spec fn view(&self) -> DownloadView {
        match *self {
            DownloadStep::Respond(r) => DownloadView::Respond(r@),
            DownloadStep::ReadIndex(check) => DownloadView::ReadIndex(check.info(), check.cutoff()),
            DownloadStep::ReadCrate(info) => DownloadView::ReadCrate(info@),
            DownloadStep::Fetch(info) => DownloadView::Fetch(info@),
            DownloadStep::StoreCrate(info, data) => DownloadView::StoreCrate(info@, data@),
        }
    }
}

/// What comes first in a download: if downloads are restricted and the crate is
/// subject to cooldown, the publication time is looked up.
pub open spec fn gate(config: ConfigView, info: CrateView, cutoff: Option<u64>) -> DownloadView {
    match cutoff {
        Some(c) => if config.restrict_downloads {
            DownloadView::ReadIndex(info, c)
        } else {
            DownloadView::ReadCrate(info)
        },
        None => DownloadView::ReadCrate(info),
    }
}

/// Decides what comes first in a download, given the cutoff of the crate.
pub fn gate_at(config: &Config, info: CrateInfo, cutoff: Option<u64>) -> (r: DownloadStep)
    requires
        valid::crate_name(info@.name),
    ensures
        r@ == gate(config@, info@, cutoff),
{
    match cutoff {
        Some(cutoff) => {
            if config.restrict_downloads() {
                DownloadStep::ReadIndex(GateCheck { info, cutoff })
            } else {
                DownloadStep::ReadCrate(info)
            }
        },
        None => DownloadStep::ReadCrate(info),
    }
}

/// Handles a crate download request: `GET /api/v1/crates/<path>`, up to the
/// first operation, given the seconds on the clock.
pub fn handle_download_at(config: &Config, path: &str, now: Option<u64>) -> (r: DownloadStep)
    ensures
        r@ == (match crate_info::download_path_crate(path@) {
            Some(info) => gate(config@, info, config@.cutoff_at(info.name, now)),
            None => DownloadView::Respond(response::error_view(404)),
        }),
{
    match CrateInfo::try_from_download_url(path) {
        Some(info) => {
            let cutoff = config.cutoff_at(info.name(), now);
            gate_at(config, info, cutoff)
        },
        None => DownloadStep::Respond(error_response(404)),
    }
}

/// Handles a crate download request: `GET /api/v1/crates/<path>`, up to the
/// first operation. The time is read off the clock.
pub fn handle_download(config: &Config, path: &str) -> (r: DownloadStep)
    ensures
        crate_info::download_path_crate(path@) is None ==> r@ == DownloadView::Respond(
            response::error_view(404),
        ),
        crate_info::download_path_crate(path@) matches Some(info) ==> exists|cutoff: Option<u64>|
            config@.cutoff_possible(info.name, cutoff) && config@.cutoff_read(info.name, cutoff)
                && r@ == #[trigger] gate(
                config@,
                info,
                cutoff,
            ),
{
    let now = read_clock();
    let step = handle_download_at(config, path, now);
    proof {
        if crate_info::download_path_crate(path@) is Some {
            let asked = crate_info::download_path_crate(path@)->0;
            let cutoff = config@.cutoff_at(asked.name, now);
            assert(config@.cutoff_read(asked.name, cutoff));
            assert(config@.cutoff_possible(asked.name, cutoff) && step@ == gate(
                config@,
                asked,
                cutoff,
            ));
        }
    }
    step
}

/// The cached index shows that a version was published no later than the
/// cutoff. Without an index file, a text, the version or its time it does not.
pub open spec fn old_enough(data: Option<Seq<u8>>, version: Seq<char>, cutoff: u64) -> bool {
    &&& data is Some
    &&& valid_utf8(data->0)
    &&& cooldown::version_time(decode_utf8(data->0), version) is Some
    &&& cooldown::version_time(decode_utf8(data->0), version)->0 <= cutoff
}

/// Tests whether a cached index file shows that a version was published no
/// later than the cutoff.
pub fn is_old_enough(data: &Option<Vec<u8>>, version: &str, cutoff: u64) -> (r: bool)
    ensures
        r == old_enough(index_steps::opt_bytes(*data), version@, cutoff),
{
    match data {
        Some(d) => match utf8_text(d.as_slice()) {
            Some(body) => match version_pubtime(body, version) {
                Some(secs) => secs <= cutoff,
                None => false,
            },
            None => false,
        },
        None => false,
    }
}

/// What comes after the cached index file was read, or not found.
pub open spec fn after_index_read(
    info: CrateView,
    cutoff: u64,
    data: Option<Seq<u8>>,
) -> DownloadView {
    if old_enough(data, info.version, cutoff) {
        DownloadView::ReadCrate(info)
    } else {
        DownloadView::Respond(response::error_view(403))
    }
}

/// Goes on after the cached index file was read, or not found: refuses a
/// version that it does not show to be old enough.
pub fn index_read(check: GateCheck, data: Option<Vec<u8>>) -> (r: DownloadStep)
    ensures
        r@ == after_index_read(check.info(), check.cutoff(), index_steps::opt_bytes(data)),
{
    if is_old_enough(&data, check.info.version(), check.cutoff) {
        DownloadStep::ReadCrate(check.info)
    } else {
        DownloadStep::Respond(error_response(403))
    }
}

/// What comes after the cached crate file was read, or not found.
pub open spec fn after_crate_read(info: CrateView, data: Option<Seq<u8>>) -> DownloadView {
    match data {
        Some(d) => DownloadView::Respond(response::crate_view(d)),
        None => DownloadView::Fetch(info),
    }
}

/// Goes on after the cached crate file was read, or not found.
pub fn crate_read(info: CrateInfo, data: Option<Vec<u8>>) -> (r: DownloadStep)
    ensures
        r@ == after_crate_read(info@, index_steps::opt_bytes(data)),
{
    match data {
        Some(data) => DownloadStep::Respond(crate_response(bytes_from_vec(data))),
        None => DownloadStep::Fetch(info),
    }
}

/// The URL of a crate file on the upstream download server.
pub open spec fn upstream_crate_url(upstream: Seq<char>, info: CrateView) -> Option<Seq<char>> {
    match address::joined_url(upstream, CRATES_API_PATH@) {
        Some(base) => address::joined_url(base, crate_info::download_url(info)),
        None => None,
    }
}

/// Builds the request that downloads a crate file from the upstream download
/// server. There is none if the upstream URL cannot be a base URL.
pub fn crate_request(config: &Config, info: &CrateInfo) -> (r: Option<UpstreamRequest>)
    ensures
        match upstream_crate_url(config@.upstream_url, info@) {
            Some(url) => r is Some && (r->0)@ == (UpstreamView {
                url,
                accept_encoding: None,
                if_none_match: None,
                if_modified_since: None,
            }),
            None => r is None,
        },
{
    match config.upstream_url().join(CRATES_API_PATH) {
        Some(base) => {
            let path = info.to_download_url();
            match base.join(path.as_str()) {
                Some(url) => Some(
                    UpstreamRequest {
                        url: url.as_str().to_owned(),
                        accept_encoding: None,
                        if_none_match: None,
                        if_modified_since: None,
                    },
                ),
                None => None,
            }
        },
        None => None,
    }
}

/// An answer of the upstream download server, or the lack of one.
pub enum CrateReply {
    /// A status that is not a success, with the text of its body if that could
    /// be read.
    Refused(u16, Option<String>),
    /// The crate file.
    Received(Vec<u8>),
    /// No answer, or one that could not be read.
    Failed(FetchError),
}

/// Status codes that mean success.
pub open spec fn success(status: u16) -> bool {
    200 <= status < 300
}

/// Tests for a status code that means success.
pub fn is_success(status: u16) -> (r: bool)
    ensures
        r == success(status),
{
    200 <= status && status < 300
}

/// What comes after the upstream download server has answered. A refusal is
/// forwarded, a body over the size limit is a `507`, and any other failure a
/// `502`.
pub open spec fn after_crate_reply(info: CrateView, reply: CrateReply) -> DownloadView {
    match reply {
        CrateReply::Refused(status, Some(body)) => DownloadView::Respond(
            response::json_view(status, body@),
        ),
        CrateReply::Refused(status, None) => DownloadView::Respond(
            response::json_view(status, response::json_error("upstream error"@)),
        ),
        CrateReply::Received(data) => DownloadView::StoreCrate(info, data@),
        CrateReply::Failed(FetchError::TooLarge) => DownloadView::Respond(
            response::error_view(507),
        ),
        CrateReply::Failed(FetchError::Http(e)) => DownloadView::Respond(
            response::json_view(502, response::json_error(e@)),
        ),
    }
}

/// Goes on after the upstream download server has answered.
pub fn crate_fetched(info: CrateInfo, reply: CrateReply) -> (r: DownloadStep)
    ensures
        r@ == after_crate_reply(info@, reply),
{
    match reply {
        CrateReply::Refused(status, body) => {
            let body = match body {
                Some(body) => body,
                None => format_json_error("upstream error"),
            };
            DownloadStep::Respond(json_response(status, body))
        },
        CrateReply::Received(data) => DownloadStep::StoreCrate(info, data),
        CrateReply::Failed(FetchError::TooLarge) => DownloadStep::Respond(error_response(507)),
        CrateReply::Failed(FetchError::Http(e)) => DownloadStep::Respond(
            json_response(502, format_json_error(e.as_str())),
        ),
    }
}

/// Goes on after a crate file was stored: serves it.
pub fn crate_stored(data: Vec<u8>) -> (r: Response)
    ensures
        r@ == response::crate_view(data@),
{
    crate_response(bytes_from_vec(data))
}

// Laws.

/// A download goes straight to the crate file if downloads are not restricted,
/// there is no cooldown, or the crate is exempt.
pub proof fn unrestricted_downloads_are_not_gated(
    config: ConfigView,
    info: CrateView,
    cutoff: Option<u64>,
)
    requires
        !config.restrict_downloads || config.exempt(info.name) || config.cooldown.secs() == 0,
        config.cutoff_possible(info.name, cutoff),
    ensures
        gate(config, info, cutoff) == DownloadView::ReadCrate(info),
{
}

/// A restricted download always waits for its publication time: with
/// downloads restricted, whatever the crate, the window and the cutoff, the
/// first step looks the time up at that very cutoff. Without a cutoff, or
/// without the restriction, it goes to the crate file.
pub proof fn restricted_downloads_wait_for_their_time(
    config: ConfigView,
    info: CrateView,
    cutoff: u64,
)
    ensures
        config.restrict_downloads ==> gate(config, info, Some(cutoff)) == DownloadView::ReadIndex(
            info,
            cutoff,
        ),
        !config.restrict_downloads ==> gate(config, info, Some(cutoff)) == DownloadView::ReadCrate(
            info,
        ),
        gate(config, info, None) == DownloadView::ReadCrate(info),
{
}

/// A too-new version is not downloadable, for any length of the window: with
/// downloads restricted, a crate that is not exempt and a window that is not
/// zero, a version whose listed time is less than `window` seconds before the
/// clock is looked up first and then refused. It gets to the crate file if and
/// only if its listed time is that long ago.
pub proof fn too_new_versions_never_get_to_the_crate_file(
    config: ConfigView,
    info: CrateView,
    now: u64,
    data: Seq<u8>,
    t: nat,
)
    requires
        config.restrict_downloads,
        config.cooldown.secs() > 0,
        !config.overrides.contains(text::lowered(info.name)),
        valid_utf8(data),
        cooldown::version_time(decode_utf8(data), info.version) == Some(t),
    ensures
        ({
            let window = config.cooldown.secs();
            let cutoff = (if now >= window {
                now - window
            } else {
                0
            }) as u64;
            let first = gate(config, info, config.cutoff_at(info.name, Some(now)));
            let second = after_index_read(info, cutoff, Some(data));
            &&& first == DownloadView::ReadIndex(info, cutoff)
            &&& t + window > now && t > 0 ==> second == DownloadView::Respond(
                response::error_view(403),
            )
            &&& t + window <= now || t == 0 ==> second == DownloadView::ReadCrate(info)
        }),
{
}

/// The restriction is fail-closed: without a cached index file, with one that
/// is no text, or with one that does not give the version a time, the download
/// is refused.
pub proof fn restriction_is_fail_closed(info: CrateView, cutoff: u64, data: Option<Seq<u8>>)
    requires
        data is None || !valid_utf8(data->0) || cooldown::version_time(
            decode_utf8(data->0),
            info.version,
        ) is None,
    ensures
        after_index_read(info, cutoff, data) == DownloadView::Respond(response::error_view(403)),
{
}

/// A version is refused if the cached index gives it a time after the cutoff,
/// and goes on to the crate file if the time is not after the cutoff.
pub proof fn too_new_versions_are_refused(info: CrateView, cutoff: u64, data: Seq<u8>, t: nat)
    requires
        valid_utf8(data),
        cooldown::version_time(decode_utf8(data), info.version) == Some(t),
    ensures
        t > cutoff ==> after_index_read(info, cutoff, Some(data)) == DownloadView::Respond(
            response::error_view(403),
        ),
        t <= cutoff ==> after_index_read(info, cutoff, Some(data)) == DownloadView::ReadCrate(
            info,
        ),
{
}

/// Index and download agree: a version that can be downloaded is listed in the
/// filtered index, with the same time.
pub proof fn downloadable_versions_are_listed(data: Seq<u8>, version: Seq<char>, cutoff: u64)
    requires
        old_enough(Some(data), version, cutoff),
    ensures
        cooldown::version_time(decode_utf8(cooldown::gated_data(data, cutoff)), version)
            == cooldown::version_time(decode_utf8(data), version),
{
    let body = decode_utf8(data);
    let t = cooldown::version_time(body, version)->0;
    cooldown::old_versions_stay_listed(body, version, cutoff, t);
    encode_utf8_decode_utf8(cooldown::gated(body, cutoff));
}

/// Crate files are served verbatim, from the cache and from the upstream.
pub proof fn crate_files_are_unmodified(info: CrateView, data: Seq<u8>, received: Vec<u8>)
    ensures
        after_crate_read(info, Some(data)) matches DownloadView::Respond(r) && r.status == 200
            && r.body == data,
        after_crate_reply(info, CrateReply::Received(received)) == DownloadView::StoreCrate(
            info,
            received@,
        ),
        response::crate_view(received@).body == received@,
{
}

/// The number of operations that a download can still need, at most, before it
/// is answered.
pub open spec fn operations_left(step: DownloadView) -> nat {
    match step {
        DownloadView::Respond(_) => 0,
        DownloadView::StoreCrate(_, _) => 1,
        DownloadView::Fetch(_) => 2,
        DownloadView::ReadCrate(_) => 3,
        DownloadView::ReadIndex(_, _) => 4,
    }
}

/// Every download comes to an end: it needs four operations at most, and each
/// of them leaves fewer to come, whatever its outcome.
pub proof fn downloads_come_to_an_end(
    config: ConfigView,
    info: CrateView,
    cutoff: Option<u64>,
    limit: u64,
    file: Option<Seq<u8>>,
    reply: CrateReply,
)
    ensures
        operations_left(gate(config, info, cutoff)) <= 4,
        operations_left(after_index_read(info, limit, file)) < operations_left(
            DownloadView::ReadIndex(info, limit),
        ),
        operations_left(after_crate_read(info, file)) < operations_left(
            DownloadView::ReadCrate(info),
        ),
        operations_left(after_crate_reply(info, reply)) < operations_left(
            DownloadView::Fetch(info),
        ),
{
}

/// A version may be downloaded if and only if there is a cached index file, it
/// is a text, and it lists the version with a time that is not after the
/// cutoff; otherwise the answer is a bare `403`.
pub proof fn downloads_need_an_old_enough_version(
    info: CrateView,
    cutoff: u64,
    body: Seq<char>,
    data: Seq<u8>,
)
    ensures
        ({
            let t = cooldown::version_time(body, info.version);
            let old = t is Some && t->0 <= cutoff;
            let step = after_index_read(info, cutoff, Some(encode_utf8(body)));
            let refused = DownloadView::Respond(
                ResponseView {
                    status: 403,
                    content_type: None,
                    etag: None,
                    last_modified: None,
                    body: Seq::empty(),
                },
            );
            &&& old ==> step == DownloadView::ReadCrate(info)
            &&& !old ==> step == refused
            &&& after_index_read(info, cutoff, None) == refused
            &&& !valid_utf8(data) ==> after_index_read(info, cutoff, Some(data)) == refused
        }),
{
    encode_utf8_valid_utf8(body);
    encode_utf8_decode_utf8(body);
}

/// What comes after a crate file was looked for, and after each answer of the
/// upstream download server: a cached file is served and a missing one fetched;
/// a refusal is forwarded with its status and text; a body over the limit is a
/// `507` and any other failure a `502`.
pub proof fn download_outcomes(
    info: CrateView,
    data: Seq<u8>,
    status: u16,
    text: String,
    received: Vec<u8>,
    message: String,
)
    ensures
        after_crate_read(info, Some(data)) == DownloadView::Respond(response::crate_view(data)),
        after_crate_read(info, None) == DownloadView::Fetch(info),
        after_crate_reply(info, CrateReply::Refused(status, Some(text))) == DownloadView::Respond(
            response::json_view(status, text@),
        ),
        after_crate_reply(info, CrateReply::Refused(status, None)) == DownloadView::Respond(
            response::json_view(
                status,
                "{\"errors\":[{\"detail\":\""@ + response::escaped("upstream error"@)
                    + "\"}]}"@,
            ),
        ),
        after_crate_reply(info, CrateReply::Received(received)) == DownloadView::StoreCrate(
            info,
            received@,
        ),
        after_crate_reply(info, CrateReply::Failed(FetchError::TooLarge))
            == DownloadView::Respond(response::error_view(507)),
        after_crate_reply(info, CrateReply::Failed(FetchError::Http(message)))
            == DownloadView::Respond(
            response::json_view(
                502,
                "{\"errors\":[{\"detail\":\""@ + response::escaped(message@) + "\"}]}"@,
            ),
        ),
        success(status) <==> status / 100 == 2,
{
}

/// Crate files are fetched from the download API of the upstream, under the
/// download path of the crate.
pub proof fn crate_files_are_fetched_from_the_api(
    upstream: Seq<char>,
    base: Seq<char>,
    info: CrateView,
)
    ensures
        address::joined_url(upstream, "/api/v1/crates/"@) == Some(base) ==> upstream_crate_url(
            upstream,
            info,
        ) == address::joined_url(
            base,
            info.name + seq!['/'] + info.version + seq!['/'] + "download"@,
        ),
        address::joined_url(upstream, "/api/v1/crates/"@) is None ==> upstream_crate_url(
            upstream,
            info,
        ) is None,
{
    crate_info::crate_paths_are_spelled_out(info);
}

/// A step shows what it holds: the crate, the cutoff and the data of its view
/// are its own.
pub proof fn download_steps_show_what_they_hold(
    response: Response,
    check: GateCheck,
    info: CrateInfo,
    data: Vec<u8>,
)
    ensures
        DownloadStep::Respond(response)@ == DownloadView::Respond(response@),
        DownloadStep::ReadIndex(check)@ == DownloadView::ReadIndex(check.info(), check.cutoff()),
        DownloadStep::ReadCrate(info)@ == DownloadView::ReadCrate(info@),
        DownloadStep::Fetch(info)@ == DownloadView::Fetch(info@),
        DownloadStep::StoreCrate(info, data)@ == DownloadView::StoreCrate(info@, data@),
{
}

/// A download that starts at a time that was read off the clock is looked up
/// at the cutoff of that reading: with downloads restricted, a window, and a
/// crate that is not exempt, one window before it.
pub proof fn downloads_start_at_the_cutoff_of_the_clock(
    config: ConfigView,
    info: CrateView,
    cutoff: Option<u64>,
)
    requires
        config.cutoff_read(info.name, cutoff),
        config.restrict_downloads,
        config.cooldown.secs() > 0,
        !config.overrides.contains(text::lowered(info.name)),
    ensures
        exists|now: Option<u64>| #[trigger]
            time::clock_reads(now) && gate(config, info, cutoff) == (match now {
                Some(secs) => DownloadView::ReadIndex(
                    info,
                    (if secs >= config.cooldown.secs() {
                        secs - config.cooldown.secs()
                    } else {
                        0
                    }) as u64,
                ),
                None => DownloadView::ReadCrate(info),
            }),
{
    config::read_cutoffs_are_one_window_back(config, info.name, cutoff);
}

} // verus!
