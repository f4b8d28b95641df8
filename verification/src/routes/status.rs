//! `GET /` and `GET /healthz` — liveness and health checks.

use vstd::prelude::*;
use vstd::utf8::*;

use crate::constants::TEXT_CTYPE;
use crate::http::response;
use crate::http::response::{json_response, Body, Response, ResponseView};

verus! {

/// Liveness body returned at `/`.
pub const STATUS_JSON: &'static str = "{\"status\":\"running\"}";

/// Handles `GET /`: a minimal liveness status, always available.
pub fn handle_home() -> (r: Response)
    ensures
        r@ == response::json_view(200, STATUS_JSON@),
{
    json_response(200, STATUS_JSON.to_owned())
}

/// Handles `GET /healthz`: a health-check endpoint for probes/load balancers.
///
/// Follows the conventional `healthz` contract — HTTP 200 with a plain `ok`
/// body — which is all a Kubernetes/LB liveness probe inspects.
pub fn handle_healthz() -> (r: Response)
    ensures
        r@ == (ResponseView {
            status: 200,
            content_type: Some(TEXT_CTYPE@),
            etag: None,
            last_modified: None,
            body: encode_utf8("ok\n"@),
        }),
{
    Response {
        status: 200,
        content_type: Some(TEXT_CTYPE),
        etag: None,
        last_modified: None,
        body: Body::Text("ok\n".to_owned()),
    }
}

/// The liveness body is a JSON object that says `running`.
pub proof fn liveness_is_spelled_out()
    ensures
        STATUS_JSON@ == "{\"status\":\"running\"}"@,
        TEXT_CTYPE@ == "text/plain; charset=utf-8"@,
{
}

} // verus!
