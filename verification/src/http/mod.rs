//! HTTP plumbing shared across routes: response builders, upstream fetch, and
//! HTTP-date handling.

pub mod body;
pub mod fetch;
pub mod httpdate;
pub mod response;

pub use fetch::{CappedBody, FetchError};
pub use httpdate::{fmt_http_date, parse_http_date};
pub use response::{
    crate_response, error_response, format_json_error, json_escape, json_response, Body, Response,
};
