//! HTTP request handling, one module per route.

pub mod download;
pub mod etag;
pub mod index;
pub mod index_laws;
pub mod index_steps;
pub mod metrics;
pub mod status;
