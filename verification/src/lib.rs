//! Caching HTTP proxy for the `crates.io` registry, with sparse-index
//! age-gating (cooldown).
//!
//! The proxy caches both the sparse registry index and the crate files of an
//! upstream registry, and hides crate versions newer than a configurable
//! cooldown window to blunt supply-chain attacks (see [`cooldown`]). This
//! library holds its rules; a server around it performs the file and network
//! operations that the rules ask for.
//!
//! Module layout:
//! - [`constants`] — compile-time constants.
//! - [`text`], [`lines`] — characters and lines of a text.
//! - [`calendar`], [`time`] — civil dates, spans and points of time, the clock.
//! - [`valid`] — crate name and version validation.
//! - [`cooldown`], [`cooldown_laws`] — the age-gating filter and duration
//!   parsing, and what they keep to.
//! - [`http`] — responses, HTTP dates and size-capped bodies.
//! - [`cache`] — metadata and memo caches and the registry data types.
//! - [`address`] — URLs.
//! - [`config`] — configuration and the parsing of options.
//! - [`routes`] — the course of a request, one module per HTTP route.

pub mod address;
pub mod cache;
pub mod calendar;
pub mod config;
pub mod constants;
pub mod cooldown;
pub mod cooldown_laws;
pub mod http;
pub mod lines;
pub mod routes;
pub mod text;
pub mod time;
pub mod valid;

pub use config::Config;
