//! Configuration, and the parsing that goes into it.

pub mod config;
pub mod helpers;
pub mod version;

pub use config::Config;
pub use helpers::{
    env_flag, listen_address, normalize_log_level, parse_overrides, resolve_log_level,
    ListenAddress,
};
pub use version::version_banner;
