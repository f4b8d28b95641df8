//! Compile-time constants shared across the crate.

use vstd::prelude::*;

verus! {

/// Default listen address and port.
pub const LISTEN_ADDRESS: &'static str = "0.0.0.0:3080";

/// Upstream `crates.io` registry index URL.
pub const INDEX_CRATES_IO_URL: &'static str = "https://index.crates.io/";

/// Upstream `crates.io` registry URL.
pub const CRATES_IO_URL: &'static str = "https://crates.io/";

/// Default external URL of this proxy server.
pub const DEFAULT_PROXY_URL: &'static str = "http://localhost:3080/";

/// Crates download API path.
pub const CRATES_API_PATH: &'static str = "/api/v1/crates/";

/// Default crate files cache directory path.
pub const DEFAULT_CACHE_DIR: &'static str = "/var/cache/chilled-crates";

/// Default index cache entry Time-to-Live in seconds.
pub const DEFAULT_CACHE_TTL_SECS: u64 = 3600;

/// Limit the crate file download size to 16 MiB.
pub const MAX_CRATE_SIZE: usize = 0x100_0000;

/// Limit the sparse-index entry download size to 64 MiB.
pub const MAX_INDEX_SIZE: usize = 0x400_0000;

/// HTTP Content-Type of the registry index entry JSON file.
pub const INDEX_CTYPE: &'static str = "text/plain";

/// HTTP Content-Type of the crate package file.
pub const CRATE_CTYPE: &'static str = "application/x-tar";

/// HTTP Content-Type of the crates API JSON response.
pub const JSON_CTYPE: &'static str = "application/json; charset=utf-8";

/// HTTP Content-Type of the health-check response.
pub const TEXT_CTYPE: &'static str = "text/plain; charset=utf-8";

/// The limits in larger units: crate files of 16 MiB, index files of 64 MiB,
/// and an hour for index entries.
pub proof fn limits_in_larger_units()
    ensures
        MAX_CRATE_SIZE == 16 * 1024 * 1024,
        MAX_INDEX_SIZE == 64 * 1024 * 1024,
        DEFAULT_CACHE_TTL_SECS == 60 * 60,
{
}

} // verus!
