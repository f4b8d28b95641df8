//! In-memory caches and the registry data types they key on.
//!
//! - [`metadata`] — cache of index entry metadata (etag / mtime).
//! - [`memo`] — cache of age-gated (filtered) index bodies.
//! - [`crate_info`] / [`index_entry`] — crate/version + index entry models
//!   (name parsing and cache file paths).

pub mod crate_info;
pub mod index_entry;
pub mod memo;
pub mod metadata;

pub use crate_info::CrateInfo;
pub use index_entry::IndexEntry;
pub use memo::{FilteredMemo, MEMO_BUCKET_SECS};
pub use metadata::MetadataCache;
