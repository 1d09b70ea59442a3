//! Client-side core of a batched, concurrent data-fetching engine for a
//! version-control service: key batching, a compact binary wire format,
//! transfer-outcome processing with fail-fast, progress aggregation,
//! download statistics, and the store layers decoded entries land in.

pub mod batch;
pub mod blob;
pub mod client;
pub mod cloud;
pub mod context;
pub mod driver;
pub mod errors;
pub mod executor;
pub mod fetch;
pub mod keys;
pub mod lfs;
pub mod progress;
pub mod proto;
pub mod stats;
pub mod store;
pub mod urls;
pub mod wire;

pub use client::{Config, EdenApiCurlClient};
pub use errors::ApiError;
pub use keys::Key;
pub use stats::DownloadStats;
