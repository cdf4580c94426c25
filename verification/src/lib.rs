//! The write path of a log-structured storage engine: batches and the pool that
//! recycles them, the commit pipeline, write groups, and the per-thread storage
//! behind them.

pub mod db;
pub mod error;
pub mod key;
pub mod log_records;
pub mod options;
pub mod sync;
pub mod thread_local_storage;
pub mod utils;
pub mod version;
pub mod wal;

pub use error::{Error, Result};
