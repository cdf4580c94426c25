//! The database and its write path.

pub mod batch;
pub mod batch_object;
pub mod batch_pool;
pub mod db;
pub mod db_impl;
pub mod options;
pub mod record;
pub mod write_pipeline;
pub mod write_thread;
pub mod writer;

use vstd::prelude::*;

verus! {

/// The column family that a write goes to unless told otherwise.
pub const DEFAULT_CF_ID: u64 = 0;

} // verus!
