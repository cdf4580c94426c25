//! Options of a database.

use vstd::prelude::*;

verus! {

/// How many batches the write pipeline holds.
pub const DEFAULT_WRITE_PIPELINE_CAPACITY_SIZE: usize = 64;

/// How many bytes one batch may come to.
pub const DEFAULT_MAX_WRITE_BATCH_BYTES: usize = 1024 * 1024;

/// Options that are fixed when a database is opened.
#[derive(Debug)]
pub struct DBOptions {
    pub max_system_batch_size: usize,
}

} // verus!
