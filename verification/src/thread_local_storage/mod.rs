//! Per-thread storage.
//!
//! It is a matrix: each thread has a row, and each user of the storage has a
//! column, by its id. A cell holds the object that a thread has for a user.

pub mod registry;
pub mod thread_local;
pub mod thread_local_ptr;
