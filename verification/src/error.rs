//! What can go wrong.

use vstd::prelude::*;

verus! {

/// Declares `std::io::Error`, so that `Error` can carry one. Nothing is claimed
/// of it.
#[verifier::external_type_specification]
#[verifier::external_body]
pub struct ExIoError(std::io::Error);

pub type Result<T> = std::result::Result<T, Error>;

/// An error of the engine.
#[derive(Debug)]
pub enum Error {
    Io(std::io::Error),
    Shutdown,
    Corruption(String),
    ColumnFamilyNotFound(u32),
    WalError,
    /// The user key is longer than a key may be.
    KeyTooLarge { size: usize, max: usize },
    /// The value is longer than a record can say.
    ValueTooLarge { size: usize, max: usize },
    /// The record does not fit even into an empty batch.
    RecordTooLarge { encoded_size: usize, max_batch_size: usize },
    /// The record fits into an empty batch, but not behind the records that are
    /// in this one.
    BatchFull { record_size: usize, current_size: usize, max_batch_size: usize },
}

} // verus!
