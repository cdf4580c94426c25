//! What a log writer holds while it syncs.

use vstd::prelude::*;

verus! {

/// A permit to have a log sync outstanding.
#[derive(Debug, PartialEq, Eq, Structural)]
pub struct SyncPermit {
    pub sync_occupancy: u64,
}

impl Default for SyncPermit {
    /// Nothing is outstanding.
    fn default() -> (permit: Self)
        ensures
            permit.sync_occupancy == 0,
    {
        SyncPermit { sync_occupancy: 0 }
    }
}

} // verus!
