//! Keys.

pub mod internal_key;

use vstd::prelude::*;

verus! {

/// How long a user key may be.
pub const MAX_USER_KEY_BYTES: usize = 64 * 1024;

} // verus!
