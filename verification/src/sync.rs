//! What threads do while they wait.

use vstd::prelude::*;

verus! {

/// Tells the processor that the caller is in a busy wait, by
/// `std::hint::spin_loop`. It returns nothing and changes nothing, so nothing is
/// claimed of it.
#[verifier::external_body]
pub fn spin_loop() {
    std::hint::spin_loop();
}

} // verus!
