//! The system clock (`std::time`).

use vstd::prelude::*;

verus! {

/// `SystemTime::now()` as whole seconds since the Unix epoch. Nothing is
/// claimed of the value: it is the time of the call.
#[verifier::external_body]
pub(crate) fn unix_now() -> (r: u64) {
    std::time::SystemTime::now().duration_since(std::time::UNIX_EPOCH).unwrap().as_secs()
}

} // verus!
