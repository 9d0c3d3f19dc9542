//! Random bytes from the operating system (`rand_core::OsRng`).

use vstd::prelude::*;
use rand_core::RngCore as _;

verus! {

/// `OsRng::fill_bytes` on `n` fresh bytes. Only the length is claimed: the
/// contents are random.
#[verifier::external_body]
pub(crate) fn random_bytes(n: usize) -> (r: Vec<u8>)
    ensures
        r@.len() == n,
{
    let mut v = vec![0u8; n];
    rand_core::OsRng.fill_bytes(&mut v);
    v
}

} // verus!

verus! {

/// `rand::random::<[u8; 32]>()` (thread-local generator seeded from the
/// operating system). Nothing is claimed of the value.
#[verifier::external_body]
pub(crate) fn random_array32() -> (r: [u8; 32]) {
    rand::random::<[u8; 32]>()
}

} // verus!
