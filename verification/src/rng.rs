//! The one call into the `rand` crate: the random byte of the CXNN instruction.
use vstd::prelude::*;

verus! {

/// A byte from `rand::random::<u8>()`, drawn from the thread-local
/// generator. Its value rests on chance, so nothing is stated of it: any
/// byte may come back. (`rand` panics if the operating system cannot seed
/// that generator, which no precondition here can rule out.)
#[verifier::external_body]
pub(crate) fn random_byte() -> (byte: u8) {
    rand::random::<u8>()
}

} // verus!
