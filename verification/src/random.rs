//! Random identifiers, drawn from the thread-local generator of `rand`.
use vstd::prelude::*;

verus! {

/// Calls `rand::random::<u64>()`, which draws a value from the thread-local
/// generator of `rand`. Any `u64` may come back, so nothing is stated of the
/// result. (The generator panics if the operating system cannot seed it.)
#[verifier::external_body]
pub(crate) fn random_u64() -> u64 {
    rand::random::<u64>()
}

} // verus!
