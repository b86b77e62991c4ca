//! The source of chance: the thread's generator of the `fastrand` crate.
//!
//! Nothing here is proved. Each function makes one call, and its contract
//! says of the outcome only what holds of every outcome.

use vstd::prelude::*;

verus! {

/// Calls `fastrand::usize` on the range `0..n`. The crate picks a value of
/// the range it is given and panics on an empty one, so `n` must be
/// positive and the index lies below `n`; which index, nothing says.
#[verifier::external_body]
pub(crate) fn random_index(n: usize) -> (index: usize)
    requires
        n > 0,
    ensures
        index < n,
{
    fastrand::usize(0..n)
}

/// Calls `fastrand::u8` on the full range of a byte. Every byte may come.
#[verifier::external_body]
pub(crate) fn random_byte() -> (byte: u8) {
    fastrand::u8(0..=u8::MAX)
}

} // verus!
