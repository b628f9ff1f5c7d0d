//! The one place where the library asks for a random number.

use rand::Rng;
use vstd::prelude::*;

verus! {

/// Calls `rand::Rng::gen_range` on `rand::thread_rng()` with the inclusive
/// range from `low` to `high`.
///
/// The contract is believed, not proved: the value lies in the range. Which
/// value it is differs from call to call, so nothing more is said of it.
/// `gen_range` panics on an empty range, which `low <= high` rules out.
#[verifier::external_body]
pub(crate) fn random_between(low: usize, high: usize) -> (value: usize)
    requires
        low <= high,
    ensures
        low <= value <= high,
{
    rand::thread_rng().gen_range(low..=high)
}

} // verus!
