//! The library's one source of chance.

use rand::Rng;
use vstd::prelude::*;

verus! {

/// Draws a number from `low` to `high`, both included: `rand::Rng::gen_range` over
/// `low..=high` on the generator of `rand::thread_rng`. Nothing is claimed of the
/// number but that it lies in the range; two draws may differ.
#[verifier::external_body]
pub(crate) fn random_between(low: u64, high: u64) -> (r: u64)
    requires
        low <= high,
    ensures
        low <= r <= high,
{
    rand::thread_rng().gen_range(low..=high)
}

} // verus!
