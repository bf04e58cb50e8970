//! The one source of chance of the engine.

use vstd::prelude::*;
use rand::Rng;

verus! {

/// An index below `bound`, drawn at random.
///
/// Calls `Rng::gen_range` of the `rand` crate with the range `0..bound` on
/// the generator that `rand::thread_rng` hands out. `gen_range` panics on an
/// empty range, which `bound > 0` rules out, and returns a value of the
/// range. Nothing else is claimed of the value: two calls with the same
/// bound may differ. `thread_rng` itself panics where the system gives the
/// thread no seed; no argument of this function could prevent that.
#[verifier::external_body]
pub(crate) fn random_index(bound: usize) -> (index: usize)
    requires
        bound > 0,
    ensures
        index < bound,
{
    rand::thread_rng().gen_range(0..bound)
}

} // verus!
