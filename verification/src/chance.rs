//! The random number generator of the `rand` crate, as the board generator
//! uses it.

use vstd::prelude::*;
use rand::Rng;

verus! {

/// The thread-local generator of `rand` (`rand::rngs::ThreadRng`), carried
/// through verified code as an opaque value.
#[verifier::external_type_specification]
#[verifier::external_body]
pub struct ExThreadRng(rand::rngs::ThreadRng);

/// Calls `rand::rng()`, which returns a handle to the thread-local generator.
/// Nothing is claimed of the handle. The first call on a thread seeds the
/// generator from the operating system and panics if that fails; whether it
/// does depends on the machine, so no condition here rules it out.
#[verifier::external_body]
pub(crate) fn thread_rng() -> rand::rngs::ThreadRng {
    rand::rng()
}

/// Calls `Rng::random_range(rng, 0..bound)`. Claimed: the value lies in
/// `0..bound`, as rand's documentation and source state for an integer range
/// (`UniformInt::sample_single` samples below the exclusive upper end). The
/// call panics on an empty range, so `bound` must be positive. Which value
/// comes back rests on chance and is not stated.
#[verifier::external_body]
pub(crate) fn random_below(rng: &mut rand::rngs::ThreadRng, bound: usize) -> (r: usize)
    requires
        bound > 0,
    ensures
        r < bound,
{
    rng.random_range(0..bound)
}

} // verus!
