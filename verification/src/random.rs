//! The one source of chance: a whole number drawn from a range.

use rand::Rng;
use vstd::prelude::*;

verus! {

/// Draws a whole number from `low..high` with `rand`'s thread-local
/// generator (`rand::thread_rng().gen_range(low..high)`).
///
/// Not verified: it is taken from `rand` that the number lies in the range,
/// its lower end included and its upper end not. `gen_range` panics on an
/// empty range, which `requires` leaves out; `thread_rng` panics if the
/// operating system gives it no seed, which no argument can prevent. Which
/// number comes is left open: two draws from one range may differ.
#[verifier::external_body]
pub(crate) fn random_in_range(low: i32, high: i32) -> (r: i32)
    requires
        low < high,
    ensures
        low <= r < high,
{
    rand::thread_rng().gen_range(low..high)
}

} // verus!
