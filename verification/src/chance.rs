//! The random draws the simulation makes, on the thread-local generator of `rand`.

use rand::Rng;
use vstd::prelude::*;

verus! {

/// Calls `rand::Rng::gen_range(low..high)` on `rand::thread_rng()`.
/// The crate documents that the value lies in the half-open range and that an
/// empty range panics, hence the `requires`. Which value comes out is chance:
/// nothing more is claimed of it. `thread_rng` itself panics when the operating
/// system's random source cannot seed it, which no argument controls and which
/// is left unsaid.
#[verifier::external_body]
pub(crate) fn random_in_range(low: i32, high: i32) -> (r: i32)
    requires
        low < high,
    ensures
        low <= r < high,
{
    rand::thread_rng().gen_range(low..high)
}

/// Calls `rand::Rng::gen_ratio(numerator, denominator)` on `rand::thread_rng()`:
/// `true` with probability `numerator / denominator`. The crate documents that a
/// zero denominator or a numerator above it panics, that a zero numerator always
/// gives `false` and an equal numerator always gives `true`; nothing else is
/// claimed of the outcome. As above, a failure of the operating system's random
/// source when `thread_rng` is first seeded is left unsaid.
#[verifier::external_body]
pub(crate) fn random_ratio(numerator: u32, denominator: u32) -> (r: bool)
    requires
        0 < denominator,
        numerator <= denominator,
    ensures
        numerator == 0 ==> !r,
        numerator == denominator ==> r,
{
    rand::thread_rng().gen_ratio(numerator, denominator)
}

} // verus!
