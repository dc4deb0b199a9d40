//! The generation counter of the population.

use vstd::prelude::*;

verus! {

/// The number of the current generation; the simulation starts at generation 1.
pub struct Generation(pub u32);

impl Generation {
    /// The first generation.
    pub fn first() -> (g: Generation)
        ensures
            g.0 == 1,
    {
        Generation(1)
    }
}

} // verus!
