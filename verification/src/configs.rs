//! Integer settings of the simulation.

use vstd::prelude::*;

verus! {

/// Creatures spawned when the simulation starts.
pub const NUM_CREATURES: u32 = 50;

/// Food sources the simulation is tuned for.
pub const NUM_FOOD_SOURCES: u32 = 15;

/// Obstacles placed on the map when the simulation starts.
pub const NUM_OBSTACLES: u32 = 15;

/// Intended upper bound of the population.
pub const POPULATION_LIMIT: u32 = 150;

} // verus!
