//! Creatures: what they decide each step, how their walk cycle advances,
//! and the generation counter of the population.

pub mod appearance;
pub mod behavior;
pub mod genetics;
