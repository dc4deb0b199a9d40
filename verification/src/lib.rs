//! Decision logic of an evolution simulation: a grid map with obstacles and
//! food, creatures that look for food, eat, reproduce and are culled each
//! generation, the statistics window shown in the user interface, and the
//! camera presets. Every function here is verified except the two wrappers in
//! the `chance` module, which make the random draws through `rand` and whose
//! contracts are trusted; rendering, timing and the floating-point physics live
//! in the application around the library.


pub mod camera;
mod chance;
pub mod configs;
pub mod creature;
pub mod gui;


pub mod map;
