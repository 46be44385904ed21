use vstd::prelude::*;

pub mod engine;
pub mod export;
pub mod gen;
pub mod grid;
pub mod noise;
pub mod palette;
pub mod rng;
pub mod rule;
pub mod textutil;

verus! {

/// The reserved symbol standing for an unset cell or an off-grid
/// neighbour in a flattened window.
pub const FILL_CHAR: char = '#';

} // verus!
