//! Currency diffusion across rectangular countries laid out on a grid of cities.

pub mod catalog;
pub mod sums;
pub mod model;
pub mod grid;
pub mod diffusion;
pub mod simulate;
pub mod laws;
