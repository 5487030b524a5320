//! A discrete-time heat-diffusion simulator on a fixed-size 2D grid.
//!
//! Scalar quantities (temperatures, source intensities, color channels) are
//! fixed-point numbers: a `u64` counts units of `1/SCALE`, so the value `1.0`
//! is stored as `SCALE`. All arithmetic is exact integer arithmetic, which
//! lets every step of the simulation carry a precise contract.

use vstd::prelude::*;

pub mod color;
pub mod diffusion;
pub mod field;
pub mod source;

verus! {

/// The fixed-point scale: the stored integer `SCALE` stands for the value `1.0`.
pub const SCALE: u64 = 1_000_000;

} // verus!
