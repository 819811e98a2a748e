//! A particle-life simulation engine in fixed-point arithmetic: species
//! interaction matrix, pairwise force law, force accumulation, integration
//! and reflective viewport boundaries.
use vstd::prelude::*;

pub mod accumulate;
pub mod error;
pub mod fixed;
pub mod force;
pub mod matrix;
pub mod motion;
pub mod particle;
mod random;
pub mod world;

verus! {

} // verus!
