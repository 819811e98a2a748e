//! Configuration errors, reported before any tick runs.
use vstd::prelude::*;

verus! {

#[derive(Clone, Copy, Debug, PartialEq, Eq, Structural)]
pub enum ConfigError {
    /// The matrix has no species, too many, a wrong number of cells, or a
    /// coefficient out of range.
    InvalidMatrix,
    /// `minDist` is not positive, `maxDist <= minDist`, or a strength,
    /// friction or distance is out of range.
    InvalidParams,
    /// A particle's species is not a row of the matrix, or a position or
    /// velocity is out of range, or there are too many particles.
    InvalidParticle,
}

} // verus!
