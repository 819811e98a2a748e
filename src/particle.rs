//! Particles and the engine's parameters, with the ranges the engine accepts.
use crate::error::ConfigError;
use crate::force::{valid_range, valid_strength, COEF_LIMIT, MAX_RANGE};
use vstd::prelude::*;

verus! {

/// Largest admissible magnitude of a position coordinate (fixed-point).
pub const POS_LIMIT: i64 = 0x100_0000_0000;

/// Largest magnitude of a velocity component; faster motion saturates here.
pub const VEL_LIMIT: i64 = 0x100_0000_0000;

/// Largest admissible elapsed time per tick (100 s, fixed-point).
pub const DT_LIMIT: i64 = 100_000;

/// Largest admissible friction coefficient (1000.0 per second).
pub const FRICTION_LIMIT: i64 = 1_000_000;

/// A 2D vector in fixed-point coordinates.
#[derive(Clone, Copy, Debug, PartialEq, Eq, Structural)]
pub struct Vec2 {
    pub x: i64,
    pub y: i64,
}

/// A point particle tagged with a species.
#[derive(Clone, Copy, Debug, PartialEq, Eq, Structural)]
pub struct Particle {
    pub position: Vec2,
    pub velocity: Vec2,
    /// Impulse gathered during the current tick; zero between ticks.
    pub pending_force: Vec2,
    pub species: usize,
}

/// Force-law shape, global force scale and friction, all fixed-point.
#[derive(Clone, Copy, Debug, PartialEq, Eq, Structural)]
pub struct Params {
    pub min_dist: i64,
    pub max_dist: i64,
    pub global_strength: i64,
    pub friction: i64,
}

pub open spec fn within(v: int, limit: int) -> bool {
    -limit <= v <= limit
}

pub open spec fn valid_dt(dt: int) -> bool {
    0 <= dt <= DT_LIMIT
}

/// A viewport half-extent that the reflector accepts: strictly inside the
/// representable range, so that a position saturated at `POS_LIMIT` always
/// lies past the boundary and is reflected.
pub open spec fn valid_extent(h: Vec2) -> bool {
    0 <= h.x < POS_LIMIT && 0 <= h.y < POS_LIMIT
}

impl Vec2 {
    pub fn new(x: i64, y: i64) -> (r: Vec2)
        ensures
            r.x == x,
            r.y == y,
    {
        Vec2 { x, y }
    }

    pub open spec fn is_zero(&self) -> bool {
        self.x == 0 && self.y == 0
    }
}

impl Particle {
    /// A particle at rest with respect to forces: its pending force is zero.
    pub fn new(position: Vec2, velocity: Vec2, species: usize) -> (r: Particle)
        ensures
            r.position == position,
            r.velocity == velocity,
            r.species == species,
            r.pending_force.is_zero(),
    {
        Particle { position, velocity, pending_force: Vec2 { x: 0, y: 0 }, species }
    }

    /// Position and velocity lie in the representable ranges and the species
    /// is a row of a matrix with `species_count` species.
    pub open spec fn in_bounds(&self, species_count: int) -> bool {
        &&& self.species < species_count
        &&& within(self.position.x as int, POS_LIMIT as int)
        &&& within(self.position.y as int, POS_LIMIT as int)
        &&& within(self.velocity.x as int, VEL_LIMIT as int)
        &&& within(self.velocity.y as int, VEL_LIMIT as int)
    }
}

impl Params {
    pub open spec fn valid(&self) -> bool {
        &&& valid_range(self.min_dist as int, self.max_dist as int)
        &&& valid_strength(self.global_strength as int)
        &&& 0 <= self.friction <= FRICTION_LIMIT
    }

    /// Engine parameters; fails unless `0 < minDist < maxDist <= MAX_RANGE`,
    /// `|globalStrength| <= COEF_LIMIT` and `0 <= friction <= FRICTION_LIMIT`.
    pub fn new(min_dist: i64, max_dist: i64, global_strength: i64, friction: i64) -> (r: Result<
        Params,
        ConfigError,
    >)
        ensures
            r is Ok <==> (valid_range(min_dist as int, max_dist as int) && valid_strength(
                global_strength as int,
            ) && 0 <= friction <= FRICTION_LIMIT),
            r matches Ok(p) ==> p.valid() && p == (Params {
                min_dist,
                max_dist,
                global_strength,
                friction,
            }),
            r is Err ==> r == Err::<Params, ConfigError>(ConfigError::InvalidParams),
    {
        if min_dist <= 0 || max_dist <= min_dist || max_dist > MAX_RANGE || global_strength
            < -COEF_LIMIT || global_strength > COEF_LIMIT || friction < 0 || friction
            > FRICTION_LIMIT {
            Err(ConfigError::InvalidParams)
        } else {
            Ok(Params { min_dist, max_dist, global_strength, friction })
        }
    }
}

} // verus!
