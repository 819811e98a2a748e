//! Per-particle motion: friction, impulse and advance (the integrator), then
//! reflection at the viewport boundary.
use crate::accumulate::FORCE_LIMIT;
use crate::fixed::{div_trunc, lemma_quot_trunc_bound, quot_trunc, SCALE};
use crate::force::abs;
use crate::particle::{
    valid_dt, within, Params, Particle, Vec2, DT_LIMIT, FRICTION_LIMIT, POS_LIMIT, VEL_LIMIT,
};
use vstd::prelude::*;

verus! {

pub open spec fn clamp(v: int, limit: int) -> int {
    if v < -limit {
        -limit
    } else if v > limit {
        limit
    } else {
        v
    }
}

/// Friction factor `1 - friction * dt` (fixed-point).
pub open spec fn damping(p: Params, dt: int) -> int {
    SCALE - (p.friction * dt) / (SCALE as int)
}

/// New velocity component: damped, plus the pending impulse, saturating at
/// `VEL_LIMIT`.
pub open spec fn next_velocity(v: int, force: int, damp: int) -> int {
    clamp(quot_trunc(v * damp, SCALE as int) + force, VEL_LIMIT as int)
}

/// New position component: advanced by `velocity * dt`, saturating at
/// `POS_LIMIT`.
pub open spec fn next_position(pos: int, v: int, dt: int) -> int {
    clamp(pos + quot_trunc(v * dt, SCALE as int), POS_LIMIT as int)
}

/// A particle after integration: friction, then the pending impulse folded
/// into velocity and cleared, then the position advanced.
pub open spec fn integrated(q: Particle, p: Params, dt: int) -> Particle {
    let damp = damping(p, dt);
    let vx = next_velocity(q.velocity.x as int, q.pending_force.x as int, damp);
    let vy = next_velocity(q.velocity.y as int, q.pending_force.y as int, damp);
    Particle {
        position: Vec2 {
            x: next_position(q.position.x as int, vx, dt) as i64,
            y: next_position(q.position.y as int, vy, dt) as i64,
        },
        velocity: Vec2 { x: vx as i64, y: vy as i64 },
        pending_force: Vec2 { x: 0, y: 0 },
        species: q.species,
    }
}

/// One axis of the reflector: past the boundary `h`, the velocity flips and
/// the overshoot `|pos| - h`, signed as `pos`, is taken off the position.
pub open spec fn reflect_axis(pos: int, vel: int, h: int) -> (int, int) {
    if abs(pos) > h {
        let overshoot = if pos >= 0 {
            abs(pos) - h
        } else {
            -(abs(pos) - h)
        };
        (pos - overshoot, -vel)
    } else {
        (pos, vel)
    }
}

/// A particle after the reflector, with half-extent `h`.
pub open spec fn reflected(q: Particle, h: Vec2) -> Particle {
    let rx = reflect_axis(q.position.x as int, q.velocity.x as int, h.x as int);
    let ry = reflect_axis(q.position.y as int, q.velocity.y as int, h.y as int);
    Particle {
        position: Vec2 { x: rx.0 as i64, y: ry.0 as i64 },
        velocity: Vec2 { x: rx.1 as i64, y: ry.1 as i64 },
        pending_force: q.pending_force,
        species: q.species,
    }
}

/// After reflection a coordinate lies within the boundary, and the velocity
/// component keeps its magnitude.
pub proof fn lemma_reflection_confines(pos: int, vel: int, h: int)
    requires
        0 <= h,
    ensures
        within(reflect_axis(pos, vel, h).0, h),
        abs(reflect_axis(pos, vel, h).1) == abs(vel),
        abs(pos) > h ==> reflect_axis(pos, vel, h).1 == -vel,
{
}

pub open spec fn motion_ok(q: Particle, species_count: int) -> bool {
    &&& q.in_bounds(species_count)
    &&& within(q.pending_force.x as int, FORCE_LIMIT as int)
    &&& within(q.pending_force.y as int, FORCE_LIMIT as int)
}

proof fn lemma_damping_range(p: Params, dt: int)
    requires
        p.valid(),
        valid_dt(dt),
    ensures
        SCALE - 100_000_000 <= damping(p, dt) <= SCALE,
{
    assert(0 <= p.friction * dt <= FRICTION_LIMIT * DT_LIMIT) by (nonlinear_arith)
        requires
            0 <= p.friction <= FRICTION_LIMIT,
            0 <= dt <= DT_LIMIT,
    ;
    lemma_quot_trunc_bound(p.friction * dt, SCALE as int, FRICTION_LIMIT * DT_LIMIT);
}

fn saturate(v: i128, limit: i64) -> (r: i64)
    requires
        limit >= 0,
    ensures
        r == clamp(v as int, limit as int),
{
    if v < -(limit as i128) {
        -limit
    } else if v > limit as i128 {
        limit
    } else {
        v as i64
    }
}

fn velocity_component(v: i64, force: i64, damp: i64) -> (r: i64)
    requires
        within(v as int, VEL_LIMIT as int),
        within(force as int, FORCE_LIMIT as int),
        SCALE - 100_000_000 <= damp <= SCALE,
    ensures
        r == next_velocity(v as int, force as int, damp as int),
{
    let bound: i128 = 0x100_0000_0000 * 100_000_000;
    assert(within(v * damp, bound as int)) by (nonlinear_arith)
        requires
            within(v as int, VEL_LIMIT as int),
            within(damp as int, 100_000_000),
            bound == VEL_LIMIT * 100_000_000,
    ;
    proof {
        lemma_quot_trunc_bound(v * damp, SCALE as int, bound as int);
    }
    let slowed = div_trunc(v as i128 * damp as i128, SCALE as i128);
    saturate(slowed + force as i128, VEL_LIMIT)
}

fn position_component(pos: i64, v: i64, dt: i64) -> (r: i64)
    requires
        within(pos as int, POS_LIMIT as int),
        within(v as int, VEL_LIMIT as int),
        valid_dt(dt as int),
    ensures
        r == next_position(pos as int, v as int, dt as int),
{
    let bound: i128 = 0x100_0000_0000 * 100_000;
    assert(within(v * dt, bound as int)) by (nonlinear_arith)
        requires
            within(v as int, VEL_LIMIT as int),
            0 <= dt <= DT_LIMIT,
            bound == VEL_LIMIT * DT_LIMIT,
    ;
    proof {
        lemma_quot_trunc_bound(v * dt, SCALE as int, bound as int);
    }
    let step = div_trunc(v as i128 * dt as i128, SCALE as i128);
    saturate(pos as i128 + step, POS_LIMIT)
}

/// Integrates one particle (see `integrated`).
pub(crate) fn integrate_particle(q: Particle, p: Params, dt: i64, species_count: Ghost<int>) -> (r: Particle)
    requires
        motion_ok(q, species_count@),
        p.valid(),
        valid_dt(dt as int),
    ensures
        r == integrated(q, p, dt as int),
        r.in_bounds(species_count@),
        r.pending_force.is_zero(),
{
    proof {
        lemma_damping_range(p, dt as int);
    }
    let damp: i64 = SCALE - (p.friction * dt) / SCALE;
    let vx = velocity_component(q.velocity.x, q.pending_force.x, damp);
    let vy = velocity_component(q.velocity.y, q.pending_force.y, damp);
    let x = position_component(q.position.x, vx, dt);
    let y = position_component(q.position.y, vy, dt);
    Particle {
        position: Vec2 { x, y },
        velocity: Vec2 { x: vx, y: vy },
        pending_force: Vec2 { x: 0, y: 0 },
        species: q.species,
    }
}

fn reflect_component(pos: i64, vel: i64, h: i64) -> (r: (i64, i64))
    requires
        within(pos as int, POS_LIMIT as int),
        within(vel as int, VEL_LIMIT as int),
        0 <= h <= POS_LIMIT,
    ensures
        (r.0 as int, r.1 as int) == reflect_axis(pos as int, vel as int, h as int),
{
    let magnitude: i64 = if pos < 0 {
        -pos
    } else {
        pos
    };
    if magnitude > h {
        let overshoot: i64 = if pos >= 0 {
            magnitude - h
        } else {
            -(magnitude - h)
        };
        (pos - overshoot, -vel)
    } else {
        (pos, vel)
    }
}

/// Reflects one particle at the boundary `h` (see `reflected`).
pub(crate) fn reflect_particle(q: Particle, h: Vec2, species_count: Ghost<int>) -> (r: Particle)
    requires
        q.in_bounds(species_count@),
        0 <= h.x <= POS_LIMIT,
        0 <= h.y <= POS_LIMIT,
    ensures
        r == reflected(q, h),
        r.in_bounds(species_count@),
        within(r.position.x as int, h.x as int),
        within(r.position.y as int, h.y as int),
{
    proof {
        lemma_reflection_confines(q.position.x as int, q.velocity.x as int, h.x as int);
        lemma_reflection_confines(q.position.y as int, q.velocity.y as int, h.y as int);
    }
    let (x, vx) = reflect_component(q.position.x, q.velocity.x, h.x);
    let (y, vy) = reflect_component(q.position.y, q.velocity.y, h.y);
    Particle {
        position: Vec2 { x, y },
        velocity: Vec2 { x: vx, y: vy },
        pending_force: q.pending_force,
        species: q.species,
    }
}

} // verus!
