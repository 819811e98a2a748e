//! The simulation world: a fixed population, the interaction matrix and the
//! engine parameters, advanced one tick at a time.
use crate::accumulate::{
    accumulate_forces, accumulated, lemma_accumulated_bound, population_ok, same_motion,
    MAX_PARTICLES,
};
use crate::error::ConfigError;
use crate::matrix::{InteractionMatrix, MAX_SPECIES};
use crate::motion::{integrate_particle, integrated, motion_ok, reflect_particle, reflected};
use crate::particle::{
    valid_dt, valid_extent, within, Params, Particle, Vec2, POS_LIMIT, VEL_LIMIT,
};
use crate::random::draw_in;
use rand::rngs::StdRng;
use vstd::arithmetic::div_mod::lemma_fundamental_div_mod_converse;
use vstd::prelude::*;

verus! {

/// Every particle is in range, belongs to one of `species` species, and has
/// no pending force.
pub open spec fn settled(ps: Seq<Particle>, species: int) -> bool {
    forall|k: int|
        0 <= k < ps.len() ==> (#[trigger] ps[k]).in_bounds(species)
            && ps[k].pending_force.is_zero()
}

/// `q` with its pending force replaced by `f`.
pub open spec fn with_pending(q: Particle, f: (int, int)) -> Particle {
    Particle {
        position: q.position,
        velocity: q.velocity,
        pending_force: Vec2 { x: f.0 as i64, y: f.1 as i64 },
        species: q.species,
    }
}

/// Initial placement that `populate` accepts.
pub open spec fn spawn_ok(species: int, per_species: int, half_extent: Vec2, max_speed: int) -> bool {
    &&& species * per_species <= MAX_PARTICLES
    &&& 1 <= half_extent.x < POS_LIMIT
    &&& 1 <= half_extent.y < POS_LIMIT
    &&& 1 <= max_speed <= VEL_LIMIT
}

pub struct SimulationWorld {
    pub particles: Vec<Particle>,
    pub matrix: InteractionMatrix,
    pub params: Params,
}

impl SimulationWorld {
    /// The state between ticks.
    pub open spec fn wf(&self) -> bool {
        &&& self.matrix.wf()
        &&& self.params.valid()
        &&& self.particles@.len() <= MAX_PARTICLES
        &&& settled(self.particles@, self.matrix.species as int)
    }

    /// Particle `k` after one tick of length `dt` in the viewport `h`:
    /// impulses from every other particle, integration, then reflection.
    pub open spec fn stepped(&self, dt: int, h: Vec2, k: int) -> Particle {
        let ps = self.particles@;
        reflected(
            integrated(
                with_pending(ps[k], accumulated(ps, self.matrix, self.params, dt, k, ps.len() as int)),
                self.params,
                dt,
            ),
            h,
        )
    }

    /// A world with the given population. Fails on an ill-formed matrix, on
    /// invalid parameters, and on a particle out of range, of an unknown
    /// species, or with a pending force, or on too many particles.
    pub fn new(matrix: InteractionMatrix, params: Params, particles: Vec<Particle>) -> (r: Result<
        SimulationWorld,
        ConfigError,
    >)
        ensures
            !matrix.wf() ==> r == Err::<SimulationWorld, ConfigError>(ConfigError::InvalidMatrix),
            matrix.wf() && !params.valid() ==> r == Err::<SimulationWorld, ConfigError>(
                ConfigError::InvalidParams,
            ),
            matrix.wf() && params.valid() && !(particles@.len() <= MAX_PARTICLES && settled(
                particles@,
                matrix.species as int,
            )) ==> r == Err::<SimulationWorld, ConfigError>(ConfigError::InvalidParticle),
            r is Ok <==> (matrix.wf() && params.valid() && particles@.len() <= MAX_PARTICLES
                && settled(particles@, matrix.species as int)),
            r matches Ok(w) ==> w.wf() && w.matrix == matrix && w.params == params
                && w.particles@ == particles@,
    {
        if !matrix.is_valid() {
            return Err(ConfigError::InvalidMatrix);
        }
        if let Err(e) = Params::new(
            params.min_dist,
            params.max_dist,
            params.global_strength,
            params.friction,
        ) {
            return Err(e);
        }
        if particles.len() > MAX_PARTICLES {
            return Err(ConfigError::InvalidParticle);
        }
        let mut i: usize = 0;
        while i < particles.len()
            invariant
                i <= particles@.len(),
                particles@.len() <= MAX_PARTICLES,
                matrix.wf(),
                params.valid(),
                forall|k: int|
                    0 <= k < i ==> (#[trigger] particles@[k]).in_bounds(matrix.species as int)
                        && particles@[k].pending_force.is_zero(),
            decreases particles@.len() - i,
        {
            let q = particles[i];
            if q.species >= matrix.species || q.position.x < -POS_LIMIT || q.position.x > POS_LIMIT
                || q.position.y < -POS_LIMIT || q.position.y > POS_LIMIT || q.velocity.x
                < -VEL_LIMIT || q.velocity.x > VEL_LIMIT || q.velocity.y < -VEL_LIMIT
                || q.velocity.y > VEL_LIMIT || q.pending_force.x != 0 || q.pending_force.y != 0 {
                return Err(ConfigError::InvalidParticle);
            }
            i += 1;
        }
        Ok(SimulationWorld { particles, matrix, params })
    }

    /// A world of `per_species` particles of each species, species by species,
    /// placed uniformly in `[-h, h)` on each axis with each velocity component
    /// uniform in `[-maxSpeed, maxSpeed)`.
    pub fn populate(
        matrix: InteractionMatrix,
        params: Params,
        per_species: usize,
        half_extent: Vec2,
        max_speed: i64,
        rng: &mut StdRng,
    ) -> (r: Result<SimulationWorld, ConfigError>)
        ensures
            !matrix.wf() ==> r == Err::<SimulationWorld, ConfigError>(ConfigError::InvalidMatrix),
            matrix.wf() && !params.valid() ==> r == Err::<SimulationWorld, ConfigError>(
                ConfigError::InvalidParams,
            ),
            matrix.wf() && params.valid() && !spawn_ok(
                matrix.species as int,
                per_species as int,
                half_extent,
                max_speed as int,
            ) ==> r == Err::<SimulationWorld, ConfigError>(ConfigError::InvalidParticle),
            r is Ok <==> (matrix.wf() && params.valid() && spawn_ok(
                matrix.species as int,
                per_species as int,
                half_extent,
                max_speed as int,
            )),
            r matches Ok(w) ==> {
                &&& w.wf()
                &&& w.matrix == matrix
                &&& w.params == params
                &&& w.particles@.len() == matrix.species * per_species
                &&& forall|k: int|
                    0 <= k < w.particles@.len() ==> {
                        let q = #[trigger] w.particles@[k];
                        &&& q.species == k / (per_species as int)
                        &&& -half_extent.x <= q.position.x < half_extent.x
                        &&& -half_extent.y <= q.position.y < half_extent.y
                        &&& -max_speed <= q.velocity.x < max_speed
                        &&& -max_speed <= q.velocity.y < max_speed
                    }
            },
    {
        if !matrix.is_valid() {
            return Err(ConfigError::InvalidMatrix);
        }
        if let Err(e) = Params::new(
            params.min_dist,
            params.max_dist,
            params.global_strength,
            params.friction,
        ) {
            return Err(e);
        }
        let species = matrix.species;
        if per_species > MAX_PARTICLES {
            assert(species * per_species >= per_species) by (nonlinear_arith)
                requires
                    species >= 1,
            ;
            return Err(ConfigError::InvalidParticle);
        }
        assert(species * per_species <= MAX_SPECIES * MAX_PARTICLES) by (nonlinear_arith)
            requires
                species <= MAX_SPECIES,
                per_species <= MAX_PARTICLES,
        ;
        if species * per_species > MAX_PARTICLES || half_extent.x < 1 || half_extent.x >= POS_LIMIT
            || half_extent.y < 1 || half_extent.y >= POS_LIMIT || max_speed < 1 || max_speed
            > VEL_LIMIT {
            return Err(ConfigError::InvalidParticle);
        }
        let mut particles: Vec<Particle> = Vec::new();
        let mut s: usize = 0;
        while s < species
            invariant
                s <= species,
                species == matrix.species,
                species * per_species <= MAX_PARTICLES,
                1 <= half_extent.x <= POS_LIMIT,
                1 <= half_extent.y <= POS_LIMIT,
                1 <= max_speed <= VEL_LIMIT,
                particles@.len() == s * per_species,
                forall|k: int|
                    0 <= k < particles@.len() ==> {
                        let q = #[trigger] particles@[k];
                        &&& q.species == k / (per_species as int)
                        &&& q.species < species
                        &&& q.pending_force.is_zero()
                        &&& -half_extent.x <= q.position.x < half_extent.x
                        &&& -half_extent.y <= q.position.y < half_extent.y
                        &&& -max_speed <= q.velocity.x < max_speed
                        &&& -max_speed <= q.velocity.y < max_speed
                    },
            decreases species - s,
        {
            let mut c: usize = 0;
            assert((s + 1) * per_species <= species * per_species) by (nonlinear_arith)
                requires
                    s < species,
            ;
            assert((s + 1) * per_species == s * per_species + per_species) by (nonlinear_arith);
            while c < per_species
                invariant
                    s < species,
                    c <= per_species,
                    species == matrix.species,
                    s * per_species + per_species <= MAX_PARTICLES,
                    1 <= half_extent.x <= POS_LIMIT,
                    1 <= half_extent.y <= POS_LIMIT,
                    1 <= max_speed <= VEL_LIMIT,
                    particles@.len() == s * per_species + c,
                    forall|k: int|
                        0 <= k < particles@.len() ==> {
                            let q = #[trigger] particles@[k];
                            &&& q.species == k / (per_species as int)
                            &&& q.species < species
                            &&& q.pending_force.is_zero()
                            &&& -half_extent.x <= q.position.x < half_extent.x
                            &&& -half_extent.y <= q.position.y < half_extent.y
                            &&& -max_speed <= q.velocity.x < max_speed
                            &&& -max_speed <= q.velocity.y < max_speed
                        },
                decreases per_species - c,
            {
                let x = draw_in(rng, -half_extent.x, half_extent.x);
                let y = draw_in(rng, -half_extent.y, half_extent.y);
                let vx = draw_in(rng, -max_speed, max_speed);
                let vy = draw_in(rng, -max_speed, max_speed);
                proof {
                    lemma_fundamental_div_mod_converse(
                        s * per_species + c,
                        per_species as int,
                        s as int,
                        c as int,
                    );
                }
                particles.push(Particle::new(Vec2 { x, y }, Vec2 { x: vx, y: vy }, s));
                c += 1;
            }
            s += 1;
        }
        Ok(SimulationWorld { particles, matrix, params })
    }

    /// Number of particles; constant for the life of the world.
    pub fn len(&self) -> (r: usize)
        ensures
            r == self.particles@.len(),
    {
        self.particles.len()
    }

    /// The position of every particle, for rendering.
    pub fn positions(&self) -> (r: Vec<Vec2>)
        ensures
            r@.len() == self.particles@.len(),
            forall|k: int| 0 <= k < r@.len() ==> #[trigger] r@[k] == self.particles@[k].position,
    {
        let mut out: Vec<Vec2> = Vec::new();
        let mut i: usize = 0;
        while i < self.particles.len()
            invariant
                i <= self.particles@.len(),
                out@.len() == i,
                forall|k: int| 0 <= k < i ==> #[trigger] out@[k] == self.particles@[k].position,
            decreases self.particles@.len() - i,
        {
            out.push(self.particles[i].position);
            i += 1;
        }
        out
    }

    /// The force phase: adds to each particle's pending force the impulses
    /// from every other particle within range.
    pub fn calculate_forces(&mut self, dt: i64)
        requires
            old(self).wf(),
            valid_dt(dt as int),
        ensures
            final(self).matrix == old(self).matrix,
            final(self).params == old(self).params,
            final(self).particles@.len() == old(self).particles@.len(),
            forall|k: int|
                0 <= k < final(self).particles@.len() ==> #[trigger] final(self).particles@[k]
                    == with_pending(
                    old(self).particles@[k],
                    accumulated(
                        old(self).particles@,
                        old(self).matrix,
                        old(self).params,
                        dt as int,
                        k,
                        old(self).particles@.len() as int,
                    ),
                ),
            forall|k: int|
                0 <= k < final(self).particles@.len() ==> motion_ok(
                    #[trigger] final(self).particles@[k],
                    final(self).matrix.species as int,
                ),
    {
        let ghost ps0 = self.particles@;
        proof {
            assert forall|k: int| 0 <= k < ps0.len() implies #[trigger] ps0[k].in_bounds(
                self.matrix.species as int,
            ) by {}
            assert(population_ok(ps0, self.matrix, self.params, dt as int));
        }
        accumulate_forces(&mut self.particles, &self.matrix, self.params, dt);
        proof {
            assert forall|k: int| 0 <= k < self.particles@.len() implies #[trigger] self.particles@[k]
                == with_pending(
                ps0[k],
                accumulated(ps0, self.matrix, self.params, dt as int, k, ps0.len() as int),
            ) && motion_ok(self.particles@[k], self.matrix.species as int) by {
                assert(same_motion(self.particles@[k], ps0[k]));
                assert(ps0[k].in_bounds(self.matrix.species as int));
                lemma_accumulated_bound(ps0, self.matrix, self.params, dt as int, k, ps0.len() as int);
            }
        }
    }

    /// The integration and reflection phases: per particle, friction, the
    /// pending impulse folded into velocity and cleared, the position advanced,
    /// then reflected at the viewport boundary `h`.
    pub fn update(&mut self, dt: i64, h: Vec2)
        requires
            old(self).matrix.wf(),
            old(self).params.valid(),
            old(self).particles@.len() <= MAX_PARTICLES,
            forall|k: int|
                0 <= k < old(self).particles@.len() ==> motion_ok(
                    #[trigger] old(self).particles@[k],
                    old(self).matrix.species as int,
                ),
            valid_dt(dt as int),
            valid_extent(h),
        ensures
            final(self).wf(),
            final(self).matrix == old(self).matrix,
            final(self).params == old(self).params,
            final(self).particles@.len() == old(self).particles@.len(),
            forall|k: int|
                0 <= k < final(self).particles@.len() ==> #[trigger] final(self).particles@[k]
                    == reflected(integrated(old(self).particles@[k], old(self).params, dt as int), h),
            forall|k: int|
                0 <= k < final(self).particles@.len() ==> within(
                    (#[trigger] final(self).particles@[k]).position.x as int,
                    h.x as int,
                ) && within(final(self).particles@[k].position.y as int, h.y as int),
    {
        let n = self.particles.len();
        let mut i: usize = 0;
        while i < n
            invariant
                i <= n,
                n == old(self).particles@.len(),
                self.particles@.len() == n,
                self.matrix == old(self).matrix,
                self.params == old(self).params,
                self.matrix.wf(),
                self.params.valid(),
                valid_dt(dt as int),
                valid_extent(h),
                forall|k: int|
                    0 <= k < i ==> #[trigger] self.particles@[k] == reflected(
                        integrated(old(self).particles@[k], self.params, dt as int),
                        h,
                    ) && self.particles@[k].in_bounds(self.matrix.species as int)
                        && self.particles@[k].pending_force.is_zero() && within(
                        self.particles@[k].position.x as int,
                        h.x as int,
                    ) && within(self.particles@[k].position.y as int, h.y as int),
                forall|k: int| i <= k < n ==> #[trigger] self.particles@[k] == old(self).particles@[k],
                forall|k: int|
                    0 <= k < n ==> motion_ok(
                        #[trigger] old(self).particles@[k],
                        old(self).matrix.species as int,
                    ),
            decreases n - i,
        {
            let q = self.particles[i];
            assert(motion_ok(old(self).particles@[i as int], self.matrix.species as int));
            let moved = integrate_particle(q, self.params, dt, Ghost(self.matrix.species as int));
            let r = reflect_particle(moved, h, Ghost(self.matrix.species as int));
            self.particles.set(i, r);
            i += 1;
        }
    }

    /// One tick: forces, then integration and reflection. The population keeps
    /// its size, every pending force is zero afterwards, and every particle is
    /// inside the viewport.
    pub fn tick(&mut self, dt: i64, h: Vec2)
        requires
            old(self).wf(),
            valid_dt(dt as int),
            valid_extent(h),
        ensures
            final(self).wf(),
            final(self).matrix == old(self).matrix,
            final(self).params == old(self).params,
            final(self).particles@.len() == old(self).particles@.len(),
            forall|k: int|
                0 <= k < final(self).particles@.len() ==> #[trigger] final(self).particles@[k]
                    == old(self).stepped(dt as int, h, k),
            forall|k: int|
                0 <= k < final(self).particles@.len() ==> (
                #[trigger] final(self).particles@[k]).pending_force.is_zero(),
            forall|k: int|
                0 <= k < final(self).particles@.len() ==> within(
                    (#[trigger] final(self).particles@[k]).position.x as int,
                    h.x as int,
                ) && within(final(self).particles@[k].position.y as int, h.y as int),
    {
        self.calculate_forces(dt);
        self.update(dt, h);
    }
}

} // verus!
