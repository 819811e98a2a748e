use particle_life::error::ConfigError;
use particle_life::force::calculate_force;
use particle_life::matrix::InteractionMatrix;
use particle_life::particle::{Params, Particle, Vec2, POS_LIMIT};
use particle_life::world::SimulationWorld;
use rand::rngs::StdRng;
use rand::SeedableRng;

fn still(x: i64, y: i64, species: usize) -> Particle {
    Particle::new(Vec2::new(x, y), Vec2::new(0, 0), species)
}

fn single_species_world(strength: i64, particles: Vec<Particle>) -> SimulationWorld {
    let matrix = InteractionMatrix::new(1, vec![strength]).unwrap();
    let params = Params::new(10_000, 100_000, 1_000, 0).unwrap();
    SimulationWorld::new(matrix, params, particles).unwrap()
}

#[test]
fn force_law_peaks_at_midpoint() {
    assert_eq!(calculate_force(55_000, 10_000, 100_000, 50_000), 50_000);
}

#[test]
fn force_law_branch_values() {
    // -1 at distance zero, whatever the strength
    assert_eq!(calculate_force(0, 10_000, 100_000, 50_000), -1_000);
    assert_eq!(calculate_force(0, 10_000, 100_000, -700), -1_000);
    // half-way into the repulsive range
    assert_eq!(calculate_force(5_000, 10_000, 100_000, 50_000), -500);
    // zero at both joints and beyond maxDist
    assert_eq!(calculate_force(10_000, 10_000, 100_000, 50_000), 0);
    assert_eq!(calculate_force(10_001, 10_000, 100_000, 50_000), 1);
    assert_eq!(calculate_force(100_000, 10_000, 100_000, 50_000), 0);
    assert_eq!(calculate_force(100_001, 10_000, 100_000, 50_000), 0);
    assert_eq!(calculate_force(5_000_000, 10_000, 100_000, 50_000), 0);
    // a quarter of the way: 1 - |2*32500 - 110000| / 90000 = 0.5
    assert_eq!(calculate_force(32_500, 10_000, 100_000, 50_000), 25_000);
    // negative strength rounds toward zero, mirroring the positive one
    assert_eq!(calculate_force(10_001, 10_000, 100_000, -50_000), -1);
}

#[test]
fn two_particles_attract_along_connecting_line() {
    let mut world = single_species_world(50_000, vec![still(-27_500, 0, 0), still(27_500, 0, 0)]);
    world.calculate_forces(1_000);
    assert_eq!(world.particles[0].pending_force, Vec2::new(50_000, 0));
    assert_eq!(world.particles[1].pending_force, Vec2::new(-50_000, 0));
    world.update(1_000, Vec2::new(400_000, 300_000));
    assert_eq!(world.particles[0].velocity, Vec2::new(50_000, 0));
    assert_eq!(world.particles[1].velocity, Vec2::new(-50_000, 0));
    assert_eq!(world.particles[0].position, Vec2::new(22_500, 0));
    assert_eq!(world.particles[1].position, Vec2::new(-22_500, 0));
    assert_eq!(world.particles[0].pending_force, Vec2::new(0, 0));
}

#[test]
fn diagonal_pair_uses_unit_direction() {
    // a 3-4-5 triangle: distance 55 along (0.6, 0.8)
    let mut world = single_species_world(50_000, vec![still(0, 0, 0), still(33_000, 44_000, 0)]);
    world.calculate_forces(1_000);
    assert_eq!(world.particles[0].pending_force, Vec2::new(30_000, 40_000));
    assert_eq!(world.particles[1].pending_force, Vec2::new(-30_000, -40_000));
}

#[test]
fn pair_out_of_range_has_no_effect() {
    let mut world = single_species_world(50_000, vec![still(0, 0, 0), still(100_000, 0, 0)]);
    world.calculate_forces(1_000);
    assert_eq!(world.particles[0].pending_force, Vec2::new(0, 0));
    assert_eq!(world.particles[1].pending_force, Vec2::new(0, 0));
}

#[test]
fn coincident_particles_get_no_force() {
    let mut world = single_species_world(50_000, vec![still(5_000, 5_000, 0), still(5_000, 5_000, 0)]);
    world.calculate_forces(1_000);
    assert_eq!(world.particles[0].pending_force, Vec2::new(0, 0));
    assert_eq!(world.particles[1].pending_force, Vec2::new(0, 0));
}

#[test]
fn symmetric_matrix_gives_equal_and_opposite_forces() {
    let matrix = InteractionMatrix::new(2, vec![300, -700, -700, 900]).unwrap();
    let params = Params::new(20_000, 60_000, 2_000, 300).unwrap();
    let particles = vec![still(1_000, 2_000, 0), still(31_000, -17_000, 1)];
    let mut world = SimulationWorld::new(matrix, params, particles).unwrap();
    world.calculate_forces(16);
    let a = world.particles[0].pending_force;
    let b = world.particles[1].pending_force;
    assert_ne!(a, Vec2::new(0, 0));
    assert_eq!(a.x, -b.x);
    assert_eq!(a.y, -b.y);
}

#[test]
fn asymmetric_matrix_acts_from_each_side() {
    let matrix = InteractionMatrix::new(2, vec![0, 1_000, -1_000, 0]).unwrap();
    let params = Params::new(10_000, 100_000, 1_000, 0).unwrap();
    let particles = vec![still(0, 0, 0), still(55_000, 0, 1)];
    let mut world = SimulationWorld::new(matrix, params, particles).unwrap();
    world.calculate_forces(1_000);
    // species 0 is drawn toward species 1; species 1 is pushed away from 0
    assert_eq!(world.particles[0].pending_force, Vec2::new(1_000, 0));
    assert_eq!(world.particles[1].pending_force, Vec2::new(1_000, 0));
}

#[test]
fn friction_damps_velocity() {
    let matrix = InteractionMatrix::new(1, vec![0]).unwrap();
    let params = Params::new(10_000, 100_000, 1_000, 300).unwrap();
    let particles = vec![Particle::new(Vec2::new(0, 0), Vec2::new(10_000, -5_000), 0)];
    let mut world = SimulationWorld::new(matrix, params, particles).unwrap();
    world.tick(1_000, Vec2::new(400_000, 300_000));
    // velocity *= 1 - 0.3 * 1
    assert_eq!(world.particles[0].velocity, Vec2::new(7_000, -3_500));
    assert_eq!(world.particles[0].position, Vec2::new(7_000, -3_500));
}

#[test]
fn particle_reflects_off_viewport_edge() {
    let matrix = InteractionMatrix::new(1, vec![0]).unwrap();
    let params = Params::new(10_000, 100_000, 1_000, 0).unwrap();
    let particles = vec![Particle::new(Vec2::new(0, 0), Vec2::new(10_000, 50_000), 0)];
    let mut world = SimulationWorld::new(matrix, params, particles).unwrap();
    let h = Vec2::new(400_000, 300_000);
    let mut flipped_at = None;
    for t in 1..=60 {
        world.tick(1_000, h);
        let q = world.particles[0];
        assert!(q.position.x.abs() <= 400_000);
        assert!(q.position.y.abs() <= 300_000);
        if flipped_at.is_none() && q.velocity.x < 0 {
            flipped_at = Some(t);
            assert_eq!(q.velocity.x, -10_000);
            assert_eq!(q.position.x, 400_000);
        }
    }
    // x would reach 410 on tick 41
    assert_eq!(flipped_at, Some(41));
}

#[test]
fn vertical_reflection_flips_vy() {
    let matrix = InteractionMatrix::new(1, vec![0]).unwrap();
    let params = Params::new(10_000, 100_000, 1_000, 0).unwrap();
    let particles = vec![Particle::new(Vec2::new(0, -290_000), Vec2::new(0, -50_000), 0)];
    let mut world = SimulationWorld::new(matrix, params, particles).unwrap();
    world.tick(1_000, Vec2::new(400_000, 300_000));
    assert_eq!(world.particles[0].velocity, Vec2::new(0, 50_000));
    assert_eq!(world.particles[0].position, Vec2::new(0, -300_000));
}

#[test]
fn six_species_swarm_survives_one_tick() {
    let mut rng = StdRng::seed_from_u64(7);
    let matrix = InteractionMatrix::generate(6, &mut rng);
    let params = Params::new(20_000, 60_000, 2_000, 300).unwrap();
    let h = Vec2::new(400_000, 300_000);
    let mut world = SimulationWorld::populate(matrix, params, 500, h, 5_000, &mut rng).unwrap();
    assert_eq!(world.len(), 3000);
    world.tick(16, h);
    assert_eq!(world.len(), 3000);
    for q in world.particles.iter() {
        assert_eq!(q.pending_force, Vec2::new(0, 0));
        assert!(q.position.x.abs() <= h.x && q.position.y.abs() <= h.y);
    }
    assert_eq!(world.positions().len(), 3000);
}

#[test]
fn generated_matrix_is_in_unit_range_and_varied() {
    let mut rng = StdRng::seed_from_u64(11);
    let matrix = InteractionMatrix::generate(6, &mut rng);
    assert_eq!(matrix.species, 6);
    assert_eq!(matrix.coefficients.len(), 36);
    for &c in matrix.coefficients.iter() {
        assert!((-1_000..=1_000).contains(&c));
    }
    assert!(matrix.coefficients.iter().any(|&c| c != -1_000));
    assert_eq!(matrix.get(2, 3), matrix.coefficients[2 * 6 + 3]);
    let again = InteractionMatrix::generate(6, &mut StdRng::seed_from_u64(11));
    assert_eq!(again.coefficients, matrix.coefficients);
}

#[test]
fn populate_places_species_in_blocks_inside_viewport() {
    let mut rng = StdRng::seed_from_u64(3);
    let matrix = InteractionMatrix::new(3, vec![0; 9]).unwrap();
    let params = Params::new(20_000, 60_000, 2_000, 300).unwrap();
    let h = Vec2::new(400_000, 300_000);
    let world = SimulationWorld::populate(matrix, params, 4, h, 5_000, &mut rng).unwrap();
    assert_eq!(world.len(), 12);
    for (k, q) in world.particles.iter().enumerate() {
        assert_eq!(q.species, k / 4);
        assert!(-h.x <= q.position.x && q.position.x < h.x);
        assert!(-h.y <= q.position.y && q.position.y < h.y);
        assert!(-5_000 <= q.velocity.x && q.velocity.x < 5_000);
        assert!(-5_000 <= q.velocity.y && q.velocity.y < 5_000);
    }
    assert!(world.particles.iter().any(|q| q.position.x != -h.x));
}

#[test]
fn populate_rejects_bad_setup() {
    let matrix = InteractionMatrix::new(1, vec![0]).unwrap();
    let params = Params::new(20_000, 60_000, 2_000, 300).unwrap();
    let mut rng = StdRng::seed_from_u64(1);
    let r = SimulationWorld::populate(matrix.clone(), params, 10, Vec2::new(0, 100), 5, &mut rng);
    assert_eq!(r.err(), Some(ConfigError::InvalidParticle));
    let r = SimulationWorld::populate(matrix.clone(), params, 10, Vec2::new(100, 100), 0, &mut rng);
    assert_eq!(r.err(), Some(ConfigError::InvalidParticle));
    let bad = Params { min_dist: 5, max_dist: 5, global_strength: 0, friction: 0 };
    let r = SimulationWorld::populate(matrix, bad, 10, Vec2::new(100, 100), 5, &mut rng);
    assert_eq!(r.err(), Some(ConfigError::InvalidParams));
}

#[test]
fn params_reject_bad_ranges() {
    assert_eq!(Params::new(10, 10, 0, 0), Err(ConfigError::InvalidParams));
    assert_eq!(Params::new(20, 10, 0, 0), Err(ConfigError::InvalidParams));
    assert_eq!(Params::new(0, 10, 0, 0), Err(ConfigError::InvalidParams));
    assert_eq!(Params::new(1, 10, 0, -1), Err(ConfigError::InvalidParams));
    assert_eq!(Params::new(1, 10, 2_000_000, 0), Err(ConfigError::InvalidParams));
    assert!(Params::new(1, 10, -1_000, 300).is_ok());
}

#[test]
fn matrix_rejects_bad_shapes() {
    assert_eq!(InteractionMatrix::new(0, vec![]).err(), Some(ConfigError::InvalidMatrix));
    assert_eq!(InteractionMatrix::new(2, vec![1, 2, 3]).err(), Some(ConfigError::InvalidMatrix));
    assert_eq!(
        InteractionMatrix::new(1, vec![1_000_001]).err(),
        Some(ConfigError::InvalidMatrix)
    );
    let m = InteractionMatrix::new(2, vec![1, 2, 3, 4]).unwrap();
    assert_eq!(m.get(0, 1), 2);
    assert_eq!(m.get(1, 0), 3);
}

#[test]
fn world_rejects_bad_particles() {
    let matrix = InteractionMatrix::new(1, vec![0]).unwrap();
    let params = Params::new(10_000, 100_000, 1_000, 0).unwrap();
    let r = SimulationWorld::new(matrix.clone(), params, vec![still(0, 0, 1)]);
    assert_eq!(r.err(), Some(ConfigError::InvalidParticle));
    let mut pushed = still(0, 0, 0);
    pushed.pending_force = Vec2::new(1, 0);
    let r = SimulationWorld::new(matrix.clone(), params, vec![pushed]);
    assert_eq!(r.err(), Some(ConfigError::InvalidParticle));
    let broken = InteractionMatrix { species: 2, coefficients: vec![0] };
    let r = SimulationWorld::new(broken, params, vec![]);
    assert_eq!(r.err(), Some(ConfigError::InvalidMatrix));
}

#[test]
fn symmetric_matrix_forces_sum_to_zero() {
    let matrix = InteractionMatrix::new(2, vec![800, -300, -300, 500]).unwrap();
    let params = Params::new(20_000, 60_000, 2_000, 300).unwrap();
    let particles = vec![
        still(0, 0, 0),
        still(25_000, 10_000, 1),
        still(-12_000, 30_000, 0),
        still(5_000, -41_000, 1),
    ];
    let mut world = SimulationWorld::new(matrix, params, particles).unwrap();
    world.calculate_forces(16);
    let sx: i64 = world.particles.iter().map(|q| q.pending_force.x).sum();
    let sy: i64 = world.particles.iter().map(|q| q.pending_force.y).sum();
    assert_eq!((sx, sy), (0, 0));
    assert!(world.particles.iter().any(|q| q.pending_force != Vec2::new(0, 0)));
}

#[test]
fn near_coincident_push_is_at_most_unit() {
    // 0.001 apart on each axis: deep in the repulsive range, ForceLaw = -1
    let mut world = single_species_world(1_000, vec![still(0, 0, 0), still(1, 1, 0)]);
    world.calculate_forces(1_000);
    let a = world.particles[0].pending_force;
    let b = world.particles[1].pending_force;
    assert_eq!(a, Vec2::new(-500, -500));
    assert_eq!(b, Vec2::new(500, 500));
    assert!(a.x * a.x + a.y * a.y <= 1_000 * 1_000);
}

#[test]
fn saturated_particle_still_reflects() {
    let matrix = InteractionMatrix::new(1, vec![0]).unwrap();
    let params = Params::new(10_000, 100_000, 1_000, 0).unwrap();
    let particles = vec![Particle::new(Vec2::new(POS_LIMIT - 5, 0), Vec2::new(100_000, 0), 0)];
    let mut world = SimulationWorld::new(matrix, params, particles).unwrap();
    let h = Vec2::new(POS_LIMIT - 1, 300_000);
    world.tick(1_000, h);
    assert_eq!(world.particles[0].position.x, POS_LIMIT - 1);
    assert_eq!(world.particles[0].velocity.x, -100_000);
}
