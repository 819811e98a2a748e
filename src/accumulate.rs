//! Force accumulation: every unordered pair of particles within range adds a
//! directional impulse to each particle's pending force.
use crate::fixed::{
    ceil_root, div_trunc, floor_sqrt, is_floor_sqrt, isqrt, lemma_floor_sqrt_unique,
    lemma_quot_trunc_bound, lemma_quot_trunc_mul_le, lemma_quot_trunc_neg, lemma_square_monotonic,
    quot_trunc, SCALE,
};
use crate::force::{
    abs, calculate_force, force_law, lemma_force_law_magnitude, valid_strength, COEF_LIMIT,
};
use crate::matrix::InteractionMatrix;
use crate::particle::{valid_dt, within, Params, Particle, Vec2, DT_LIMIT, POS_LIMIT};
use vstd::arithmetic::div_mod::lemma_div_by_multiple;
use vstd::prelude::*;

verus! {

/// Divisor that turns `direction * magnitude * strength * dt` back into
/// fixed-point: each of the four factors carries one `SCALE`.
pub const CUBE_SCALE: i128 = 1_000_000_000;

/// Largest magnitude of one pair's contribution to a force component.
pub const PAIR_FORCE_LIMIT: i64 = 100_000_000_000;

/// Largest admissible number of particles.
pub const MAX_PARTICLES: usize = 0x10_0000;

/// Largest magnitude of an accumulated force component.
pub const FORCE_LIMIT: i64 = 104_857_600_000_000_000;

pub open spec fn force_of(v: Vec2) -> (int, int) {
    (v.x as int, v.y as int)
}

/// One component of an impulse: the unit direction `u` (fixed-point) scaled by
/// `k = magnitude * globalStrength * dt`.
pub open spec fn impulse(u: int, k: int) -> int {
    quot_trunc(u * k, CUBE_SCALE as int)
}

/// Unit direction of `(dx, dy)` in fixed point: each component is divided by
/// the distance rounded up, so the vector is never longer than `SCALE`.
pub open spec fn direction(dx: int, dy: int) -> (int, int) {
    let c = ceil_root(dx * dx + dy * dy);
    (quot_trunc(dx * SCALE, c), quot_trunc(dy * SCALE, c))
}

/// `u` is no longer than one unit.
pub open spec fn within_unit(u: (int, int)) -> bool {
    u.0 * u.0 + u.1 * u.1 <= SCALE * SCALE
}

/// Impulse on a particle at `a` from a particle at `b`, with coefficient
/// `strength`: zero for coincident particles and from `maxDist` on, else
/// `normalize(b - a) * ForceLaw(d) * globalStrength * dt`.
pub open spec fn pair_force(a: Vec2, b: Vec2, strength: int, p: Params, dt: int) -> (int, int) {
    let dx = b.x - a.x;
    let dy = b.y - a.y;
    let d = floor_sqrt(dx * dx + dy * dy);
    if d == 0 || d >= p.max_dist {
        (0, 0)
    } else {
        let k = pair_scale(a, b, strength, p, dt);
        let u = direction(dx, dy);
        (impulse(u.0, k), impulse(u.1, k))
    }
}

/// `ForceLaw(d) * globalStrength * dt` for the pair, before the direction is
/// applied.
pub open spec fn pair_scale(a: Vec2, b: Vec2, strength: int, p: Params, dt: int) -> int {
    let dx = b.x - a.x;
    let dy = b.y - a.y;
    let d = floor_sqrt(dx * dx + dy * dy);
    force_law(d, p.min_dist as int, p.max_dist as int, strength) * p.global_strength * dt
}

pub proof fn lemma_floor_sqrt_exists(n: int)
    requires
        0 <= n,
    ensures
        is_floor_sqrt(floor_sqrt(n), n),
    decreases n,
{
    if n == 0 {
        assert(is_floor_sqrt(0, 0));
    } else {
        lemma_floor_sqrt_exists(n - 1);
        let r = floor_sqrt(n - 1);
        if (r + 1) * (r + 1) <= n {
            assert((r + 2) * (r + 2) == (r + 1) * (r + 1) + 2 * r + 3) by (nonlinear_arith);
            assert(is_floor_sqrt(r + 1, n));
        } else {
            assert(is_floor_sqrt(r, n));
        }
    }
}

/// A coordinate difference is at most the floor of the distance.
proof fn lemma_component_within_distance(dx: int, dy: int, d: int)
    requires
        is_floor_sqrt(d, dx * dx + dy * dy),
    ensures
        abs(dx) <= d,
{
    assert(dy * dy >= 0) by (nonlinear_arith);
    if abs(dx) > d {
        assert(abs(dx) * abs(dx) >= (d + 1) * (d + 1)) by (nonlinear_arith)
            requires
                abs(dx) >= d + 1,
                d >= 0,
        ;
        assert(abs(dx) * abs(dx) == dx * dx) by (nonlinear_arith);
    }
}

/// `|quot_trunc(c * SCALE, d)| <= SCALE` when `|c| <= d`.
proof fn lemma_direction_bound(c: int, d: int)
    requires
        d > 0,
        abs(c) <= d,
    ensures
        within(quot_trunc(c * SCALE, d), SCALE as int),
{
    assert(within(c * SCALE, SCALE * d)) by (nonlinear_arith)
        requires
            abs(c) <= d,
    ;
    lemma_quot_trunc_bound(c * SCALE, d, SCALE * d);
    lemma_div_by_multiple(SCALE as int, d);
    assert(SCALE * d == d * SCALE) by (nonlinear_arith);
}

/// The direction of a non-zero offset is at most one unit long, each
/// component is at most one unit, and reversing the offset reverses it.
pub proof fn lemma_direction_unit(dx: int, dy: int)
    requires
        dx != 0 || dy != 0,
    ensures
        within_unit(direction(dx, dy)),
        within(direction(dx, dy).0, SCALE as int),
        within(direction(dx, dy).1, SCALE as int),
        direction(-dx, -dy) == (-direction(dx, dy).0, -direction(dx, dy).1),
        ceil_root(dx * dx + dy * dy) >= 1,
{
    let n = dx * dx + dy * dy;
    assert(n > 0) by (nonlinear_arith)
        requires
            dx != 0 || dy != 0,
            n == dx * dx + dy * dy,
    ;
    lemma_floor_sqrt_exists(n);
    let d = floor_sqrt(n);
    let c = ceil_root(n);
    assert(c * c >= n && c >= d) by {
        if d * d != n {
            assert((d + 1) * (d + 1) > n);
        }
    }
    assert(c >= 1) by (nonlinear_arith)
        requires
            c * c >= n,
            n > 0,
            c >= 0,
    ;
    lemma_component_within_distance(dx, dy, d);
    assert(dy * dy + dx * dx == n);
    lemma_component_within_distance(dy, dx, d);
    lemma_direction_bound(dx, c);
    lemma_direction_bound(dy, c);
    let u = direction(dx, dy);
    lemma_quot_trunc_mul_le(dx * SCALE, c);
    lemma_quot_trunc_mul_le(dy * SCALE, c);
    let q = abs(u.0);
    let r = abs(u.1);
    assert(abs(dx * SCALE) == abs(dx) * SCALE);
    assert(abs(dy * SCALE) == abs(dy) * SCALE);
    assert(abs(dx) * abs(dx) == dx * dx) by (nonlinear_arith);
    assert(abs(dy) * abs(dy) == dy * dy) by (nonlinear_arith);
    lemma_square_monotonic(q * c, abs(dx) * SCALE);
    lemma_square_monotonic(r * c, abs(dy) * SCALE);
    assert((q * c) * (q * c) + (r * c) * (r * c) <= (SCALE * SCALE) * (c * c)) by (nonlinear_arith)
        requires
            (q * c) * (q * c) <= (abs(dx) * SCALE) * (abs(dx) * SCALE),
            (r * c) * (r * c) <= (abs(dy) * SCALE) * (abs(dy) * SCALE),
            abs(dx) * abs(dx) == dx * dx,
            abs(dy) * abs(dy) == dy * dy,
            dx * dx + dy * dy <= c * c,
    ;
    assert(q * q + r * r <= SCALE * SCALE) by (nonlinear_arith)
        requires
            (q * c) * (q * c) + (r * c) * (r * c) <= (SCALE * SCALE) * (c * c),
            c >= 1,
            q >= 0,
            r >= 0,
    ;
    assert(u.0 * u.0 == q * q) by (nonlinear_arith)
        requires
            q == abs(u.0),
    ;
    assert(u.1 * u.1 == r * r) by (nonlinear_arith)
        requires
            r == abs(u.1),
    ;
    assert((-dx) * (-dx) + (-dy) * (-dy) == n) by (nonlinear_arith)
        requires
            n == dx * dx + dy * dy,
    ;
    assert((-dx) * SCALE == -(dx * SCALE));
    assert((-dy) * SCALE == -(dy * SCALE));
    lemma_quot_trunc_neg(dx * SCALE, c);
    lemma_quot_trunc_neg(dy * SCALE, c);
}

proof fn lemma_floor_sqrt_zero()
    ensures
        floor_sqrt(0) == 0,
{
    lemma_floor_sqrt_unique(0, 0);
}

pub open spec fn impulse_scale_limit() -> int {
    COEF_LIMIT * COEF_LIMIT * DT_LIMIT
}

proof fn lemma_impulse_bound(u: int, k: int)
    requires
        within(u, SCALE as int),
        within(k, impulse_scale_limit()),
    ensures
        within(impulse(u, k), PAIR_FORCE_LIMIT as int),
        within(u * k, SCALE * impulse_scale_limit()),
{
    assert(within(u * k, SCALE * impulse_scale_limit())) by (nonlinear_arith)
        requires
            within(u, SCALE as int),
            within(k, impulse_scale_limit()),
    ;
    lemma_quot_trunc_bound(u * k, CUBE_SCALE as int, SCALE * impulse_scale_limit());
}

proof fn lemma_scale_bound(m: int, g: int, dt: int)
    requires
        within(m, COEF_LIMIT as int),
        within(g, COEF_LIMIT as int),
        valid_dt(dt),
    ensures
        within(m * g * dt, impulse_scale_limit()),
        within(m * g, COEF_LIMIT * COEF_LIMIT),
{
    assert(within(m * g, COEF_LIMIT * COEF_LIMIT)) by (nonlinear_arith)
        requires
            within(m, COEF_LIMIT as int),
            within(g, COEF_LIMIT as int),
    ;
    assert(within(m * g * dt, impulse_scale_limit())) by (nonlinear_arith)
        requires
            within(m * g, COEF_LIMIT * COEF_LIMIT),
            0 <= dt <= DT_LIMIT,
    ;
}

pub open spec fn pair_inputs_ok(a: Vec2, b: Vec2, strength: int, p: Params, dt: int) -> bool {
    &&& within(a.x as int, POS_LIMIT as int)
    &&& within(a.y as int, POS_LIMIT as int)
    &&& within(b.x as int, POS_LIMIT as int)
    &&& within(b.y as int, POS_LIMIT as int)
    &&& valid_strength(strength)
    &&& p.valid()
    &&& valid_dt(dt)
}

/// Each component of one pair's impulse is bounded.
pub proof fn lemma_pair_force_bound(a: Vec2, b: Vec2, strength: int, p: Params, dt: int)
    requires
        pair_inputs_ok(a, b, strength, p, dt),
    ensures
        within(pair_force(a, b, strength, p, dt).0, PAIR_FORCE_LIMIT as int),
        within(pair_force(a, b, strength, p, dt).1, PAIR_FORCE_LIMIT as int),
{
    let dx = b.x - a.x;
    let dy = b.y - a.y;
    assert(dx * dx + dy * dy >= 0) by (nonlinear_arith);
    lemma_floor_sqrt_exists(dx * dx + dy * dy);
    let d = floor_sqrt(dx * dx + dy * dy);
    if d != 0 && d < p.max_dist {
        let m = force_law(d, p.min_dist as int, p.max_dist as int, strength);
        lemma_force_law_magnitude(d, p.min_dist as int, p.max_dist as int, strength);
        lemma_scale_bound(m, p.global_strength as int, dt);
        lemma_component_within_distance(dx, dy, d);
        assert(dy * dy + dx * dx == dx * dx + dy * dy);
        lemma_component_within_distance(dy, dx, d);
        if dx == 0 && dy == 0 {
            lemma_floor_sqrt_zero();
        }
        lemma_direction_unit(dx, dy);
        lemma_impulse_bound(direction(dx, dy).0, m * p.global_strength * dt);
        lemma_impulse_bound(direction(dx, dy).1, m * p.global_strength * dt);
    }
}

/// With the same coefficient both ways, the impulses on the two particles of a
/// pair are equal and opposite.
pub proof fn lemma_pair_force_balanced(a: Vec2, b: Vec2, strength: int, p: Params, dt: int)
    ensures
        pair_force(b, a, strength, p, dt).0 == -pair_force(a, b, strength, p, dt).0,
        pair_force(b, a, strength, p, dt).1 == -pair_force(a, b, strength, p, dt).1,
{
    let dx = b.x - a.x;
    let dy = b.y - a.y;
    assert((-dx) * (-dx) + (-dy) * (-dy) == dx * dx + dy * dy) by (nonlinear_arith);
    assert(dx * dx + dy * dy >= 0) by (nonlinear_arith);
    lemma_floor_sqrt_exists(dx * dx + dy * dy);
    let d = floor_sqrt(dx * dx + dy * dy);
    if d != 0 && d < p.max_dist {
        if dx == 0 && dy == 0 {
            lemma_floor_sqrt_zero();
        }
        lemma_direction_unit(dx, dy);
        let k = pair_scale(a, b, strength, p, dt);
        assert(pair_scale(b, a, strength, p, dt) == k);
        let u = direction(dx, dy);
        assert(a.x - b.x == -dx && a.y - b.y == -dy);
        assert((-u.0) * k == -(u.0 * k)) by (nonlinear_arith);
        assert((-u.1) * k == -(u.1 * k)) by (nonlinear_arith);
        lemma_quot_trunc_neg(u.0 * k, CUBE_SCALE as int);
        lemma_quot_trunc_neg(u.1 * k, CUBE_SCALE as int);
    }
}

/// One pair's impulse is never longer than `|ForceLaw(d)| * globalStrength * dt`:
/// in fixed point, its squared length times `SCALE^4` is at most the square of
/// `pair_scale`, which carries three factors of `SCALE`.
pub proof fn lemma_pair_force_length(a: Vec2, b: Vec2, strength: int, p: Params, dt: int)
    ensures
        ({
            let f = pair_force(a, b, strength, p, dt);
            let k = pair_scale(a, b, strength, p, dt);
            (f.0 * f.0 + f.1 * f.1) * 1_000_000_000_000 <= k * k
        }),
{
    let dx = b.x - a.x;
    let dy = b.y - a.y;
    let k = pair_scale(a, b, strength, p, dt);
    assert(k * k >= 0) by (nonlinear_arith);
    assert(dx * dx + dy * dy >= 0) by (nonlinear_arith);
    lemma_floor_sqrt_exists(dx * dx + dy * dy);
    let d = floor_sqrt(dx * dx + dy * dy);
    if d == 0 || d >= p.max_dist {
        assert(pair_force(a, b, strength, p, dt) == (0int, 0int));
    } else {
        if dx == 0 && dy == 0 {
            lemma_floor_sqrt_zero();
        }
        lemma_direction_unit(dx, dy);
        let u = direction(dx, dy);
        let f0 = impulse(u.0, k);
        let f1 = impulse(u.1, k);
        lemma_quot_trunc_mul_le(u.0 * k, CUBE_SCALE as int);
        lemma_quot_trunc_mul_le(u.1 * k, CUBE_SCALE as int);
        let g0 = abs(f0) * CUBE_SCALE;
        let g1 = abs(f1) * CUBE_SCALE;
        lemma_square_monotonic(g0, abs(u.0 * k));
        lemma_square_monotonic(g1, abs(u.1 * k));
        assert(abs(u.0 * k) * abs(u.0 * k) == (u.0 * u.0) * (k * k)) by (nonlinear_arith);
        assert(abs(u.1 * k) * abs(u.1 * k) == (u.1 * u.1) * (k * k)) by (nonlinear_arith);
        assert(g0 * g0 == (f0 * f0) * (CUBE_SCALE * CUBE_SCALE)) by (nonlinear_arith)
            requires
                g0 == abs(f0) * CUBE_SCALE,
        ;
        assert(g1 * g1 == (f1 * f1) * (CUBE_SCALE * CUBE_SCALE)) by (nonlinear_arith)
            requires
                g1 == abs(f1) * CUBE_SCALE,
        ;
        assert((u.0 * u.0 + u.1 * u.1) * (k * k) <= (SCALE * SCALE) * (k * k)) by (nonlinear_arith)
            requires
                u.0 * u.0 + u.1 * u.1 <= SCALE * SCALE,
        ;
        assert(pair_force(a, b, strength, p, dt) == (f0, f1));
        assert((f0 * f0 + f1 * f1) * 1_000_000_000_000 <= k * k) by (nonlinear_arith)
            requires
                (f0 * f0) * (CUBE_SCALE * CUBE_SCALE) <= (u.0 * u.0) * (k * k),
                (f1 * f1) * (CUBE_SCALE * CUBE_SCALE) <= (u.1 * u.1) * (k * k),
                (u.0 * u.0 + u.1 * u.1) * (k * k) <= (SCALE * SCALE) * (k * k),
        ;
    }
}

fn impulse_component(u: i128, k: i128) -> (r: i64)
    requires
        within(u as int, SCALE as int),
        within(k as int, impulse_scale_limit()),
    ensures
        r == impulse(u as int, k as int),
        within(r as int, PAIR_FORCE_LIMIT as int),
{
    proof {
        lemma_impulse_bound(u as int, k as int);
    }
    div_trunc(u * k, CUBE_SCALE) as i64
}

/// The impulses of one pair: on `a` from `b` with coefficient `s_ab`, and on
/// `b` from `a` with coefficient `s_ba`. The distance is computed once.
pub fn pair_forces(a: Vec2, b: Vec2, s_ab: i64, s_ba: i64, p: Params, dt: i64) -> (r: (
    Vec2,
    Vec2,
))
    requires
        pair_inputs_ok(a, b, s_ab as int, p, dt as int),
        valid_strength(s_ba as int),
    ensures
        force_of(r.0) == pair_force(a, b, s_ab as int, p, dt as int),
        force_of(r.1) == pair_force(b, a, s_ba as int, p, dt as int),
        b.x - a.x != 0 || b.y - a.y != 0 ==> within_unit(direction(b.x - a.x, b.y - a.y)),
        within(r.0.x as int, PAIR_FORCE_LIMIT as int),
        within(r.0.y as int, PAIR_FORCE_LIMIT as int),
        within(r.1.x as int, PAIR_FORCE_LIMIT as int),
        within(r.1.y as int, PAIR_FORCE_LIMIT as int),
{
    let dx: i64 = b.x - a.x;
    let dy: i64 = b.y - a.y;
    let ghost gdx = dx as int;
    let ghost gdy = dy as int;
    assert(0 <= gdx * gdx <= 0x400_0000_0000 * 0x400_0000_0000) by (nonlinear_arith)
        requires
            within(gdx, 0x200_0000_0000),
    ;
    assert(0 <= gdy * gdy <= 0x400_0000_0000 * 0x400_0000_0000) by (nonlinear_arith)
        requires
            within(gdy, 0x200_0000_0000),
    ;
    proof {
        if gdx != 0 || gdy != 0 {
            lemma_direction_unit(gdx, gdy);
        }
    }
    if dx <= -p.max_dist || dx >= p.max_dist || dy <= -p.max_dist || dy >= p.max_dist {
        proof {
            let n = gdx * gdx + gdy * gdy;
            assert(n >= 0) by (nonlinear_arith)
                requires
                    n == gdx * gdx + gdy * gdy,
            ;
            lemma_floor_sqrt_exists(n);
            assert((-gdx) * (-gdx) + (-gdy) * (-gdy) == n) by (nonlinear_arith)
                requires
                    n == gdx * gdx + gdy * gdy,
            ;
            lemma_component_within_distance(gdx, gdy, floor_sqrt(n));
            assert(gdy * gdy + gdx * gdx == n);
            lemma_component_within_distance(gdy, gdx, floor_sqrt(n));
        }
        return (Vec2 { x: 0, y: 0 }, Vec2 { x: 0, y: 0 });
    }
    let sq: i128 = dx as i128 * dx as i128 + dy as i128 * dy as i128;
    let d: u64 = isqrt(sq as u128);
    proof {
        assert((-gdx) * (-gdx) + (-gdy) * (-gdy) == gdx * gdx + gdy * gdy) by (nonlinear_arith);
        assert(d * d <= sq) by (nonlinear_arith)
            requires
                is_floor_sqrt(d as int, sq as int),
        ;
        assert(d <= 0x1_0000_0000_0000) by (nonlinear_arith)
            requires
                d * d <= sq,
                sq <= 2 * 0x400_0000_0000 * 0x400_0000_0000,
        ;
        lemma_pair_force_bound(a, b, s_ab as int, p, dt as int);
        lemma_pair_force_bound(b, a, s_ba as int, p, dt as int);
    }
    if d == 0 || d >= p.max_dist as u64 {
        return (Vec2 { x: 0, y: 0 }, Vec2 { x: 0, y: 0 });
    }
    let d: i64 = d as i64;
    let m_ab = calculate_force(d, p.min_dist, p.max_dist, s_ab);
    let m_ba = calculate_force(d, p.min_dist, p.max_dist, s_ba);
    proof {
        lemma_scale_bound(m_ab as int, p.global_strength as int, dt as int);
        lemma_scale_bound(m_ba as int, p.global_strength as int, dt as int);
        lemma_component_within_distance(gdx, gdy, d as int);
        assert(gdy * gdy + gdx * gdx == gdx * gdx + gdy * gdy);
        lemma_component_within_distance(gdy, gdx, d as int);
        if gdx == 0 && gdy == 0 {
            lemma_floor_sqrt_zero();
        }
        lemma_direction_unit(gdx, gdy);
        assert(a.x - b.x == -gdx && a.y - b.y == -gdy);
    }
    let k_ab: i128 = m_ab as i128 * p.global_strength as i128 * dt as i128;
    let k_ba: i128 = m_ba as i128 * p.global_strength as i128 * dt as i128;
    let wide: i128 = d as i128;
    let c: i128 = if wide * wide == sq {
        wide
    } else {
        wide + 1
    };
    assert(c == ceil_root(sq as int));
    let ux: i128 = div_trunc(dx as i128 * SCALE as i128, c);
    let uy: i128 = div_trunc(dy as i128 * SCALE as i128, c);
    let on_a = Vec2 { x: impulse_component(ux, k_ab), y: impulse_component(uy, k_ab) };
    let on_b = Vec2 { x: impulse_component(-ux, k_ba), y: impulse_component(-uy, k_ba) };
    (on_a, on_b)
}

/// Impulse on particle `k` from particle `j` of the population `ps`.
pub open spec fn contribution(
    ps: Seq<Particle>,
    m: InteractionMatrix,
    p: Params,
    dt: int,
    k: int,
    j: int,
) -> (int, int) {
    if j == k {
        (0, 0)
    } else {
        pair_force(
            ps[k].position,
            ps[j].position,
            m.coef(ps[k].species as int, ps[j].species as int),
            p,
            dt,
        )
    }
}

/// Sum of the impulses on particle `k` from particles `0..hi`.
pub open spec fn accumulated(
    ps: Seq<Particle>,
    m: InteractionMatrix,
    p: Params,
    dt: int,
    k: int,
    hi: int,
) -> (int, int)
    decreases hi,
{
    if hi <= 0 {
        (0, 0)
    } else {
        let prev = accumulated(ps, m, p, dt, k, hi - 1);
        let c = contribution(ps, m, p, dt, k, hi - 1);
        (prev.0 + c.0, prev.1 + c.1)
    }
}

/// Inputs on which a force pass is defined.
pub open spec fn population_ok(ps: Seq<Particle>, m: InteractionMatrix, p: Params, dt: int) -> bool {
    &&& m.wf()
    &&& p.valid()
    &&& valid_dt(dt)
    &&& ps.len() <= MAX_PARTICLES
    &&& forall|k: int| 0 <= k < ps.len() ==> #[trigger] ps[k].in_bounds(m.species as int)
}

pub proof fn lemma_contribution_bound(
    ps: Seq<Particle>,
    m: InteractionMatrix,
    p: Params,
    dt: int,
    k: int,
    j: int,
)
    requires
        population_ok(ps, m, p, dt),
        0 <= k < ps.len(),
        0 <= j < ps.len(),
    ensures
        within(contribution(ps, m, p, dt, k, j).0, PAIR_FORCE_LIMIT as int),
        within(contribution(ps, m, p, dt, k, j).1, PAIR_FORCE_LIMIT as int),
{
    if j != k {
        assert(ps[k].in_bounds(m.species as int));
        assert(ps[j].in_bounds(m.species as int));
        m.lemma_coef_valid(ps[k].species as int, ps[j].species as int);
        lemma_pair_force_bound(
            ps[k].position,
            ps[j].position,
            m.coef(ps[k].species as int, ps[j].species as int),
            p,
            dt,
        );
    }
}

pub proof fn lemma_accumulated_bound(
    ps: Seq<Particle>,
    m: InteractionMatrix,
    p: Params,
    dt: int,
    k: int,
    hi: int,
)
    requires
        population_ok(ps, m, p, dt),
        0 <= k < ps.len(),
        0 <= hi <= ps.len(),
    ensures
        within(accumulated(ps, m, p, dt, k, hi).0, hi * PAIR_FORCE_LIMIT),
        within(accumulated(ps, m, p, dt, k, hi).1, hi * PAIR_FORCE_LIMIT),
        within(accumulated(ps, m, p, dt, k, hi).0, FORCE_LIMIT as int),
        within(accumulated(ps, m, p, dt, k, hi).1, FORCE_LIMIT as int),
    decreases hi,
{
    if hi > 0 {
        lemma_accumulated_bound(ps, m, p, dt, k, hi - 1);
        lemma_contribution_bound(ps, m, p, dt, k, hi - 1);
    }
}

/// Under a symmetric matrix, the impulses that two particles receive from each
/// other are equal and opposite.
pub proof fn lemma_symmetric_contributions_balanced(
    ps: Seq<Particle>,
    m: InteractionMatrix,
    p: Params,
    dt: int,
    i: int,
    j: int,
)
    requires
        m.is_symmetric(),
        0 <= i < ps.len(),
        0 <= j < ps.len(),
        ps[i].species < m.species,
        ps[j].species < m.species,
    ensures
        contribution(ps, m, p, dt, j, i).0 == -contribution(ps, m, p, dt, i, j).0,
        contribution(ps, m, p, dt, j, i).1 == -contribution(ps, m, p, dt, i, j).1,
{
    if i != j {
        let si = ps[i].species as int;
        let sj = ps[j].species as int;
        assert(m.coef(si, sj) == m.coef(sj, si));
        lemma_pair_force_balanced(ps[i].position, ps[j].position, m.coef(si, sj), p, dt);
    }
}

/// Sum of the impulses that particles `0..hi` receive from particle `j`.
pub open spec fn received_from(
    ps: Seq<Particle>,
    m: InteractionMatrix,
    p: Params,
    dt: int,
    j: int,
    hi: int,
) -> (int, int)
    decreases hi,
{
    if hi <= 0 {
        (0, 0)
    } else {
        let prev = received_from(ps, m, p, dt, j, hi - 1);
        let c = contribution(ps, m, p, dt, hi - 1, j);
        (prev.0 + c.0, prev.1 + c.1)
    }
}

/// Sum over particles `0..hi` of the impulses each receives from particles
/// `0..from`.
pub open spec fn total_force(
    ps: Seq<Particle>,
    m: InteractionMatrix,
    p: Params,
    dt: int,
    hi: int,
    from: int,
) -> (int, int)
    decreases hi,
{
    if hi <= 0 {
        (0, 0)
    } else {
        let prev = total_force(ps, m, p, dt, hi - 1, from);
        let a = accumulated(ps, m, p, dt, hi - 1, from);
        (prev.0 + a.0, prev.1 + a.1)
    }
}

proof fn lemma_total_force_extend(
    ps: Seq<Particle>,
    m: InteractionMatrix,
    p: Params,
    dt: int,
    hi: int,
    from: int,
)
    requires
        0 <= hi,
        0 <= from,
    ensures
        total_force(ps, m, p, dt, hi, from + 1).0 == total_force(ps, m, p, dt, hi, from).0
            + received_from(ps, m, p, dt, from, hi).0,
        total_force(ps, m, p, dt, hi, from + 1).1 == total_force(ps, m, p, dt, hi, from).1
            + received_from(ps, m, p, dt, from, hi).1,
    decreases hi,
{
    if hi > 0 {
        lemma_total_force_extend(ps, m, p, dt, hi - 1, from);
    }
}

proof fn lemma_received_mirrors_accumulated(
    ps: Seq<Particle>,
    m: InteractionMatrix,
    p: Params,
    dt: int,
    j: int,
    hi: int,
)
    requires
        m.is_symmetric(),
        0 <= j < ps.len(),
        0 <= hi <= ps.len(),
        forall|k: int| 0 <= k < ps.len() ==> (#[trigger] ps[k]).species < m.species,
    ensures
        received_from(ps, m, p, dt, j, hi).0 == -accumulated(ps, m, p, dt, j, hi).0,
        received_from(ps, m, p, dt, j, hi).1 == -accumulated(ps, m, p, dt, j, hi).1,
    decreases hi,
{
    if hi > 0 {
        lemma_received_mirrors_accumulated(ps, m, p, dt, j, hi - 1);
        assert(ps[hi - 1].species < m.species);
        assert(ps[j].species < m.species);
        lemma_symmetric_contributions_balanced(ps, m, p, dt, hi - 1, j);
    }
}

/// Under a symmetric matrix one force pass creates no net impulse: the
/// impulses that all particles receive from all others sum to zero.
pub proof fn lemma_symmetric_forces_cancel(
    ps: Seq<Particle>,
    m: InteractionMatrix,
    p: Params,
    dt: int,
)
    requires
        m.is_symmetric(),
        forall|k: int| 0 <= k < ps.len() ==> (#[trigger] ps[k]).species < m.species,
    ensures
        total_force(ps, m, p, dt, ps.len() as int, ps.len() as int) == (0int, 0int),
{
    lemma_symmetric_forces_cancel_upto(ps, m, p, dt, ps.len() as int);
}

proof fn lemma_symmetric_forces_cancel_upto(
    ps: Seq<Particle>,
    m: InteractionMatrix,
    p: Params,
    dt: int,
    a: int,
)
    requires
        m.is_symmetric(),
        0 <= a <= ps.len(),
        forall|k: int| 0 <= k < ps.len() ==> (#[trigger] ps[k]).species < m.species,
    ensures
        total_force(ps, m, p, dt, a, a) == (0int, 0int),
    decreases a,
{
    if a > 0 {
        let b = a - 1;
        lemma_symmetric_forces_cancel_upto(ps, m, p, dt, b);
        lemma_total_force_extend(ps, m, p, dt, a, b);
        lemma_received_mirrors_accumulated(ps, m, p, dt, b, b);
        assert(contribution(ps, m, p, dt, b, b) == (0int, 0int));
        assert(received_from(ps, m, p, dt, b, a) == received_from(ps, m, p, dt, b, b));
        assert(total_force(ps, m, p, dt, a, b).0 == total_force(ps, m, p, dt, b, b).0
            + accumulated(ps, m, p, dt, b, b).0);
    }
}

/// Position, velocity and species are those of `q`.
pub open spec fn same_motion(r: Particle, q: Particle) -> bool {
    r.position == q.position && r.velocity == q.velocity && r.species == q.species
}

/// How many leading particles' impulses particle `k` has received when the
/// pair loop stands at `(i, j)`.
spec fn progress(n: int, i: int, j: int, k: int) -> int {
    if k < i {
        n
    } else if k == i {
        j
    } else if k < j {
        i + 1
    } else {
        i
    }
}

/// Adds to each particle's pending force the impulses from all other
/// particles, visiting every unordered pair once.
pub fn accumulate_forces(
    particles: &mut Vec<Particle>,
    matrix: &InteractionMatrix,
    p: Params,
    dt: i64,
)
    requires
        population_ok(old(particles)@, *matrix, p, dt as int),
        forall|k: int|
            0 <= k < old(particles)@.len() ==> (#[trigger] old(particles)@[k]).pending_force.is_zero(),
    ensures
        final(particles)@.len() == old(particles)@.len(),
        forall|k: int|
            0 <= k < final(particles)@.len() ==> same_motion(
                #[trigger] final(particles)@[k],
                old(particles)@[k],
            ) && force_of(final(particles)@[k].pending_force) == accumulated(
                old(particles)@,
                *matrix,
                p,
                dt as int,
                k,
                old(particles)@.len() as int,
            ),
{
    let n = particles.len();
    let ghost ps0 = particles@;
    let mut i: usize = 0;
    while i < n
        invariant
            0 <= i <= n,
            n == ps0.len(),
            particles@.len() == n,
            population_ok(ps0, *matrix, p, dt as int),
            forall|k: int| 0 <= k < n ==> same_motion(#[trigger] particles@[k], ps0[k]),
            forall|k: int|
                0 <= k < n ==> force_of(#[trigger] particles@[k].pending_force) == accumulated(
                    ps0,
                    *matrix,
                    p,
                    dt as int,
                    k,
                    if k < i {
                        n as int
                    } else {
                        i as int
                    },
                ),
        decreases n - i,
    {
        let mut j: usize = i + 1;
        proof {
            assert(accumulated(ps0, *matrix, p, dt as int, i as int, i + 1) == accumulated(
                ps0,
                *matrix,
                p,
                dt as int,
                i as int,
                i as int,
            ));
        }
        while j < n
            invariant
                i < n,
                i + 1 <= j <= n,
                n == ps0.len(),
                particles@.len() == n,
                population_ok(ps0, *matrix, p, dt as int),
                forall|k: int| 0 <= k < n ==> same_motion(#[trigger] particles@[k], ps0[k]),
                forall|k: int|
                    0 <= k < n ==> force_of(#[trigger] particles@[k].pending_force) == accumulated(
                        ps0,
                        *matrix,
                        p,
                        dt as int,
                        k,
                        progress(n as int, i as int, j as int, k),
                    ),
            decreases n - j,
        {
            let a = particles[i];
            let b = particles[j];
            proof {
                assert(same_motion(particles@[i as int], ps0[i as int]));
                assert(same_motion(particles@[j as int], ps0[j as int]));
                assert(ps0[i as int].in_bounds(matrix.species as int));
                assert(ps0[j as int].in_bounds(matrix.species as int));
                lemma_accumulated_bound(ps0, *matrix, p, dt as int, i as int, j as int);
                lemma_accumulated_bound(ps0, *matrix, p, dt as int, j as int, i as int);
                matrix.lemma_coef_valid(a.species as int, b.species as int);
            }
            let s_ab = matrix.get(a.species, b.species);
            let s_ba = matrix.get(b.species, a.species);
            let (fa, fb) = pair_forces(a.position, b.position, s_ab, s_ba, p, dt);
            let na = Particle {
                position: a.position,
                velocity: a.velocity,
                pending_force: Vec2 { x: a.pending_force.x + fa.x, y: a.pending_force.y + fa.y },
                species: a.species,
            };
            let nb = Particle {
                position: b.position,
                velocity: b.velocity,
                pending_force: Vec2 { x: b.pending_force.x + fb.x, y: b.pending_force.y + fb.y },
                species: b.species,
            };
            particles.set(i, na);
            particles.set(j, nb);
            j += 1;
        }
        i += 1;
    }
    proof {
        assert forall|k: int| 0 <= k < n implies same_motion(
            #[trigger] particles@[k],
            ps0[k],
        ) && force_of(particles@[k].pending_force) == accumulated(
            ps0,
            *matrix,
            p,
            dt as int,
            k,
            n as int,
        ) by {
            assert(same_motion(particles@[k], ps0[k]));
        }
    }
}

} // verus!
