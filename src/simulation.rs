//! One tick of the simulation: forces from the current positions, then
//! velocities, then positions, then the wrap back into the arena.
use vstd::prelude::*;
use crate::boundary::{in_extent, wrap_axis, wrap_spec};
use crate::components::{Particle, Vector, Velocity};
use crate::config::SimulationConfig;
use crate::fixed::{abs, div_trunc, MAX_COEFFICIENT, MAX_DT, MAX_EXTENT, MAX_PARTICLES, ONE};
use crate::grid::{axis_coord, SpatialGrid};
use crate::interaction::{interaction, is_root, isqrt, lemma_pair_force_bound, max_pair_force, pair_force, pair_ok, separation};
use crate::matrix::AttractionMatrix;
use crate::sum::{lemma_sum_below_bound, lemma_sum_over_cover, sum_below, sum_over};

verus! {

/// The population is one a tick can run on: within the size limit, inside
/// the arena, of species the matrix knows, and within the speed limit.
pub open spec fn population_ok(cfg: SimulationConfig, m: AttractionMatrix, ps: Seq<Particle>) -> bool {
    &&& cfg.wf()
    &&& m.wf()
    &&& m.species == cfg.species_count
    &&& ps.len() <= MAX_PARTICLES
    &&& forall|j: int| 0 <= j < ps.len() ==> particle_ok(cfg, #[trigger] ps[j])
}

pub open spec fn particle_ok(cfg: SimulationConfig, p: Particle) -> bool {
    &&& in_extent(p.position.x as int, cfg.arena_width as int)
    &&& in_extent(p.position.y as int, cfg.arena_height as int)
    &&& (p.species.0 as int) < cfg.species_count
    &&& abs(p.velocity.0.x as int) <= cfg.speed_limit
    &&& abs(p.velocity.0.y as int) <= cfg.speed_limit
}

/// What particle `i` feels from particle `j`; nothing from itself, even
/// where another particle shares its position.
pub open spec fn pair_term(
    cfg: SimulationConfig,
    m: AttractionMatrix,
    ps: Seq<Particle>,
    i: int,
    j: int,
) -> (int, int) {
    if i == j {
        (0, 0)
    } else {
        pair_force(cfg, m, ps[i], ps[j])
    }
}

pub open spec fn term_x(cfg: SimulationConfig, m: AttractionMatrix, ps: Seq<Particle>, i: int) -> spec_fn(
    int,
) -> int {
    |j: int| pair_term(cfg, m, ps, i, j).0
}

pub open spec fn term_y(cfg: SimulationConfig, m: AttractionMatrix, ps: Seq<Particle>, i: int) -> spec_fn(
    int,
) -> int {
    |j: int| pair_term(cfg, m, ps, i, j).1
}

/// The force on particle `i`: what it feels from every other particle,
/// summed, and scaled back from normalised distance by the cutoff.
pub open spec fn net_force(cfg: SimulationConfig, m: AttractionMatrix, ps: Seq<Particle>, i: int) -> (
    int,
    int,
) {
    (
        div_trunc(sum_below(ps.len() as int, term_x(cfg, m, ps, i)) * cfg.cutoff, ONE as int),
        div_trunc(sum_below(ps.len() as int, term_y(cfg, m, ps, i)) * cfg.cutoff, ONE as int),
    )
}

pub open spec fn clamp(v: int, limit: int) -> int {
    if v > limit {
        limit
    } else if v < -limit {
        -limit
    } else {
        v
    }
}

/// A velocity component after a tick of `dt` microseconds: the old one
/// decayed by `friction` (the fraction kept, in millionths), plus the force
/// times `dt` over the mass, clamped to the speed limit.
pub open spec fn next_velocity(cfg: SimulationConfig, v: int, f: int, dt: int, friction: int) -> int {
    clamp(div_trunc(v * friction, ONE as int) + div_trunc(f * dt, cfg.mass as int), cfg.speed_limit as int)
}

/// A coordinate moved by velocity `v` for `dt` microseconds.
pub open spec fn moved(p: int, v: int, dt: int) -> int {
    p + div_trunc(v * dt, ONE as int)
}

/// The particle after its velocity update under force `f`.
pub open spec fn accelerated(
    cfg: SimulationConfig,
    p: Particle,
    f: (int, int),
    dt: int,
    friction: int,
) -> Particle {
    Particle {
        velocity: Velocity(
            Vector {
                x: next_velocity(cfg, p.velocity.0.x as int, f.0, dt, friction) as i64,
                y: next_velocity(cfg, p.velocity.0.y as int, f.1, dt, friction) as i64,
            },
        ),
        ..p
    }
}

/// The sum of a particle's pair terms stays within `n` times the largest.
proof fn lemma_net_sum_bound(cfg: SimulationConfig, m: AttractionMatrix, ps: Seq<Particle>, i: int)
    requires
        population_ok(cfg, m, ps),
        0 <= i < ps.len(),
    ensures
        abs(sum_below(ps.len() as int, term_x(cfg, m, ps, i))) <= MAX_PARTICLES * MAX_COEFFICIENT,
        abs(sum_below(ps.len() as int, term_y(cfg, m, ps, i))) <= MAX_PARTICLES * MAX_COEFFICIENT,
{
    let n = ps.len() as int;
    assert forall|j: int| 0 <= j < n implies -max_pair_force() <= #[trigger] term_x(cfg, m, ps, i)(j)
        <= max_pair_force() && -max_pair_force() <= term_y(cfg, m, ps, i)(j) <= max_pair_force() by {
        if j != i {
            assert(particle_ok(cfg, ps[i]) && particle_ok(cfg, ps[j]));
            lemma_pair_force_bound(cfg, m, ps[i], ps[j]);
        }
    }
    lemma_sum_below_bound(n, term_x(cfg, m, ps, i), max_pair_force());
    assert forall|j: int| 0 <= j < n implies -max_pair_force() <= #[trigger] term_y(cfg, m, ps, i)(j)
        <= max_pair_force() by {
        assert(-max_pair_force() <= term_x(cfg, m, ps, i)(j) <= max_pair_force());
    }
    lemma_sum_below_bound(n, term_y(cfg, m, ps, i), max_pair_force());
    assert(n * max_pair_force() <= MAX_PARTICLES * MAX_COEFFICIENT) by (nonlinear_arith)
        requires
            0 <= n <= MAX_PARTICLES,
            max_pair_force() == MAX_COEFFICIENT,
    {
    }
}

/// The largest magnitude of a net force component: `MAX_PARTICLES` pairs at
/// the largest coefficient, scaled by the largest cutoff.
pub open spec fn max_net_force() -> int {
    18_014_398_509_481_984
}

/// Scales a summed pair force back by the cutoff.
fn scale_by_cutoff(s: i128, cutoff: i64) -> (f: i64)
    requires
        abs(s as int) <= MAX_PARTICLES * MAX_COEFFICIENT,
        0 < cutoff <= MAX_EXTENT,
    ensures
        f as int == div_trunc(s * cutoff, ONE as int),
        abs(f as int) <= max_net_force(),
{
    assert(abs(s * cutoff) <= (MAX_PARTICLES * MAX_COEFFICIENT) * MAX_EXTENT) by (nonlinear_arith)
        requires
            abs(s as int) <= MAX_PARTICLES * MAX_COEFFICIENT,
            0 < cutoff <= MAX_EXTENT,
    {
    }
    proof {
        crate::fixed::lemma_div_trunc_bound(
            s * cutoff,
            ONE as int,
            max_net_force(),
        );
    }
    let f = s * (cutoff as i128) / (ONE as i128);
    f as i64
}

/// The net force on every particle, summing over all pairs.
pub fn forces_all_pairs(cfg: &SimulationConfig, m: &AttractionMatrix, ps: &Vec<Particle>) -> (r: Vec<
    (i64, i64),
>)
    requires
        population_ok(*cfg, *m, ps@),
    ensures
        r.len() == ps.len(),
        forall|i: int|
            0 <= i < ps.len() ==> (#[trigger] r[i]).0 as int == net_force(*cfg, *m, ps@, i).0
                && r[i].1 as int == net_force(*cfg, *m, ps@, i).1,
{
    let n = ps.len();
    let mut r: Vec<(i64, i64)> = Vec::new();
    let mut i: usize = 0;
    while i < n
        invariant
            population_ok(*cfg, *m, ps@),
            n == ps.len(),
            i <= n,
            r.len() == i,
            forall|a: int|
                0 <= a < i ==> (#[trigger] r[a]).0 as int == net_force(*cfg, *m, ps@, a).0
                    && r[a].1 as int == net_force(*cfg, *m, ps@, a).1,
        decreases n - i,
    {
        let mut sx: i128 = 0;
        let mut sy: i128 = 0;
        let mut j: usize = 0;
        while j < n
            invariant
                population_ok(*cfg, *m, ps@),
                n == ps.len(),
                i < n,
                j <= n,
                sx as int == sum_below(j as int, term_x(*cfg, *m, ps@, i as int)),
                sy as int == sum_below(j as int, term_y(*cfg, *m, ps@, i as int)),
                abs(sx as int) <= j * MAX_COEFFICIENT,
                abs(sy as int) <= j * MAX_COEFFICIENT,
            decreases n - j,
        {
            if j != i {
                assert(particle_ok(*cfg, ps@[i as int]) && particle_ok(*cfg, ps@[j as int]));
                let (fx, fy) = interaction(cfg, m, &ps[i], &ps[j]);
                sx = sx + fx as i128;
                sy = sy + fy as i128;
            }
            j += 1;
        }
        proof {
            lemma_net_sum_bound(*cfg, *m, ps@, i as int);
        }
        let fx = scale_by_cutoff(sx, cfg.cutoff);
        let fy = scale_by_cutoff(sy, cfg.cutoff);
        r.push((fx, fy));
        i += 1;
    }
    r
}

/// The indices of `list`, as integers.
pub open spec fn as_indices(list: Seq<usize>) -> Seq<int> {
    list.map_values(|v: usize| v as int)
}

/// Summing particle `i`'s pair terms over the particles of its 3x3 block of
/// grid cells gives the sum over all particles: the grid loses no pair
/// within the cutoff and counts none twice.
pub proof fn lemma_block_sum_is_total(
    cfg: SimulationConfig,
    m: AttractionMatrix,
    g: SpatialGrid,
    i: int,
    list: Seq<usize>,
    f: spec_fn(int) -> int,
)
    requires
        population_ok(cfg, m, g.particles@),
        g.wf(),
        g.width == cfg.arena_width,
        g.height == cfg.arena_height,
        g.cutoff == cfg.cutoff,
        0 <= i < g.particles@.len(),
        f == term_x(cfg, m, g.particles@, i) || f == term_y(cfg, m, g.particles@, i),
        list.no_duplicates(),
        forall|s: int| 0 <= s < list.len() ==> #[trigger] list[s] < g.particles@.len(),
        forall|j: int|
            0 <= j < g.particles@.len() && g.in_block(
                g.home(i).0,
                g.home(i).1,
                #[trigger] g.home(j).0,
                g.home(j).1,
            ) ==> list.contains(j as usize),
    ensures
        sum_over(as_indices(list), f) == sum_below(g.particles@.len() as int, f),
{
    let ps = g.particles@;
    let n = ps.len() as int;
    let s = as_indices(list);
    assert(s.no_duplicates()) by {
        assert forall|a: int, b: int| 0 <= a < s.len() && 0 <= b < s.len() && a != b implies s[a]
            != s[b] by {
            assert(list[a] != list[b]);
        }
    }
    assert forall|t: int| 0 <= t < s.len() implies 0 <= #[trigger] s[t] < n by {
        assert(list[t] < n);
    }
    assert forall|j: int| 0 <= j < n && #[trigger] f(j) != 0 implies s.contains(j) by {
        assert(j != i);
        let pf = pair_force(cfg, m, ps[i], ps[j]);
        assert(pf.0 != 0 || pf.1 != 0);
        let (dx, dy) = separation(cfg, ps[i].position, ps[j].position);
        let d2 = dx * dx + dy * dy;
        let r = isqrt(d2);
        assert(0 < r < cfg.cutoff);
        assert(d2 >= 0) by (nonlinear_arith)
            requires
                d2 == dx * dx + dy * dy,
        {
        }
        crate::interaction::lemma_root_exists(d2);
        assert(is_root(r, d2));
        assert(d2 < cfg.cutoff * cfg.cutoff) by (nonlinear_arith)
            requires
                d2 < (r + 1) * (r + 1),
                0 < r < cfg.cutoff,
        {
        }
        g.lemma_near_pairs_share_block(i, j);
        assert(list.contains(j as usize));
        let t = choose|t: int| 0 <= t < list.len() && list[t] == j as usize;
        assert(s[t] == j);
    }
    lemma_sum_over_cover(s, n, f);
}

/// The net force on every particle, summing only over the particles of
/// each one's 3x3 block of grid cells.
pub fn forces_with_grid(cfg: &SimulationConfig, m: &AttractionMatrix, ps: &Vec<Particle>) -> (r: Vec<
    (i64, i64),
>)
    requires
        population_ok(*cfg, *m, ps@),
    ensures
        r.len() == ps.len(),
        forall|i: int|
            0 <= i < ps.len() ==> (#[trigger] r[i]).0 as int == net_force(*cfg, *m, ps@, i).0
                && r[i].1 as int == net_force(*cfg, *m, ps@, i).1,
{
    let g = SpatialGrid::build(ps, cfg.arena_width, cfg.arena_height, cfg.cutoff);
    let n = ps.len();
    let mut r: Vec<(i64, i64)> = Vec::new();
    let mut i: usize = 0;
    while i < n
        invariant
            population_ok(*cfg, *m, ps@),
            g.wf(),
            g.particles@ == ps@,
            g.width == cfg.arena_width,
            g.height == cfg.arena_height,
            g.cutoff == cfg.cutoff,
            n == ps.len(),
            i <= n,
            r.len() == i,
            forall|a: int|
                0 <= a < i ==> (#[trigger] r[a]).0 as int == net_force(*cfg, *m, ps@, a).0
                    && r[a].1 as int == net_force(*cfg, *m, ps@, a).1,
        decreases n - i,
    {
        assert(particle_ok(*cfg, ps@[i as int]));
        let x = axis_coord(ps[i].position.x, cfg.arena_width, g.columns);
        let y = axis_coord(ps[i].position.y, cfg.arena_height, g.rows);
        let list = g.neighbours_of(x, y);
        let mut sx: i128 = 0;
        let mut sy: i128 = 0;
        let mut t: usize = 0;
        while t < list.len()
            invariant
                population_ok(*cfg, *m, ps@),
                n == ps.len(),
                i < n,
                t <= list.len(),
                forall|u: int| 0 <= u < list.len() ==> #[trigger] list[u] < n,
                sx as int == sum_over(as_indices(list@.subrange(0, t as int)), term_x(*cfg, *m, ps@, i as int)),
                sy as int == sum_over(as_indices(list@.subrange(0, t as int)), term_y(*cfg, *m, ps@, i as int)),
                abs(sx as int) <= t * MAX_COEFFICIENT,
                abs(sy as int) <= t * MAX_COEFFICIENT,
            decreases list.len() - t,
        {
            let j = list[t];
            assert(as_indices(list@.subrange(0, t + 1)).drop_last() =~= as_indices(
                list@.subrange(0, t as int),
            ));
            assert(as_indices(list@.subrange(0, t + 1)).last() == j as int);
            if j != i {
                assert(particle_ok(*cfg, ps@[i as int]) && particle_ok(*cfg, ps@[j as int]));
                let (fx, fy) = interaction(cfg, m, &ps[i], &ps[j]);
                sx = sx + fx as i128;
                sy = sy + fy as i128;
            }
            t += 1;
        }
        assert(list@.subrange(0, list.len() as int) =~= list@);
        proof {
            lemma_block_sum_is_total(*cfg, *m, g, i as int, list@, term_x(*cfg, *m, ps@, i as int));
            lemma_block_sum_is_total(*cfg, *m, g, i as int, list@, term_y(*cfg, *m, ps@, i as int));
            lemma_net_sum_bound(*cfg, *m, ps@, i as int);
        }
        let fx = scale_by_cutoff(sx, cfg.cutoff);
        let fy = scale_by_cutoff(sy, cfg.cutoff);
        r.push((fx, fy));
        i += 1;
    }
    r
}

/// One velocity component after a tick (see `next_velocity`).
fn next_velocity_exec(cfg: &SimulationConfig, v: i64, f: i64, dt: i64, friction: i64) -> (r: i64)
    requires
        cfg.wf(),
        abs(v as int) <= cfg.speed_limit,
        abs(f as int) <= max_net_force(),
        0 < dt <= MAX_DT,
        0 <= friction <= ONE,
    ensures
        r as int == next_velocity(*cfg, v as int, f as int, dt as int, friction as int),
        abs(r as int) <= cfg.speed_limit,
{
    assert(abs(v * friction) <= MAX_EXTENT * ONE) by (nonlinear_arith)
        requires
            abs(v as int) <= MAX_EXTENT,
            0 <= friction <= ONE,
    {
    }
    assert(abs(f * dt) <= max_net_force() * MAX_DT) by (nonlinear_arith)
        requires
            abs(f as int) <= max_net_force(),
            0 < dt <= MAX_DT,
    {
    }
    let decayed = (v as i128) * (friction as i128) / (ONE as i128);
    let pushed = (f as i128) * (dt as i128) / (cfg.mass as i128);
    proof {
        crate::fixed::lemma_div_trunc_bound(v * friction, ONE as int, MAX_EXTENT as int);
        crate::fixed::lemma_div_trunc_bound(f * dt, cfg.mass as int, max_net_force() * MAX_DT);
        assert(max_net_force() * MAX_DT <= max_net_force() * MAX_DT * cfg.mass) by (nonlinear_arith)
            requires
                cfg.mass >= 1,
        {
        }
    }
    let total = decayed + pushed;
    let limit = cfg.speed_limit as i128;
    if total > limit {
        cfg.speed_limit
    } else if total < -limit {
        -cfg.speed_limit
    } else {
        total as i64
    }
}

/// Updates every particle's velocity under the given net forces: friction
/// first, on last tick's velocity, then the force's contribution.
fn apply_forces(
    cfg: &SimulationConfig,
    m: &AttractionMatrix,
    ps: &mut Vec<Particle>,
    forces: &Vec<(i64, i64)>,
    dt: i64,
    friction: i64,
)
    requires
        population_ok(*cfg, *m, old(ps)@),
        forces.len() == old(ps).len(),
        forall|i: int|
            0 <= i < forces.len() ==> abs((#[trigger] forces[i]).0 as int) <= max_net_force()
                && abs(forces[i].1 as int) <= max_net_force(),
        0 < dt <= MAX_DT,
        0 <= friction <= ONE,
    ensures
        population_ok(*cfg, *m, final(ps)@),
        final(ps).len() == old(ps).len(),
        forall|i: int|
            0 <= i < old(ps).len() ==> #[trigger] final(ps)@[i] == accelerated(
                *cfg,
                old(ps)@[i],
                (forces[i].0 as int, forces[i].1 as int),
                dt as int,
                friction as int,
            ),
{
    let n = ps.len();
    let mut i: usize = 0;
    while i < n
        invariant
            population_ok(*cfg, *m, ps@),
            ps.len() == n,
            n == old(ps).len(),
            i <= n,
            forces.len() == n,
            forall|a: int|
                0 <= a < forces.len() ==> abs((#[trigger] forces[a]).0 as int) <= max_net_force()
                    && abs(forces[a].1 as int) <= max_net_force(),
            0 < dt <= MAX_DT,
            0 <= friction <= ONE,
            forall|a: int|
                0 <= a < i ==> #[trigger] ps@[a] == accelerated(
                    *cfg,
                    old(ps)@[a],
                    (forces[a].0 as int, forces[a].1 as int),
                    dt as int,
                    friction as int,
                ),
            forall|a: int| i <= a < n ==> #[trigger] ps@[a] == old(ps)@[a],
        decreases n - i,
    {
        let p = ps[i];
        assert(particle_ok(*cfg, p));
        let (fx, fy) = forces[i];
        let vx = next_velocity_exec(cfg, p.velocity.0.x, fx, dt, friction);
        let vy = next_velocity_exec(cfg, p.velocity.0.y, fy, dt, friction);
        let q = Particle { velocity: Velocity(Vector { x: vx, y: vy }), ..p };
        let ghost before = ps@;
        ps.set(i, q);
        assert forall|a: int| 0 <= a < ps.len() implies particle_ok(*cfg, #[trigger] ps@[a]) by {
            if a != i {
                assert(ps@[a] == before[a]);
                assert(particle_ok(*cfg, before[a]));
            }
        }
        i += 1;
    }
}

/// Updates velocities from forces summed over all pairs.
pub fn update_velocities(
    cfg: &SimulationConfig,
    m: &AttractionMatrix,
    ps: &mut Vec<Particle>,
    dt: i64,
    friction: i64,
)
    requires
        population_ok(*cfg, *m, old(ps)@),
        0 < dt <= MAX_DT,
        0 <= friction <= ONE,
    ensures
        population_ok(*cfg, *m, final(ps)@),
        final(ps).len() == old(ps).len(),
        forall|i: int|
            0 <= i < old(ps).len() ==> #[trigger] final(ps)@[i] == accelerated(
                *cfg,
                old(ps)@[i],
                net_force(*cfg, *m, old(ps)@, i),
                dt as int,
                friction as int,
            ),
{
    let forces = forces_all_pairs(cfg, m, ps);
    assert forall|i: int| 0 <= i < forces.len() implies abs((#[trigger] forces[i]).0 as int)
        <= max_net_force() && abs(forces[i].1 as int) <= max_net_force() by {
        lemma_net_force_bound(*cfg, *m, ps@, i);
    }
    apply_forces(cfg, m, ps, &forces, dt, friction);
}

/// Updates velocities from forces summed over each particle's 3x3 block of
/// grid cells; the result is the same as `update_velocities`.
pub fn update_velocities_with_grid(
    cfg: &SimulationConfig,
    m: &AttractionMatrix,
    ps: &mut Vec<Particle>,
    dt: i64,
    friction: i64,
)
    requires
        population_ok(*cfg, *m, old(ps)@),
        0 < dt <= MAX_DT,
        0 <= friction <= ONE,
    ensures
        population_ok(*cfg, *m, final(ps)@),
        final(ps).len() == old(ps).len(),
        forall|i: int|
            0 <= i < old(ps).len() ==> #[trigger] final(ps)@[i] == accelerated(
                *cfg,
                old(ps)@[i],
                net_force(*cfg, *m, old(ps)@, i),
                dt as int,
                friction as int,
            ),
{
    let forces = forces_with_grid(cfg, m, ps);
    assert forall|i: int| 0 <= i < forces.len() implies abs((#[trigger] forces[i]).0 as int)
        <= max_net_force() && abs(forces[i].1 as int) <= max_net_force() by {
        lemma_net_force_bound(*cfg, *m, ps@, i);
    }
    apply_forces(cfg, m, ps, &forces, dt, friction);
}

/// The net force on a particle is within `max_net_force` on each axis.
pub proof fn lemma_net_force_bound(cfg: SimulationConfig, m: AttractionMatrix, ps: Seq<Particle>, i: int)
    requires
        population_ok(cfg, m, ps),
        0 <= i < ps.len(),
    ensures
        abs(net_force(cfg, m, ps, i).0) <= max_net_force(),
        abs(net_force(cfg, m, ps, i).1) <= max_net_force(),
{
    lemma_net_sum_bound(cfg, m, ps, i);
    let sx = sum_below(ps.len() as int, term_x(cfg, m, ps, i));
    let sy = sum_below(ps.len() as int, term_y(cfg, m, ps, i));
    assert(abs(sx * cfg.cutoff) <= (MAX_PARTICLES * MAX_COEFFICIENT) * MAX_EXTENT
        && abs(sy * cfg.cutoff) <= (MAX_PARTICLES * MAX_COEFFICIENT) * MAX_EXTENT) by (nonlinear_arith)
        requires
            abs(sx) <= MAX_PARTICLES * MAX_COEFFICIENT,
            abs(sy) <= MAX_PARTICLES * MAX_COEFFICIENT,
            0 < cfg.cutoff <= MAX_EXTENT,
    {
    }
    crate::fixed::lemma_div_trunc_bound(sx * cfg.cutoff, ONE as int, max_net_force());
    crate::fixed::lemma_div_trunc_bound(sy * cfg.cutoff, ONE as int, max_net_force());
}

/// The particle after moving with its velocity for `dt` microseconds.
pub open spec fn drifted(p: Particle, dt: int) -> Particle {
    Particle {
        position: Vector {
            x: moved(p.position.x as int, p.velocity.0.x as int, dt) as i64,
            y: moved(p.position.y as int, p.velocity.0.y as int, dt) as i64,
        },
        ..p
    }
}

/// The particle with its position wrapped back into a `w` by `h` arena.
pub open spec fn wrapped(p: Particle, w: int, h: int) -> Particle {
    Particle {
        position: Vector {
            x: wrap_spec(p.position.x as int, w) as i64,
            y: wrap_spec(p.position.y as int, h) as i64,
        },
        ..p
    }
}

/// Within one extent of the arena on either side, so that one wrap
/// correction brings it back.
pub open spec fn near_arena(p: Vector, w: int, h: int) -> bool {
    -w <= p.x < 2 * w && -h <= p.y < 2 * h
}

/// A move at no more than the speed limit, in a tick that the configuration
/// accepts, is shorter than the arena on either axis.
proof fn lemma_move_short(cfg: SimulationConfig, v: int, dt: int)
    requires
        cfg.wf(),
        cfg.tick_ok(dt),
        abs(v) <= cfg.speed_limit,
    ensures
        abs(div_trunc(v * dt, ONE as int)) < cfg.arena_width,
        abs(div_trunc(v * dt, ONE as int)) < cfg.arena_height,
{
    let a = v * dt;
    let l = cfg.speed_limit * dt;
    assert(abs(a) <= l) by (nonlinear_arith)
        requires
            abs(v) <= cfg.speed_limit,
            dt > 0,
            a == v * dt,
            l == cfg.speed_limit * dt,
    {
    }
    vstd::arithmetic::div_mod::lemma_div_is_ordered(abs(a), l, ONE as int);
}

/// Moves every particle by its velocity over `dt` microseconds.
pub fn update_positions(cfg: &SimulationConfig, m: &AttractionMatrix, ps: &mut Vec<Particle>, dt: i64)
    requires
        population_ok(*cfg, *m, old(ps)@),
        cfg.tick_ok(dt as int),
    ensures
        final(ps).len() == old(ps).len(),
        forall|i: int|
            0 <= i < old(ps).len() ==> #[trigger] final(ps)@[i] == drifted(old(ps)@[i], dt as int)
                && near_arena(final(ps)@[i].position, cfg.arena_width as int, cfg.arena_height as int),
{
    let n = ps.len();
    let mut i: usize = 0;
    while i < n
        invariant
            population_ok(*cfg, *m, old(ps)@),
            cfg.tick_ok(dt as int),
            ps.len() == n,
            n == old(ps).len(),
            i <= n,
            forall|a: int|
                0 <= a < i ==> #[trigger] ps@[a] == drifted(old(ps)@[a], dt as int) && near_arena(
                    ps@[a].position,
                    cfg.arena_width as int,
                    cfg.arena_height as int,
                ),
            forall|a: int| i <= a < n ==> #[trigger] ps@[a] == old(ps)@[a],
        decreases n - i,
    {
        let p = ps[i];
        assert(particle_ok(*cfg, old(ps)@[i as int]));
        proof {
            lemma_move_short(*cfg, p.velocity.0.x as int, dt as int);
            lemma_move_short(*cfg, p.velocity.0.y as int, dt as int);
        }
        assert(abs(p.velocity.0.x * dt) <= MAX_EXTENT * MAX_DT && abs(p.velocity.0.y * dt)
            <= MAX_EXTENT * MAX_DT) by (nonlinear_arith)
            requires
                abs(p.velocity.0.x as int) <= MAX_EXTENT,
                abs(p.velocity.0.y as int) <= MAX_EXTENT,
                0 < dt <= MAX_DT,
        {
        }
        let x = p.position.x + p.velocity.0.x * dt / ONE;
        let y = p.position.y + p.velocity.0.y * dt / ONE;
        let q = Particle { position: Vector { x, y }, ..p };
        ps.set(i, q);
        i += 1;
    }
}

/// Wraps every particle back into a `width` by `height` arena, with one
/// correction per axis.
pub fn confine_particles_by_wrap(ps: &mut Vec<Particle>, width: i64, height: i64)
    requires
        0 < width <= MAX_EXTENT,
        0 < height <= MAX_EXTENT,
        forall|i: int|
            0 <= i < old(ps).len() ==> near_arena(
                #[trigger] old(ps)@[i].position,
                width as int,
                height as int,
            ),
    ensures
        final(ps).len() == old(ps).len(),
        forall|i: int|
            0 <= i < old(ps).len() ==> #[trigger] final(ps)@[i] == wrapped(
                old(ps)@[i],
                width as int,
                height as int,
            ),
{
    let n = ps.len();
    let mut i: usize = 0;
    while i < n
        invariant
            0 < width <= MAX_EXTENT,
            0 < height <= MAX_EXTENT,
            forall|a: int|
                0 <= a < old(ps).len() ==> near_arena(
                    #[trigger] old(ps)@[a].position,
                    width as int,
                    height as int,
                ),
            ps.len() == n,
            n == old(ps).len(),
            i <= n,
            forall|a: int|
                0 <= a < i ==> #[trigger] ps@[a] == wrapped(old(ps)@[a], width as int, height as int),
            forall|a: int| i <= a < n ==> #[trigger] ps@[a] == old(ps)@[a],
        decreases n - i,
    {
        let p = ps[i];
        assert(near_arena(old(ps)@[i as int].position, width as int, height as int));
        let x = wrap_axis(p.position.x, width);
        let y = wrap_axis(p.position.y, height);
        let q = Particle { position: Vector { x, y }, ..p };
        ps.set(i, q);
        i += 1;
    }
}

/// A particle after one full tick: accelerated by the net force from the
/// tick's starting positions, moved, and wrapped.
pub open spec fn ticked(
    cfg: SimulationConfig,
    m: AttractionMatrix,
    ps: Seq<Particle>,
    i: int,
    dt: int,
    friction: int,
) -> Particle {
    wrapped(
        drifted(accelerated(cfg, ps[i], net_force(cfg, m, ps, i), dt, friction), dt),
        cfg.arena_width as int,
        cfg.arena_height as int,
    )
}

/// Advances the simulation by one tick of `dt` microseconds, keeping the
/// fraction `friction` (in millionths) of each velocity: all forces from
/// the current positions, then all velocities, then all positions, then the
/// wrap.
pub fn step(
    cfg: &SimulationConfig,
    m: &AttractionMatrix,
    ps: &mut Vec<Particle>,
    dt: i64,
    friction: i64,
)
    requires
        population_ok(*cfg, *m, old(ps)@),
        cfg.tick_ok(dt as int),
        0 <= friction <= ONE,
    ensures
        population_ok(*cfg, *m, final(ps)@),
        final(ps).len() == old(ps).len(),
        final(ps)@ == tick_all(*cfg, *m, old(ps)@, dt as int, friction as int),
        forall|i: int|
            0 <= i < old(ps).len() ==> #[trigger] final(ps)@[i] == ticked(
                *cfg,
                *m,
                old(ps)@,
                i,
                dt as int,
                friction as int,
            ),
{
    let ghost start = ps@;
    update_velocities_with_grid(cfg, m, ps, dt, friction);
    let ghost fast = ps@;
    update_positions(cfg, m, ps, dt);
    let ghost moved_ps = ps@;
    confine_particles_by_wrap(ps, cfg.arena_width, cfg.arena_height);
    assert forall|i: int| 0 <= i < ps.len() implies particle_ok(*cfg, #[trigger] ps@[i]) by {
        assert(particle_ok(*cfg, fast[i]));
        assert(moved_ps[i] == drifted(fast[i], dt as int));
        assert(near_arena(moved_ps[i].position, cfg.arena_width as int, cfg.arena_height as int));
        assert(ps@[i] == wrapped(moved_ps[i], cfg.arena_width as int, cfg.arena_height as int));
    }
    assert forall|i: int| 0 <= i < start.len() implies #[trigger] ps@[i] == ticked(
        *cfg,
        *m,
        start,
        i,
        dt as int,
        friction as int,
    ) by {
        assert(fast[i] == accelerated(*cfg, start[i], net_force(*cfg, *m, start, i), dt as int, friction as int));
        assert(moved_ps[i] == drifted(fast[i], dt as int));
    }
    assert(ps@ =~= tick_all(*cfg, *m, start, dt as int, friction as int));
}

/// The whole population after one tick.
pub open spec fn tick_all(
    cfg: SimulationConfig,
    m: AttractionMatrix,
    ps: Seq<Particle>,
    dt: int,
    friction: int,
) -> Seq<Particle> {
    Seq::new(ps.len(), |i: int| ticked(cfg, m, ps, i, dt, friction))
}

/// The population after `n` ticks of equal length.
pub open spec fn run(
    cfg: SimulationConfig,
    m: AttractionMatrix,
    ps: Seq<Particle>,
    n: nat,
    dt: int,
    friction: int,
) -> Seq<Particle>
    decreases n,
{
    if n == 0 {
        ps
    } else {
        run(cfg, m, tick_all(cfg, m, ps, dt, friction), (n - 1) as nat, dt, friction)
    }
}

/// Every coefficient of the matrix is zero.
pub open spec fn neutral(m: AttractionMatrix) -> bool {
    forall|i: int, j: int| 0 <= i < m.species && 0 <= j < m.species ==> #[trigger] m.k(i, j) == 0
}

/// `a` and `b` are not within the short-range repulsion of each other:
/// they coincide, or their normalised distance is at least `beta`.
pub open spec fn outside_repulsion(cfg: SimulationConfig, a: Particle, b: Particle) -> bool {
    let (dx, dy) = separation(cfg, a.position, b.position);
    let r = isqrt(dx * dx + dy * dy);
    r <= 0 || r * ONE / (cfg.cutoff as int) >= cfg.beta
}

/// Under a neutral matrix, particles outside each other's repulsion exert
/// no force on each other.
proof fn lemma_neutral_pair(cfg: SimulationConfig, m: AttractionMatrix, a: Particle, b: Particle)
    requires
        pair_ok(cfg, m, a, b),
        neutral(m),
        outside_repulsion(cfg, a, b),
    ensures
        pair_force(cfg, m, a, b) == (0int, 0int),
{
    let (dx, dy) = separation(cfg, a.position, b.position);
    let r = isqrt(dx * dx + dy * dy);
    if !(r <= 0 || r >= cfg.cutoff) {
        let k = m.k(a.species.0 as int, b.species.0 as int);
        assert(k == 0);
        let rn = r * ONE / (cfg.cutoff as int);
        assert(k * crate::force::triangle(rn, cfg.beta as int) == 0);
        assert(0 * dx == 0 && 0 * dy == 0);
    }
}

/// Under a neutral matrix, with no particle inside another's repulsion,
/// no particle feels any force.
proof fn lemma_neutral_forces(cfg: SimulationConfig, m: AttractionMatrix, ps: Seq<Particle>, i: int)
    requires
        population_ok(cfg, m, ps),
        neutral(m),
        forall|a: int, b: int|
            0 <= a < ps.len() && 0 <= b < ps.len() && a != b ==> outside_repulsion(
                cfg,
                #[trigger] ps[a],
                #[trigger] ps[b],
            ),
        0 <= i < ps.len(),
    ensures
        net_force(cfg, m, ps, i) == (0int, 0int),
{
    let n = ps.len() as int;
    assert forall|j: int| 0 <= j < n implies #[trigger] term_x(cfg, m, ps, i)(j) == 0 && term_y(
        cfg,
        m,
        ps,
        i,
    )(j) == 0 by {
        if j != i {
            assert(particle_ok(cfg, ps[i]) && particle_ok(cfg, ps[j]));
            lemma_neutral_pair(cfg, m, ps[i], ps[j]);
        }
    }
    lemma_sum_below_bound(n, term_x(cfg, m, ps, i), 0);
    assert forall|j: int| 0 <= j < n implies -0 <= #[trigger] term_y(cfg, m, ps, i)(j) <= 0 by {
        assert(term_x(cfg, m, ps, i)(j) == 0);
    }
    lemma_sum_below_bound(n, term_y(cfg, m, ps, i), 0);
    assert(n * 0 == 0) by (nonlinear_arith);
    assert(0 * cfg.cutoff == 0);
}

/// A population at rest under a neutral matrix, with no particle inside
/// another's repulsion, stays exactly as it is for any number of ticks.
pub proof fn lemma_rest_is_kept(
    cfg: SimulationConfig,
    m: AttractionMatrix,
    ps: Seq<Particle>,
    n: nat,
    dt: int,
    friction: int,
)
    requires
        population_ok(cfg, m, ps),
        neutral(m),
        forall|i: int| 0 <= i < ps.len() ==> (#[trigger] ps[i]).velocity.0 == (Vector { x: 0, y: 0 }),
        forall|a: int, b: int|
            0 <= a < ps.len() && 0 <= b < ps.len() && a != b ==> outside_repulsion(
                cfg,
                #[trigger] ps[a],
                #[trigger] ps[b],
            ),
        cfg.tick_ok(dt),
        0 <= friction <= ONE,
    ensures
        run(cfg, m, ps, n, dt, friction) == ps,
    decreases n,
{
    if n > 0 {
        let next = tick_all(cfg, m, ps, dt, friction);
        assert forall|i: int| 0 <= i < ps.len() implies #[trigger] next[i] == ps[i] by {
            lemma_neutral_forces(cfg, m, ps, i);
            assert(particle_ok(cfg, ps[i]));
            assert(0 * friction == 0);
            assert(0 * dt == 0);
        }
        assert(next =~= ps);
        lemma_rest_is_kept(cfg, m, ps, (n - 1) as nat, dt, friction);
    }
}

/// A particle that feels no force keeps exactly the fraction `friction` of
/// its velocity each tick, rounded toward zero, so its speed never grows
/// and, while `friction < 1`, strictly shrinks until it reaches zero.
pub proof fn lemma_free_decay(
    cfg: SimulationConfig,
    m: AttractionMatrix,
    ps: Seq<Particle>,
    i: int,
    dt: int,
    friction: int,
)
    requires
        population_ok(cfg, m, ps),
        0 <= i < ps.len(),
        net_force(cfg, m, ps, i) == (0int, 0int),
        cfg.tick_ok(dt),
        0 <= friction <= ONE,
    ensures
        ({
            let v = ps[i].velocity.0;
            let w = ticked(cfg, m, ps, i, dt, friction).velocity.0;
            &&& w.x == div_trunc(v.x * friction, ONE as int)
            &&& w.y == div_trunc(v.y * friction, ONE as int)
            &&& abs(w.x as int) <= abs(v.x as int)
            &&& abs(w.y as int) <= abs(v.y as int)
            &&& friction < ONE && v.x != 0 ==> abs(w.x as int) < abs(v.x as int)
            &&& friction < ONE && v.y != 0 ==> abs(w.y as int) < abs(v.y as int)
        }),
{
    let v = ps[i].velocity.0;
    assert(particle_ok(cfg, ps[i]));
    assert(0 * dt == 0);
    lemma_decay_step(v.x as int, friction);
    lemma_decay_step(v.y as int, friction);
}

/// Keeping the fraction `friction` of `v` shrinks it toward zero.
proof fn lemma_decay_step(v: int, friction: int)
    requires
        0 <= friction <= ONE,
    ensures
        abs(div_trunc(v * friction, ONE as int)) <= abs(v),
        friction < ONE && v != 0 ==> abs(div_trunc(v * friction, ONE as int)) < abs(v),
        v >= 0 ==> div_trunc(v * friction, ONE as int) >= 0,
        v <= 0 ==> div_trunc(v * friction, ONE as int) <= 0,
{
    let a = abs(v * friction);
    assert(a == abs(v) * friction && a <= abs(v) * ONE) by (nonlinear_arith)
        requires
            0 <= friction <= ONE,
            a == abs(v * friction),
    {
    }
    assert((v >= 0 ==> v * friction >= 0) && (v <= 0 ==> v * friction <= 0)) by (nonlinear_arith)
        requires
            0 <= friction,
    {
    }
    crate::fixed::lemma_div_trunc_bound(v * friction, ONE as int, abs(v));
    if friction < ONE && v != 0 {
        assert(a < abs(v) * ONE) by (nonlinear_arith)
            requires
                a == abs(v) * friction,
                friction < ONE,
                abs(v) > 0,
        {
        }
        crate::fixed::lemma_div_below(a, ONE as int, abs(v));
    }
}

/// The largest restoring nudge: the largest strength over the longest tick.
pub open spec fn max_push() -> int {
    64_424_509_440
}

/// A velocity component after the restoring nudge at coordinate `p` of an
/// axis of extent `w`: within `margin` of the low edge it gains `push`,
/// within `margin` of the high edge it loses `push`, clamped to `limit`.
pub open spec fn nudged(v: int, p: int, w: int, margin: int, push: int, limit: int) -> int {
    if p < margin {
        clamp(v + push, limit)
    } else if p > w - margin {
        clamp(v - push, limit)
    } else {
        v
    }
}

/// Steers particles near an edge of the arena back toward its middle:
/// within `margin` of an edge, the velocity component across that edge
/// changes by `strength * dt` (strength in length units per second
/// squared) toward the inside.
pub fn restrain_particles(
    cfg: &SimulationConfig,
    m: &AttractionMatrix,
    ps: &mut Vec<Particle>,
    margin: i64,
    strength: i64,
    dt: i64,
)
    requires
        population_ok(*cfg, *m, old(ps)@),
        0 <= margin <= MAX_EXTENT,
        0 <= strength <= MAX_EXTENT,
        0 < dt <= MAX_DT,
    ensures
        population_ok(*cfg, *m, final(ps)@),
        final(ps).len() == old(ps).len(),
        forall|i: int|
            0 <= i < old(ps).len() ==> {
                let p = old(ps)@[i];
                let push = div_trunc(strength * dt, ONE as int);
                &&& (#[trigger] final(ps)@[i]).position == p.position
                &&& final(ps)@[i].species == p.species
                &&& final(ps)@[i].velocity.0.x == nudged(
                    p.velocity.0.x as int,
                    p.position.x as int,
                    cfg.arena_width as int,
                    margin as int,
                    push,
                    cfg.speed_limit as int,
                )
                &&& final(ps)@[i].velocity.0.y == nudged(
                    p.velocity.0.y as int,
                    p.position.y as int,
                    cfg.arena_height as int,
                    margin as int,
                    push,
                    cfg.speed_limit as int,
                )
            },
{
    assert(0 <= strength * dt <= MAX_EXTENT * MAX_DT) by (nonlinear_arith)
        requires
            0 <= strength <= MAX_EXTENT,
            0 < dt <= MAX_DT,
    {
    }
    let push = strength * dt / ONE;
    proof {
        crate::fixed::lemma_div_trunc_bound(strength * dt, ONE as int, max_push());
    }
    let n = ps.len();
    let mut i: usize = 0;
    while i < n
        invariant
            population_ok(*cfg, *m, ps@),
            ps.len() == n,
            n == old(ps).len(),
            i <= n,
            0 <= margin <= MAX_EXTENT,
            push == div_trunc(strength * dt, ONE as int),
            0 <= push <= max_push(),
            forall|a: int|
                0 <= a < i ==> {
                    let p = old(ps)@[a];
                    &&& (#[trigger] ps@[a]).position == p.position
                    &&& ps@[a].species == p.species
                    &&& ps@[a].velocity.0.x == nudged(
                        p.velocity.0.x as int,
                        p.position.x as int,
                        cfg.arena_width as int,
                        margin as int,
                        push as int,
                        cfg.speed_limit as int,
                    )
                    &&& ps@[a].velocity.0.y == nudged(
                        p.velocity.0.y as int,
                        p.position.y as int,
                        cfg.arena_height as int,
                        margin as int,
                        push as int,
                        cfg.speed_limit as int,
                    )
                },
            forall|a: int| i <= a < n ==> #[trigger] ps@[a] == old(ps)@[a],
        decreases n - i,
    {
        let p = ps[i];
        assert(particle_ok(*cfg, p));
        let vx = nudge_axis(p.velocity.0.x, p.position.x, cfg.arena_width, margin, push, cfg.speed_limit);
        let vy = nudge_axis(p.velocity.0.y, p.position.y, cfg.arena_height, margin, push, cfg.speed_limit);
        let ghost before = ps@;
        ps.set(i, Particle { velocity: Velocity(Vector { x: vx, y: vy }), ..p });
        assert forall|a: int| 0 <= a < ps.len() implies particle_ok(*cfg, #[trigger] ps@[a]) by {
            if a != i {
                assert(ps@[a] == before[a]);
                assert(particle_ok(*cfg, before[a]));
            }
        }
        i += 1;
    }
}

/// One velocity component after the restoring nudge (see `nudged`).
fn nudge_axis(v: i64, p: i64, w: i64, margin: i64, push: i64, limit: i64) -> (r: i64)
    requires
        abs(v as int) <= limit <= MAX_EXTENT,
        0 < w <= MAX_EXTENT,
        0 <= margin <= MAX_EXTENT,
        0 <= push <= max_push(),
    ensures
        r == nudged(v as int, p as int, w as int, margin as int, push as int, limit as int),
        abs(r as int) <= limit,
{
    let target = if p < margin {
        v + push
    } else if p > w - margin {
        v - push
    } else {
        return v;
    };
    if target > limit {
        limit
    } else if target < -limit {
        -limit
    } else {
        target
    }
}

} // verus!
