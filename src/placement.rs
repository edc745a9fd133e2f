//! Random placement of particles: the initial population, and the respawn
//! policy that returns escaped particles to the middle of the arena.
use vstd::prelude::*;
use rand::rngs::SmallRng;
use crate::boundary::in_extent;
use crate::components::{Particle, Species, Vector, Velocity};
use crate::config::SimulationConfig;
use crate::fixed::{MAX_EXTENT, MAX_PARTICLES};
use crate::rng::draw_in_range;
use crate::simulation::particle_ok;

verus! {

/// The middle half of an axis of extent `w`: from `w / 4` up to `w - w / 4`.
pub open spec fn in_middle_half(p: int, w: int) -> bool {
    w / 4 <= p < w - w / 4
}

/// The middle quarter of an axis of extent `w`: from `3w / 8` up to
/// `w - 3w / 8`.
pub open spec fn in_middle_quarter(p: int, w: int) -> bool {
    3 * w / 8 <= p < w - 3 * w / 8
}

/// `count` particles at rest, each placed uniformly in the middle half of
/// the arena on both axes, with a species drawn uniformly.
pub fn spawn_particles(cfg: &SimulationConfig, count: usize, rng: &mut SmallRng) -> (r: Vec<Particle>)
    requires
        cfg.wf(),
        count <= MAX_PARTICLES,
    ensures
        r.len() == count,
        forall|i: int|
            0 <= i < count ==> {
                &&& particle_ok(*cfg, #[trigger] r[i])
                &&& in_middle_half(r[i].position.x as int, cfg.arena_width as int)
                &&& in_middle_half(r[i].position.y as int, cfg.arena_height as int)
                &&& r[i].velocity.0 == (Vector { x: 0, y: 0 })
            },
{
    let w = cfg.arena_width;
    let h = cfg.arena_height;
    let mut r: Vec<Particle> = Vec::new();
    let mut i: usize = 0;
    while i < count
        invariant
            cfg.wf(),
            w == cfg.arena_width,
            h == cfg.arena_height,
            i <= count,
            r.len() == i,
            forall|a: int|
                0 <= a < i ==> {
                    &&& particle_ok(*cfg, #[trigger] r[a])
                    &&& in_middle_half(r[a].position.x as int, w as int)
                    &&& in_middle_half(r[a].position.y as int, h as int)
                    &&& r[a].velocity.0 == (Vector { x: 0, y: 0 })
                },
        decreases count - i,
    {
        let x = draw_in_range(rng, w / 4, w - w / 4);
        let y = draw_in_range(rng, h / 4, h - h / 4);
        let s = draw_in_range(rng, 0, cfg.species_count as i64);
        let p = Particle {
            position: Vector { x, y },
            velocity: Velocity(Vector { x: 0, y: 0 }),
            species: Species(s as u8),
        };
        r.push(p);
        i += 1;
    }
    r
}

/// The particle after the respawn policy: left alone inside the arena,
/// else moved into the arena's middle quarter on both axes.
pub open spec fn respawned(p: Particle, q: Particle, w: int, h: int) -> bool {
    if in_extent(p.position.x as int, w) && in_extent(p.position.y as int, h) {
        q == p
    } else {
        &&& q.velocity == p.velocity
        &&& q.species == p.species
        &&& in_middle_quarter(q.position.x as int, w)
        &&& in_middle_quarter(q.position.y as int, h)
    }
}

/// Confines particles by respawning each one found outside the `width` by
/// `height` arena at a random point of its middle quarter.
pub fn confine_particles_by_respawn(
    ps: &mut Vec<Particle>,
    width: i64,
    height: i64,
    rng: &mut SmallRng,
)
    requires
        0 < width <= MAX_EXTENT,
        0 < height <= MAX_EXTENT,
    ensures
        final(ps).len() == old(ps).len(),
        forall|i: int|
            0 <= i < old(ps).len() ==> respawned(
                old(ps)@[i],
                #[trigger] final(ps)@[i],
                width as int,
                height as int,
            ),
        forall|i: int|
            0 <= i < old(ps).len() ==> in_extent(
                #[trigger] final(ps)@[i].position.x as int,
                width as int,
            ) && in_extent(final(ps)@[i].position.y as int, height as int),
{
    let n = ps.len();
    let mut i: usize = 0;
    while i < n
        invariant
            0 < width <= MAX_EXTENT,
            0 < height <= MAX_EXTENT,
            ps.len() == n,
            n == old(ps).len(),
            i <= n,
            forall|a: int|
                0 <= a < i ==> respawned(
                    old(ps)@[a],
                    #[trigger] ps@[a],
                    width as int,
                    height as int,
                ),
            forall|a: int|
                0 <= a < i ==> in_extent(#[trigger] ps@[a].position.x as int, width as int)
                    && in_extent(ps@[a].position.y as int, height as int),
            forall|a: int| i <= a < n ==> #[trigger] ps@[a] == old(ps)@[a],
        decreases n - i,
    {
        let p = ps[i];
        let inside = 0 <= p.position.x && p.position.x < width && 0 <= p.position.y
            && p.position.y < height;
        if !inside {
            let x = draw_in_range(rng, 3 * width / 8, width - 3 * width / 8);
            let y = draw_in_range(rng, 3 * height / 8, height - 3 * height / 8);
            ps.set(i, Particle { position: Vector { x, y }, ..p });
        }
        i += 1;
    }
}

} // verus!
