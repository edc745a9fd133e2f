//! A whole simulation: configuration, attraction matrix and population,
//! checked together once and then advanced tick by tick.
use vstd::prelude::*;
use crate::config::{config_error, ConfigError, SimulationConfig};
use crate::components::{Particle, Vector};
use crate::fixed::{abs, MAX_COEFFICIENT, MAX_EXTENT, MAX_PARTICLES, ONE};
use crate::matrix::AttractionMatrix;
use crate::simulation::{particle_ok, population_ok, step, tick_all};

verus! {

/// What is wrong with one particle, if anything.
pub open spec fn particle_error(cfg: SimulationConfig, p: Particle) -> Option<ConfigError> {
    if p.species.0 as int >= cfg.species_count {
        Some(ConfigError::UnknownSpecies)
    } else if !(0 <= p.position.x < cfg.arena_width && 0 <= p.position.y < cfg.arena_height) {
        Some(ConfigError::ParticleOutsideArena)
    } else if !(abs(p.velocity.0.x as int) <= cfg.speed_limit && abs(p.velocity.0.y as int)
        <= cfg.speed_limit) {
        Some(ConfigError::ParticleTooFast)
    } else {
        None
    }
}

/// The error of the first particle that has one.
pub open spec fn first_particle_error(cfg: SimulationConfig, ps: Seq<Particle>) -> Option<ConfigError>
    decreases ps.len(),
{
    if ps.len() == 0 {
        None
    } else {
        match first_particle_error(cfg, ps.drop_last()) {
            Some(e) => Some(e),
            None => particle_error(cfg, ps.last()),
        }
    }
}

/// The first rule that a configuration, matrix and population break
/// together, if any.
pub open spec fn simulation_error(
    cfg: SimulationConfig,
    m: AttractionMatrix,
    ps: Seq<Particle>,
) -> Option<ConfigError> {
    let c = config_error(
        cfg.species_count as int,
        cfg.arena_width as int,
        cfg.arena_height as int,
        cfg.cutoff as int,
        cfg.beta as int,
        cfg.mass as int,
        cfg.speed_limit as int,
    );
    if c is Some {
        c
    } else if !(m.wf() && m.species == cfg.species_count) {
        Some(ConfigError::BadMatrix)
    } else if ps.len() == 0 {
        Some(ConfigError::NoParticles)
    } else if ps.len() > MAX_PARTICLES {
        Some(ConfigError::TooManyParticles)
    } else {
        first_particle_error(cfg, ps)
    }
}

/// A population with no particle error is one a tick can run on.
proof fn lemma_no_error_is_ok(cfg: SimulationConfig, ps: Seq<Particle>)
    requires
        first_particle_error(cfg, ps) is None,
    ensures
        forall|j: int| 0 <= j < ps.len() ==> particle_ok(cfg, #[trigger] ps[j]),
    decreases ps.len(),
{
    if ps.len() > 0 {
        lemma_no_error_is_ok(cfg, ps.drop_last());
        assert forall|j: int| 0 <= j < ps.len() implies particle_ok(cfg, #[trigger] ps[j]) by {
            if j < ps.len() - 1 {
                assert(ps.drop_last()[j] == ps[j]);
            }
        }
    }
}

/// The simulation: its parameters, its attraction matrix and its particles.
pub struct Simulation {
    pub config: SimulationConfig,
    pub matrix: AttractionMatrix,
    pub particles: Vec<Particle>,
}

impl Simulation {
    pub open spec fn wf(self) -> bool {
        population_ok(self.config, self.matrix, self.particles@) && self.particles.len() > 0
    }

    /// Puts a simulation together, rejecting the first rule broken (see
    /// `simulation_error`).
    pub fn new(config: SimulationConfig, matrix: AttractionMatrix, particles: Vec<Particle>) -> (r:
        Result<Simulation, ConfigError>)
        ensures
            match simulation_error(config, matrix, particles@) {
                Some(e) => r is Err && r->Err_0 == e,
                None => r is Ok && r->Ok_0.config == config && r->Ok_0.matrix == matrix
                    && r->Ok_0.particles@ == particles@,
            },
            r is Ok ==> r->Ok_0.wf(),
    {
        if let Err(e) = SimulationConfig::new(
            config.species_count,
            config.arena_width,
            config.arena_height,
            config.cutoff,
            config.beta,
            config.mass,
            config.speed_limit,
        ) {
            return Err(e);
        }
        if !matrix_ok(&matrix, config.species_count) {
            return Err(ConfigError::BadMatrix);
        }
        if particles.len() == 0 {
            return Err(ConfigError::NoParticles);
        }
        if particles.len() > MAX_PARTICLES {
            return Err(ConfigError::TooManyParticles);
        }
        let mut i: usize = 0;
        while i < particles.len()
            invariant
                config.wf(),
                matrix.wf() && matrix.species == config.species_count,
                0 < particles.len() <= MAX_PARTICLES,
                i <= particles.len(),
                first_particle_error(config, particles@.subrange(0, i as int)) is None,
            decreases particles.len() - i,
        {
            let p = particles[i];
            let bad = if p.species.0 as usize >= config.species_count {
                Some(ConfigError::UnknownSpecies)
            } else if !(0 <= p.position.x && p.position.x < config.arena_width && 0 <= p.position.y
                && p.position.y < config.arena_height) {
                Some(ConfigError::ParticleOutsideArena)
            } else if !(-config.speed_limit <= p.velocity.0.x && p.velocity.0.x <= config.speed_limit
                && -config.speed_limit <= p.velocity.0.y && p.velocity.0.y <= config.speed_limit) {
                Some(ConfigError::ParticleTooFast)
            } else {
                None
            };
            assert(particles@.subrange(0, i + 1).drop_last() =~= particles@.subrange(0, i as int));
            assert(bad == particle_error(config, p));
            assert(particles@.subrange(0, i + 1).last() == p);
            if let Some(e) = bad {
                proof {
                    lemma_first_error_prefix(config, particles@, i + 1);
                }
                return Err(e);
            }
            i += 1;
        }
        assert(particles@.subrange(0, particles.len() as int) =~= particles@);
        proof {
            lemma_no_error_is_ok(config, particles@);
        }
        Ok(Simulation { config, matrix, particles })
    }

    /// Advances the simulation by one tick of `dt` microseconds, keeping the
    /// fraction `friction` (in millionths) of each velocity.
    pub fn tick(&mut self, dt: i64, friction: i64)
        requires
            old(self).wf(),
            old(self).config.tick_ok(dt as int),
            0 <= friction <= ONE,
        ensures
            final(self).wf(),
            final(self).config == old(self).config,
            final(self).matrix == old(self).matrix,
            final(self).particles@ == tick_all(
                old(self).config,
                old(self).matrix,
                old(self).particles@,
                dt as int,
                friction as int,
            ),
    {
        step(&self.config, &self.matrix, &mut self.particles, dt, friction);
    }
}

impl Simulation {
    /// Moves the simulation to an arena of `width` by `height`, as when the
    /// host's window is resized: each coordinate is taken modulo the new
    /// extent, so particles of a shrunken arena fold back inside it. An
    /// extent out of range is rejected and nothing changes.
    pub fn resize(&mut self, width: i64, height: i64) -> (r: Result<(), ConfigError>)
        requires
            old(self).wf(),
        ensures
            !(0 < width <= MAX_EXTENT) ==> r == Err::<(), ConfigError>(ConfigError::BadArenaWidth)
                && *final(self) == *old(self),
            0 < width <= MAX_EXTENT && !(0 < height <= MAX_EXTENT) ==> r == Err::<(), ConfigError>(
                ConfigError::BadArenaHeight,
            ) && *final(self) == *old(self),
            0 < width <= MAX_EXTENT && 0 < height <= MAX_EXTENT ==> {
                &&& r is Ok
                &&& final(self).config == (SimulationConfig {
                    arena_width: width,
                    arena_height: height,
                    ..old(self).config
                })
                &&& final(self).matrix == old(self).matrix
                &&& final(self).particles.len() == old(self).particles.len()
                &&& forall|i: int|
                    0 <= i < old(self).particles.len() ==> {
                        let p = old(self).particles@[i];
                        &&& #[trigger] final(self).particles@[i].position == (Vector {
                            x: (p.position.x % width) as i64,
                            y: (p.position.y % height) as i64,
                        })
                        &&& final(self).particles@[i].velocity == p.velocity
                        &&& final(self).particles@[i].species == p.species
                    }
            },
            final(self).wf(),
    {
        if !(0 < width && width <= MAX_EXTENT) {
            return Err(ConfigError::BadArenaWidth);
        }
        if !(0 < height && height <= MAX_EXTENT) {
            return Err(ConfigError::BadArenaHeight);
        }
        self.config = SimulationConfig { arena_width: width, arena_height: height, ..self.config };
        let n = self.particles.len();
        let mut i: usize = 0;
        while i < n
            invariant
                self.config == (SimulationConfig {
                    arena_width: width,
                    arena_height: height,
                    ..old(self).config
                }),
                self.matrix == old(self).matrix,
                old(self).wf(),
                self.config.wf(),
                self.particles.len() == n,
                n == old(self).particles.len(),
                i <= n,
                forall|a: int|
                    0 <= a < i ==> {
                        let p = old(self).particles@[a];
                        &&& #[trigger] self.particles@[a].position == (Vector {
                            x: (p.position.x % width) as i64,
                            y: (p.position.y % height) as i64,
                        })
                        &&& self.particles@[a].velocity == p.velocity
                        &&& self.particles@[a].species == p.species
                        &&& particle_ok(self.config, self.particles@[a])
                    },
                forall|a: int| i <= a < n ==> #[trigger] self.particles@[a] == old(self).particles@[a],
            decreases n - i,
        {
            let p = self.particles[i];
            assert(particle_ok(old(self).config, old(self).particles@[i as int]));
            let q = Particle {
                position: Vector { x: p.position.x % width, y: p.position.y % height },
                ..p
            };
            self.particles.set(i, q);
            i += 1;
        }
        Ok(())
    }
}

/// Once a prefix of the population has an error, so has every longer
/// prefix, and it is the same error.
proof fn lemma_first_error_prefix(cfg: SimulationConfig, ps: Seq<Particle>, k: int)
    requires
        0 < k <= ps.len(),
        first_particle_error(cfg, ps.subrange(0, k)) is Some,
    ensures
        first_particle_error(cfg, ps) == first_particle_error(cfg, ps.subrange(0, k)),
    decreases ps.len() - k,
{
    if k < ps.len() {
        assert(ps.subrange(0, k + 1).drop_last() =~= ps.subrange(0, k));
        lemma_first_error_prefix(cfg, ps, k + 1);
    } else {
        assert(ps.subrange(0, k) =~= ps);
    }
}

/// Whether `m` is a well-formed matrix for `species` species.
fn matrix_ok(m: &AttractionMatrix, species: usize) -> (ok: bool)
    ensures
        ok == (m.wf() && m.species == species),
{
    if m.species != species || m.species < 1 || m.species > crate::matrix::MAX_SPECIES {
        return false;
    }
    assert(m.species * m.species <= crate::matrix::MAX_SPECIES * crate::matrix::MAX_SPECIES)
        by (nonlinear_arith)
        requires
            m.species <= crate::matrix::MAX_SPECIES,
    {
    }
    if m.coefficients.len() != m.species * m.species {
        return false;
    }
    let mut t: usize = 0;
    while t < m.coefficients.len()
        invariant
            t <= m.coefficients.len(),
            forall|u: int|
                0 <= u < t ==> crate::force::valid_coefficient(#[trigger] m.coefficients@[u] as int),
        decreases m.coefficients.len() - t,
    {
        let k = m.coefficients[t];
        if k < -MAX_COEFFICIENT || k > MAX_COEFFICIENT {
            return false;
        }
        t += 1;
    }
    true
}

} // verus!
