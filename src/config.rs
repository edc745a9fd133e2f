//! The read-only parameters of a run, checked once at construction.
use vstd::prelude::*;
use crate::fixed::{MAX_DT, MAX_EXTENT, ONE};
use crate::matrix::MAX_SPECIES;

verus! {

/// Why a configuration, or the population handed to a simulation, was
/// rejected.
#[derive(Clone, Copy, Debug, PartialEq, Eq, Structural)]
pub enum ConfigError {
    /// There must be at least one species.
    NoSpecies,
    /// A species is a `u8`: at most 256 of them.
    TooManySpecies,
    /// The arena width must lie in `(0, MAX_EXTENT]`.
    BadArenaWidth,
    /// The arena height must lie in `(0, MAX_EXTENT]`.
    BadArenaHeight,
    /// The interaction cutoff must lie in `(0, MAX_EXTENT]`.
    BadCutoff,
    /// The repulsion threshold must lie strictly between 0 and 1.
    BadBeta,
    /// The particle mass must be positive.
    BadMass,
    /// The speed limit must lie in `(0, MAX_EXTENT]`.
    BadSpeedLimit,
    /// There must be at least one particle.
    NoParticles,
    /// More particles than `MAX_PARTICLES`.
    TooManyParticles,
    /// The matrix is not square with one row per species, or holds a
    /// coefficient out of range.
    BadMatrix,
    /// A particle's species has no row in the matrix.
    UnknownSpecies,
    /// A particle lies outside the arena.
    ParticleOutsideArena,
    /// A particle moves faster than the speed limit.
    ParticleTooFast,
    /// The seed text holds a character that is not ASCII.
    SeedNotAscii,
}

/// The parameters of a run. Lengths are in the host's length unit;
/// `beta` (a fraction of the cutoff) and `mass` are in millionths.
#[derive(Clone, Copy, Debug, PartialEq, Eq, Structural)]
pub struct SimulationConfig {
    pub species_count: usize,
    pub arena_width: i64,
    pub arena_height: i64,
    /// The interaction cutoff radius R_max.
    pub cutoff: i64,
    /// The short-range repulsion threshold, as a fraction of the cutoff.
    pub beta: i64,
    pub mass: i64,
    /// The largest speed along either axis, in length units per second;
    /// faster velocities are clamped to it.
    pub speed_limit: i64,
}

/// The first rule that the parameters break, if any.
pub open spec fn config_error(
    species_count: int,
    arena_width: int,
    arena_height: int,
    cutoff: int,
    beta: int,
    mass: int,
    speed_limit: int,
) -> Option<ConfigError> {
    if species_count == 0 {
        Some(ConfigError::NoSpecies)
    } else if species_count > MAX_SPECIES {
        Some(ConfigError::TooManySpecies)
    } else if !(0 < arena_width <= MAX_EXTENT) {
        Some(ConfigError::BadArenaWidth)
    } else if !(0 < arena_height <= MAX_EXTENT) {
        Some(ConfigError::BadArenaHeight)
    } else if !(0 < cutoff <= MAX_EXTENT) {
        Some(ConfigError::BadCutoff)
    } else if !(0 < beta < ONE) {
        Some(ConfigError::BadBeta)
    } else if !(0 < mass) {
        Some(ConfigError::BadMass)
    } else if !(0 < speed_limit <= MAX_EXTENT) {
        Some(ConfigError::BadSpeedLimit)
    } else {
        None
    }
}

impl SimulationConfig {
    pub open spec fn wf(self) -> bool {
        config_error(
            self.species_count as int,
            self.arena_width as int,
            self.arena_height as int,
            self.cutoff as int,
            self.beta as int,
            self.mass as int,
            self.speed_limit as int,
        ) is None
    }

    /// A tick lasts at most `MAX_DT`, and a tick of `dt` microseconds at the speed limit moves a particle less
    /// than one arena extent on either axis, so one wrap correction brings
    /// it back inside.
    pub open spec fn tick_ok(self, dt: int) -> bool {
        &&& 0 < dt <= MAX_DT
        &&& self.speed_limit * dt / (ONE as int) < self.arena_width
        &&& self.speed_limit * dt / (ONE as int) < self.arena_height
    }

    /// Checks the parameters of a run; the error names the first rule broken.
    pub fn new(
        species_count: usize,
        arena_width: i64,
        arena_height: i64,
        cutoff: i64,
        beta: i64,
        mass: i64,
        speed_limit: i64,
    ) -> (r: Result<SimulationConfig, ConfigError>)
        ensures
            match config_error(
                species_count as int,
                arena_width as int,
                arena_height as int,
                cutoff as int,
                beta as int,
                mass as int,
                speed_limit as int,
            ) {
                Some(e) => r == Err::<SimulationConfig, ConfigError>(e),
                None => r is Ok && r->Ok_0 == (SimulationConfig {
                    species_count,
                    arena_width,
                    arena_height,
                    cutoff,
                    beta,
                    mass,
                    speed_limit,
                }),
            },
            r is Ok ==> r->Ok_0.wf(),
    {
        if species_count == 0 {
            Err(ConfigError::NoSpecies)
        } else if species_count > MAX_SPECIES {
            Err(ConfigError::TooManySpecies)
        } else if !(0 < arena_width && arena_width <= MAX_EXTENT) {
            Err(ConfigError::BadArenaWidth)
        } else if !(0 < arena_height && arena_height <= MAX_EXTENT) {
            Err(ConfigError::BadArenaHeight)
        } else if !(0 < cutoff && cutoff <= MAX_EXTENT) {
            Err(ConfigError::BadCutoff)
        } else if !(0 < beta && beta < ONE) {
            Err(ConfigError::BadBeta)
        } else if !(0 < mass) {
            Err(ConfigError::BadMass)
        } else if !(0 < speed_limit && speed_limit <= MAX_EXTENT) {
            Err(ConfigError::BadSpeedLimit)
        } else {
            Ok(
                SimulationConfig {
                    species_count,
                    arena_width,
                    arena_height,
                    cutoff,
                    beta,
                    mass,
                    speed_limit,
                },
            )
        }
    }

    /// Whether a tick of `dt` microseconds is short enough for this
    /// configuration (see `tick_ok`).
    pub fn accepts_tick(&self, dt: i64) -> (ok: bool)
        requires
            self.wf(),
        ensures
            ok == self.tick_ok(dt as int),
    {
        if dt <= 0 || dt > MAX_DT {
            return false;
        }
        assert(self.speed_limit * dt <= MAX_EXTENT * MAX_DT) by (nonlinear_arith)
            requires
                0 < self.speed_limit <= MAX_EXTENT,
                0 < dt <= MAX_DT,
        {
        }
        let step = self.speed_limit * dt / ONE;
        step < self.arena_width && step < self.arena_height
    }
}

} // verus!
