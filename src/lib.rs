//! A verified kernel for "particle life": point particles of several species
//! attract and repel one another on a wrap-around arena.
pub mod fixed;
pub mod force;
pub mod sum;
pub mod components;
pub mod boundary;
pub mod grid;
pub mod rng;
pub mod matrix;
pub mod config;
pub mod interaction;
pub mod simulation;
pub mod seed;
pub mod placement;
pub mod world;

pub use boundary::{min_image, wrap_axis};
pub use components::{Particle, Species, Vector, Velocity};
pub use config::{ConfigError, SimulationConfig};
pub use fixed::{MAX_COEFFICIENT, MAX_DT, MAX_EXTENT, MAX_PARTICLES, ONE};
pub use force::force;
pub use grid::{SpatialGrid, MAX_GRID_SIDE};
pub use interaction::{integer_sqrt, interaction};
pub use matrix::{AttractionMatrix, MAX_SPECIES};
pub use placement::{confine_particles_by_respawn, spawn_particles};
pub use seed::{generate_16rng_seed, generate_32rng_seed};
pub use simulation::{
    confine_particles_by_wrap, forces_all_pairs, forces_with_grid, restrain_particles, step,
    update_positions, update_velocities, update_velocities_with_grid,
};
pub use world::Simulation;
