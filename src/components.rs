//! The per-particle data: position, velocity and species.
use vstd::prelude::*;

verus! {

/// A 2D integer vector: a position in length units, or a velocity in
/// length units per second.
#[derive(Clone, Copy, Debug, PartialEq, Eq, Structural)]
pub struct Vector {
    pub x: i64,
    pub y: i64,
}

/// A particle's velocity, in length units per second.
#[derive(Clone, Copy, Debug, PartialEq, Eq, Structural)]
pub struct Velocity(pub Vector);

/// A particle's species: an index into the attraction matrix.
#[derive(Clone, Copy, Debug, PartialEq, Eq, Structural)]
pub struct Species(pub u8);

/// A point particle of the simulation.
#[derive(Clone, Copy, Debug, PartialEq, Eq, Structural)]
pub struct Particle {
    pub position: Vector,
    pub velocity: Velocity,
    pub species: Species,
}

impl Vector {
    pub fn new(x: i64, y: i64) -> (r: Vector)
        ensures
            r.x == x,
            r.y == y,
    {
        Vector { x, y }
    }
}

impl Particle {
    /// A particle at rest at `position`.
    pub fn at_rest(position: Vector, species: Species) -> (p: Particle)
        ensures
            p.position == position,
            p.velocity.0 == (Vector { x: 0, y: 0 }),
            p.species == species,
    {
        Particle { position, velocity: Velocity(Vector { x: 0, y: 0 }), species }
    }
}

impl Species {
    /// The hue that presents this species, in thousandths of a degree:
    /// the species spread evenly round the colour wheel.
    pub fn colour(&self, species_count: u8) -> (hue: u32)
        requires
            species_count > 0,
        ensures
            hue == (self.0 as int) * 360_000 / (species_count as int),
    {
        let h: u32 = (self.0 as u32) * 360_000 / (species_count as u32);
        h
    }
}

} // verus!
