use particle_life::{
    forces_all_pairs, forces_with_grid, interaction, restrain_particles, spawn_particles, step,
    update_positions, update_velocities, update_velocities_with_grid, AttractionMatrix, Particle,
    SimulationConfig, Species, SpatialGrid, Vector, Velocity, ONE,
};
use rand::rngs::SmallRng;
use rand::SeedableRng;

fn at(x: i64, y: i64, species: u8) -> Particle {
    Particle {
        position: Vector { x, y },
        velocity: Velocity(Vector { x: 0, y: 0 }),
        species: Species(species),
    }
}

fn moving(x: i64, y: i64, vx: i64, vy: i64) -> Particle {
    Particle {
        position: Vector { x, y },
        velocity: Velocity(Vector { x: vx, y: vy }),
        species: Species(0),
    }
}

fn small_config() -> SimulationConfig {
    SimulationConfig::new(1, 1000, 1000, 100, 300_000, ONE, 500).unwrap()
}

fn attracting_matrix() -> AttractionMatrix {
    let mut m = AttractionMatrix::new(1);
    m.set(0, 0, ONE);
    m
}

#[test]
fn two_particles_attract_symmetrically() {
    let cfg = small_config();
    let m = attracting_matrix();
    let a = at(200, 500, 0);
    let b = at(260, 500, 0);
    // Normalised distance 0.6 with k = 1: 0.857142 toward the other.
    assert_eq!(interaction(&cfg, &m, &a, &b), (857_142, 0));
    assert_eq!(interaction(&cfg, &m, &b, &a), (-857_142, 0));
    let mut ps = vec![a, b];
    update_velocities(&cfg, &m, &mut ps, ONE, ONE);
    // Scaled back by the cutoff of 100: 85.71 per unit mass per second.
    assert_eq!(ps[0].velocity, Velocity(Vector { x: 85, y: 0 }));
    assert_eq!(ps[1].velocity, Velocity(Vector { x: -85, y: 0 }));
    assert_eq!(ps[0].position, Vector { x: 200, y: 500 });
}

#[test]
fn lone_particle_halves_its_velocity() {
    let cfg = SimulationConfig::new(1, 1_000_000, 1_000_000, 150_000, 300_000, 100_000, 100_000)
        .unwrap();
    let m = attracting_matrix();
    let mut ps = vec![moving(500_000, 500_000, 3_000, -2_000)];
    step(&cfg, &m, &mut ps, ONE, ONE / 2);
    assert_eq!(ps[0].velocity, Velocity(Vector { x: 1_500, y: -1_000 }));
    assert_eq!(ps[0].position, Vector { x: 501_500, y: 499_000 });
}

#[test]
fn particle_leaving_low_edge_reappears_at_high_edge() {
    let cfg = SimulationConfig::new(1, 1_000_000, 1_000_000, 150_000, 300_000, 100_000, 100_000)
        .unwrap();
    let m = AttractionMatrix::new(1);
    let mut ps = vec![moving(1, 500_000, -5_000, 0)];
    step(&cfg, &m, &mut ps, ONE, ONE);
    assert_eq!(ps[0].position, Vector { x: 995_001, y: 500_000 });
    assert_eq!(ps[0].velocity, Velocity(Vector { x: -5_000, y: 0 }));
}

#[test]
fn neutral_matrix_keeps_resting_particles_at_rest() {
    let cfg = small_config();
    let m = AttractionMatrix::new(1);
    let start = vec![at(100, 100, 0), at(160, 100, 0), at(500, 900, 0), at(950, 120, 0)];
    let mut ps = start.clone();
    for _ in 0..10 {
        step(&cfg, &m, &mut ps, 16_000, 900_000);
    }
    assert_eq!(ps, start);
}

#[test]
fn force_free_velocity_decays_geometrically() {
    let cfg = SimulationConfig::new(1, 1_000_000, 1_000_000, 1_000, 300_000, ONE, 100_000).unwrap();
    let m = AttractionMatrix::new(1);
    let mut ps = vec![moving(500_000, 500_000, 64_000, -64_000)];
    let mut expected = 64_000;
    for _ in 0..6 {
        step(&cfg, &m, &mut ps, 1_000, ONE / 2);
        expected /= 2;
        assert_eq!(ps[0].velocity, Velocity(Vector { x: expected, y: -expected }));
    }
    assert_eq!(expected, 1_000);
}

#[test]
fn close_particles_repel_even_under_neutral_matrix() {
    let cfg = small_config();
    let m = AttractionMatrix::new(1);
    let mut ps = vec![at(500, 500, 0), at(510, 500, 0)];
    update_velocities(&cfg, &m, &mut ps, ONE, ONE);
    assert!(ps[0].velocity.0.x < 0);
    assert!(ps[1].velocity.0.x > 0);
    assert_eq!(ps[0].velocity.0.x, -ps[1].velocity.0.x);
}

#[test]
fn coincident_particles_feel_nothing_from_each_other() {
    let cfg = small_config();
    let m = attracting_matrix();
    let a = at(300, 300, 0);
    assert_eq!(interaction(&cfg, &m, &a, &a), (0, 0));
    let mut ps = vec![a, a];
    update_velocities(&cfg, &m, &mut ps, ONE, ONE);
    assert_eq!(ps[0].velocity, Velocity(Vector { x: 0, y: 0 }));
}

#[test]
fn pairs_interact_across_the_wrap() {
    let cfg = small_config();
    let m = attracting_matrix();
    let a = at(10, 500, 0);
    let b = at(950, 500, 0);
    // 60 apart through the left edge: b pulls a leftward.
    assert_eq!(interaction(&cfg, &m, &a, &b), (-857_142, 0));
    assert_eq!(interaction(&cfg, &m, &b, &a), (857_142, 0));
}

fn scattered(count: usize, species: u8, seed: u8) -> Vec<Particle> {
    let mut out = Vec::new();
    let mut state: u64 = seed as u64 + 1;
    for i in 0..count {
        state = state.wrapping_mul(6364136223846793005).wrapping_add(1442695040888963407);
        let x = ((state >> 33) % 1000) as i64;
        state = state.wrapping_mul(6364136223846793005).wrapping_add(1442695040888963407);
        let y = ((state >> 33) % 700) as i64;
        let mut p = at(x, y, (i % species as usize) as u8);
        p.velocity = Velocity(Vector { x: (i as i64 % 7) - 3, y: (i as i64 % 5) - 2 });
        out.push(p);
    }
    out
}

#[test]
fn grid_and_all_pairs_agree() {
    let cfg = SimulationConfig::new(3, 1000, 700, 90, 250_000, 200_000, 800).unwrap();
    let m = AttractionMatrix::random(3, [9u8; 32]);
    let ps = scattered(300, 3, 1);
    let brute = forces_all_pairs(&cfg, &m, &ps);
    let grid = forces_with_grid(&cfg, &m, &ps);
    assert_eq!(brute, grid);
    assert!(brute.iter().any(|f| *f != (0, 0)));
    let mut a = ps.clone();
    let mut b = ps.clone();
    update_velocities(&cfg, &m, &mut a, 16_000, 700_000);
    update_velocities_with_grid(&cfg, &m, &mut b, 16_000, 700_000);
    assert_eq!(a, b);
}

#[test]
fn grid_agrees_when_cells_are_few() {
    // Two cells across, one down: the 3x3 block must not count a cell twice.
    let cfg = SimulationConfig::new(2, 250, 150, 100, 300_000, ONE, 100).unwrap();
    let m = AttractionMatrix::worms(2);
    let ps = vec![at(10, 10, 0), at(60, 40, 1), at(200, 140, 0), at(130, 70, 1)];
    assert_eq!(forces_all_pairs(&cfg, &m, &ps), forces_with_grid(&cfg, &m, &ps));
}

#[test]
fn grid_lists_every_particle_once_and_finds_near_pairs() {
    let ps = scattered(200, 1, 4);
    let g = SpatialGrid::build(&ps, 1000, 700, 90);
    assert_eq!(g.columns, 11);
    assert_eq!(g.rows, 7);
    let mut seen = vec![0usize; ps.len()];
    for x in 0..g.columns {
        for y in 0..g.rows {
            for &j in g.neighbours_of(x, y).iter() {
                seen[j] += 1;
            }
        }
    }
    // Each particle is found from the nine cells round its own.
    assert!(seen.iter().all(|&c| c == 9));
    for i in 0..ps.len() {
        let cx = (ps[i].position.x * g.columns as i64 / 1000) as usize;
        let cy = (ps[i].position.y * g.rows as i64 / 700) as usize;
        let near = g.neighbours_of(cx, cy);
        for j in 0..ps.len() {
            let dx = particle_life::min_image(ps[i].position.x, ps[j].position.x, 1000);
            let dy = particle_life::min_image(ps[i].position.y, ps[j].position.y, 700);
            if dx * dx + dy * dy < 90 * 90 {
                assert!(near.contains(&j));
            }
        }
    }
}

#[test]
fn positions_follow_velocities() {
    let cfg = small_config();
    let m = AttractionMatrix::new(1);
    let mut ps = vec![moving(500, 500, 300, -250)];
    update_positions(&cfg, &m, &mut ps, 500_000);
    assert_eq!(ps[0].position, Vector { x: 650, y: 375 });
}

#[test]
fn velocity_is_clamped_to_speed_limit() {
    let cfg = SimulationConfig::new(1, 1000, 1000, 100, 300_000, 1_000, 40).unwrap();
    let m = attracting_matrix();
    let mut ps = vec![at(200, 500, 0), at(260, 500, 0)];
    update_velocities(&cfg, &m, &mut ps, ONE, ONE);
    assert_eq!(ps[0].velocity, Velocity(Vector { x: 40, y: 0 }));
    assert_eq!(ps[1].velocity, Velocity(Vector { x: -40, y: 0 }));
}

#[test]
fn restraint_nudges_inward_near_edges() {
    let cfg = small_config();
    let m = AttractionMatrix::new(1);
    let mut ps = vec![moving(10, 500, 0, 0), moving(990, 995, 0, 0), moving(500, 500, 7, 7)];
    restrain_particles(&cfg, &m, &mut ps, 50, 100, 500_000);
    assert_eq!(ps[0].velocity, Velocity(Vector { x: 50, y: 0 }));
    assert_eq!(ps[1].velocity, Velocity(Vector { x: -50, y: -50 }));
    assert_eq!(ps[2].velocity, Velocity(Vector { x: 7, y: 7 }));
    assert_eq!(ps[0].position, Vector { x: 10, y: 500 });
}

#[test]
fn spawned_particles_start_at_rest_in_the_middle() {
    let cfg = SimulationConfig::new(9, 1000, 600, 150, 300_000, 100_000, 500).unwrap();
    let mut rng = SmallRng::from_seed([1u8; 32]);
    let ps = spawn_particles(&cfg, 500, &mut rng);
    assert_eq!(ps.len(), 500);
    for p in &ps {
        assert!((250..750).contains(&p.position.x));
        assert!((150..450).contains(&p.position.y));
        assert!(p.species.0 < 9);
        assert_eq!(p.velocity, Velocity(Vector { x: 0, y: 0 }));
    }
    assert!(ps.iter().any(|p| p.position != ps[0].position));
}

#[test]
fn empty_population_feels_no_forces() {
    let cfg = small_config();
    let m = attracting_matrix();
    let ps: Vec<Particle> = Vec::new();
    assert!(forces_all_pairs(&cfg, &m, &ps).is_empty());
    assert!(forces_with_grid(&cfg, &m, &ps).is_empty());
}

#[test]
fn grid_side_is_capped_on_huge_arenas() {
    let ps = vec![at(0, 0, 0), at(1_073_741_823, 1_073_741_823, 0), at(536_870_912, 5, 0)];
    let g = SpatialGrid::build(&ps, particle_life::MAX_EXTENT, particle_life::MAX_EXTENT, 1_000);
    assert_eq!(g.columns, particle_life::MAX_GRID_SIDE);
    assert_eq!(g.rows, particle_life::MAX_GRID_SIDE);
    // The far corner wraps round to the first cell's block.
    let near = g.neighbours_of(0, 0);
    assert!(near.contains(&0));
    assert!(near.contains(&1));
    assert!(!near.contains(&2));
}

#[test]
fn single_cell_grid_lists_everyone_once() {
    let ps = vec![at(1, 1, 0), at(50, 20, 0), at(99, 99, 0)];
    let g = SpatialGrid::build(&ps, 100, 100, 150);
    assert_eq!((g.columns, g.rows), (1, 1));
    let mut near = g.neighbours_of(0, 0);
    near.sort();
    assert_eq!(near, vec![0, 1, 2]);
    assert_eq!(g.block_cells(0, 0), vec![(0, 0)]);
}
