use particle_life::{
    generate_16rng_seed, generate_32rng_seed, AttractionMatrix, ConfigError, Particle, Simulation,
    SimulationConfig, Species, Vector, Velocity, ONE,
};

fn config() -> SimulationConfig {
    SimulationConfig::new(2, 1000, 800, 100, 300_000, 100_000, 500).unwrap()
}

#[test]
fn config_keeps_its_parameters() {
    let cfg = config();
    assert_eq!(cfg.species_count, 2);
    assert_eq!(cfg.arena_width, 1000);
    assert_eq!(cfg.arena_height, 800);
    assert_eq!(cfg.cutoff, 100);
    assert_eq!(cfg.beta, 300_000);
    assert_eq!(cfg.mass, 100_000);
    assert_eq!(cfg.speed_limit, 500);
}

#[test]
fn config_rejects_each_degenerate_parameter() {
    let e = |r: Result<SimulationConfig, ConfigError>| r.unwrap_err();
    assert_eq!(e(SimulationConfig::new(0, 1000, 800, 100, 300_000, 1, 500)), ConfigError::NoSpecies);
    assert_eq!(e(SimulationConfig::new(257, 1000, 800, 100, 300_000, 1, 500)), ConfigError::TooManySpecies);
    assert_eq!(e(SimulationConfig::new(2, 0, 800, 100, 300_000, 1, 500)), ConfigError::BadArenaWidth);
    assert_eq!(e(SimulationConfig::new(2, 1000, -5, 100, 300_000, 1, 500)), ConfigError::BadArenaHeight);
    assert_eq!(e(SimulationConfig::new(2, 1000, 800, 0, 300_000, 1, 500)), ConfigError::BadCutoff);
    assert_eq!(e(SimulationConfig::new(2, 1000, 800, 100, ONE, 1, 500)), ConfigError::BadBeta);
    assert_eq!(e(SimulationConfig::new(2, 1000, 800, 100, 0, 1, 500)), ConfigError::BadBeta);
    assert_eq!(e(SimulationConfig::new(2, 1000, 800, 100, 300_000, 0, 500)), ConfigError::BadMass);
    assert_eq!(e(SimulationConfig::new(2, 1000, 800, 100, 300_000, 1, 0)), ConfigError::BadSpeedLimit);
    // The first rule broken is the one reported.
    assert_eq!(e(SimulationConfig::new(0, 0, 0, 0, 0, 0, 0)), ConfigError::NoSpecies);
}

#[test]
fn tick_length_is_checked_against_the_arena() {
    let cfg = config();
    assert!(cfg.accepts_tick(16_000));
    // 500 per second for 1.6 s is 800: a full arena height.
    assert!(cfg.accepts_tick(1_598_000));
    assert!(!cfg.accepts_tick(1_600_000));
    assert!(!cfg.accepts_tick(0));
    assert!(!cfg.accepts_tick(-3));
}

#[test]
fn worms_matrix_pattern() {
    let m = AttractionMatrix::worms(4);
    for i in 0..4 {
        for j in 0..4 {
            let expected = if i == j {
                2 * ONE
            } else if j == i + 1 {
                ONE / 5
            } else {
                0
            };
            assert_eq!(m.get(i, j), expected);
        }
    }
}

#[test]
fn random_matrix_is_reproducible_and_in_range() {
    let a = AttractionMatrix::random(9, [42u8; 32]);
    let b = AttractionMatrix::random(9, [42u8; 32]);
    let c = AttractionMatrix::random(9, [43u8; 32]);
    assert_eq!(a.coefficients, b.coefficients);
    assert_ne!(a.coefficients, c.coefficients);
    assert_eq!(a.coefficients.len(), 81);
    assert!(a.coefficients.iter().all(|k| (-ONE..ONE).contains(k)));
    assert!(a.coefficients.iter().any(|k| *k != 0));
}

#[test]
fn matrix_set_changes_one_cell() {
    let mut m = AttractionMatrix::new(3);
    m.set(1, 2, -400_000);
    assert_eq!(m.get(1, 2), -400_000);
    assert_eq!(m.get(2, 1), 0);
    assert_eq!(m.get(0, 0), 0);
}

#[test]
fn species_hue_spreads_round_the_wheel() {
    assert_eq!(Species(0).colour(9), 0);
    assert_eq!(Species(3).colour(9), 120_000);
    assert_eq!(Species(8).colour(9), 320_000);
}

#[test]
fn seed_from_short_text_is_padded_on_the_left() {
    let seed = generate_32rng_seed(Some("abc")).unwrap();
    let mut expected = [b'_'; 32];
    expected[29] = b'a';
    expected[30] = b'b';
    expected[31] = b'c';
    assert_eq!(seed, expected);
    let short = generate_16rng_seed(Some("xyz")).unwrap();
    assert_eq!(&short[..13], &[b'_'; 13]);
    assert_eq!(&short[13..], b"xyz");
}

#[test]
fn seed_from_long_text_is_cut() {
    let text = "0123456789abcdefghijklmnopqrstuvwxyz";
    assert_eq!(&generate_32rng_seed(Some(text)).unwrap(), &text.as_bytes()[..32]);
    assert_eq!(&generate_16rng_seed(Some(text)).unwrap(), &text.as_bytes()[..16]);
}

#[test]
fn seed_rejects_non_ascii_text() {
    assert_eq!(generate_32rng_seed(Some("héllo")), Err(ConfigError::SeedNotAscii));
    assert_eq!(generate_16rng_seed(Some("✓")), Err(ConfigError::SeedNotAscii));
}

#[test]
fn seed_without_text_is_drawn() {
    let a = generate_32rng_seed(None).unwrap();
    let b = generate_32rng_seed(None).unwrap();
    assert_ne!(a, b);
    assert!(generate_16rng_seed(None).is_ok());
}

fn resting(x: i64, y: i64, species: u8) -> Particle {
    Particle::at_rest(Vector::new(x, y), Species(species))
}

#[test]
fn simulation_rejects_bad_populations() {
    let cfg = config();
    let m = AttractionMatrix::new(2);
    let err = |ps: Vec<Particle>| Simulation::new(cfg, AttractionMatrix::new(2), ps).err();
    assert_eq!(err(vec![]), Some(ConfigError::NoParticles));
    assert_eq!(err(vec![resting(1, 1, 2)]), Some(ConfigError::UnknownSpecies));
    assert_eq!(err(vec![resting(1, 1, 0), resting(1000, 1, 1)]), Some(ConfigError::ParticleOutsideArena));
    assert_eq!(err(vec![resting(1, -1, 0)]), Some(ConfigError::ParticleOutsideArena));
    let mut fast = resting(5, 5, 0);
    fast.velocity = Velocity(Vector { x: 0, y: -501 });
    assert_eq!(err(vec![fast]), Some(ConfigError::ParticleTooFast));
    assert_eq!(
        Simulation::new(cfg, AttractionMatrix::new(3), vec![resting(1, 1, 0)]).err(),
        Some(ConfigError::BadMatrix)
    );
    let mut bad_cfg = cfg;
    bad_cfg.cutoff = 0;
    assert_eq!(
        Simulation::new(bad_cfg, m, vec![resting(1, 1, 0)]).err(),
        Some(ConfigError::BadCutoff)
    );
}

#[test]
fn simulation_ticks_its_population() {
    let cfg = config();
    let mut m = AttractionMatrix::new(2);
    m.set(0, 1, ONE);
    m.set(1, 0, -ONE);
    let mut sim = Simulation::new(cfg, m, vec![resting(400, 400, 0), resting(460, 400, 1)]).unwrap();
    sim.tick(ONE / 10, ONE);
    // Species 0 chases species 1, which flees: both move right.
    assert!(sim.particles[0].velocity.0.x > 0);
    assert!(sim.particles[1].velocity.0.x > 0);
    assert_eq!(sim.particles[0].velocity.0.x, sim.particles[1].velocity.0.x);
    assert_eq!(sim.particles[0].velocity.0.y, 0);
}

#[test]
fn resize_folds_particles_into_the_new_arena() {
    let cfg = config();
    let mut p = resting(900, 700, 1);
    p.velocity = Velocity(Vector { x: 12, y: -7 });
    let mut sim = Simulation::new(cfg, AttractionMatrix::new(2), vec![p, resting(10, 20, 0)]).unwrap();
    assert_eq!(sim.resize(0, 500), Err(ConfigError::BadArenaWidth));
    assert_eq!(sim.resize(500, 0), Err(ConfigError::BadArenaHeight));
    assert_eq!(sim.config.arena_width, 1000);
    assert_eq!(sim.resize(600, 500), Ok(()));
    assert_eq!(sim.config.arena_width, 600);
    assert_eq!(sim.config.arena_height, 500);
    assert_eq!(sim.particles[0].position, Vector { x: 300, y: 200 });
    assert_eq!(sim.particles[0].velocity, Velocity(Vector { x: 12, y: -7 }));
    assert_eq!(sim.particles[1].position, Vector { x: 10, y: 20 });
    sim.tick(16_000, ONE);
}

#[test]
fn simulation_rejects_too_many_particles() {
    let ps = vec![resting(1, 1, 0); particle_life::MAX_PARTICLES + 1];
    assert_eq!(
        Simulation::new(config(), AttractionMatrix::new(2), ps).err(),
        Some(ConfigError::TooManyParticles)
    );
}
