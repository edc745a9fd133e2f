use particle_life::{
    confine_particles_by_respawn, confine_particles_by_wrap, min_image, wrap_axis, Particle,
    Species, Vector, Velocity,
};
use rand::rngs::SmallRng;
use rand::SeedableRng;

#[test]
fn wrap_far_edge_goes_to_zero() {
    assert_eq!(wrap_axis(1000, 1000), 0);
}

#[test]
fn wrap_just_below_zero_goes_below_far_edge() {
    assert_eq!(wrap_axis(-1, 1000), 999);
    assert_eq!(wrap_axis(-4_999, 1_000_000), 995_001);
}

#[test]
fn wrap_twice_is_wrap_once() {
    for p in [-999, -1, 0, 1, 500, 999, 1000, 1500, 1999] {
        let once = wrap_axis(p, 1000);
        assert!((0..1000).contains(&once));
        assert_eq!(wrap_axis(once, 1000), once);
    }
    for p in [0, 1, 500, 999] {
        assert_eq!(wrap_axis(p, 1000), p);
    }
}

#[test]
fn nearest_image_crosses_the_edge() {
    assert_eq!(min_image(10, 990, 1000), -20);
    assert_eq!(min_image(990, 10, 1000), 20);
    assert_eq!(min_image(100, 300, 1000), 200);
    assert_eq!(min_image(0, 500, 1000), 500);
}

fn particle(x: i64, y: i64) -> Particle {
    Particle {
        position: Vector { x, y },
        velocity: Velocity(Vector { x: 3, y: -4 }),
        species: Species(2),
    }
}

#[test]
fn wrap_policy_moves_each_axis_once() {
    let mut ps = vec![particle(-5, 20), particle(1000, 1005), particle(400, 600)];
    confine_particles_by_wrap(&mut ps, 1000, 1000);
    assert_eq!(ps[0].position, Vector { x: 995, y: 20 });
    assert_eq!(ps[1].position, Vector { x: 0, y: 5 });
    assert_eq!(ps[2].position, Vector { x: 400, y: 600 });
    assert_eq!(ps[0].velocity, Velocity(Vector { x: 3, y: -4 }));
}

#[test]
fn respawn_policy_returns_escapees_to_the_middle() {
    let mut rng = SmallRng::from_seed([3u8; 32]);
    let mut ps = vec![particle(-5, 20), particle(400, 600), particle(100, 1700)];
    confine_particles_by_respawn(&mut ps, 800, 1600, &mut rng);
    assert_eq!(ps[1], particle(400, 600));
    for p in [ps[0], ps[2]] {
        assert!((300..500).contains(&p.position.x));
        assert!((600..1000).contains(&p.position.y));
        assert_eq!(p.species, Species(2));
        assert_eq!(p.velocity, Velocity(Vector { x: 3, y: -4 }));
    }
}
