use particle_life::{force, integer_sqrt, ONE};

const BETA: i64 = 300_000;

#[test]
fn force_peaks_in_attraction_zone() {
    // r = 0.6, k = 1: 1 - |1.2 - 1 - 0.3| / 0.7 = 0.857142...
    assert_eq!(force(600_000, ONE, BETA), 857_142);
}

#[test]
fn force_vanishes_at_beta() {
    for k in [-ONE, -300_000, 0, 450_000, ONE] {
        assert_eq!(force(BETA, k, BETA), 0);
    }
}

#[test]
fn force_is_repulsive_below_beta_whatever_k() {
    for k in [-ONE, 0, ONE] {
        for r in [0, 1, 100_000, 150_000, 299_999] {
            assert!(force(r, k, BETA) < 0);
        }
    }
    assert_eq!(force(100_000, ONE, BETA), -666_667);
    assert_eq!(force(0, ONE, BETA), -ONE);
}

#[test]
fn force_is_bounded() {
    for k in [-ONE, -500_000, 0, 500_000, ONE] {
        let mut r = 0;
        while r < ONE {
            let f = force(r, k, BETA);
            assert!(f.abs() <= ONE.max(k.abs()));
            r += 7_919;
        }
    }
}

#[test]
fn force_scales_with_negative_coefficient() {
    assert_eq!(force(600_000, -ONE, BETA), -857_142);
    // Peak of the triangle at (1 + beta) / 2.
    assert_eq!(force(650_000, 500_000, BETA), 500_000);
    // Vanishes again toward the cutoff.
    assert_eq!(force(999_999, ONE, BETA), 2);
}

#[test]
fn integer_square_roots() {
    assert_eq!(integer_sqrt(0), 0);
    assert_eq!(integer_sqrt(1), 1);
    assert_eq!(integer_sqrt(15), 3);
    assert_eq!(integer_sqrt(16), 4);
    assert_eq!(integer_sqrt(3_600), 60);
    assert_eq!(integer_sqrt(1 << 60), 1 << 30);
    assert_eq!(integer_sqrt((1 << 60) - 1), (1 << 30) - 1);
}
