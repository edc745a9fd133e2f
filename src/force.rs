//! The force law: radial force magnitude as a function of normalised
//! distance and attraction coefficient.
use vstd::prelude::*;
use crate::fixed::{abs, div_trunc, lemma_div_below, lemma_div_trunc_bound, max, MAX_COEFFICIENT, ONE};

verus! {

/// A repulsion threshold `beta` (in millionths of the cutoff radius) that
/// leaves room for both regimes of the force law.
pub open spec fn valid_beta(beta: int) -> bool {
    0 < beta < ONE
}

pub open spec fn valid_coefficient(k: int) -> bool {
    -MAX_COEFFICIENT <= k <= MAX_COEFFICIENT
}

/// The triangular profile of the attraction regime: zero at `beta` and at
/// `ONE`, peaking at `ONE - beta` halfway between.
pub open spec fn triangle(r: int, beta: int) -> int {
    ONE - beta - abs(2 * r - ONE - beta)
}

/// The force at normalised distance `r` for coefficient `k`, both in
/// millionths: below `beta` a universal repulsion `r / beta - 1`, from
/// `beta` on `k * (1 - |2r - 1 - beta| / (1 - beta))`, each quotient
/// rounded toward zero.
pub open spec fn force_law(r: int, k: int, beta: int) -> int {
    if r < beta {
        div_trunc(r * ONE, beta) - ONE
    } else {
        div_trunc(k * triangle(r, beta), ONE - beta)
    }
}

/// Outside the repulsion zone the triangular profile stays within
/// `[0, ONE - beta]`.
pub proof fn lemma_triangle_range(r: int, beta: int)
    requires
        valid_beta(beta),
        beta <= r < ONE,
    ensures
        0 <= triangle(r, beta) <= ONE - beta,
{
}

/// The force law's bounds: its magnitude never exceeds `max(1, |k|)`, it
/// vanishes where the regimes meet, and it is strictly repulsive below
/// `beta` whatever the coefficient.
pub proof fn lemma_force_law_bounds(r: int, k: int, beta: int)
    requires
        0 <= r < ONE,
        valid_beta(beta),
        valid_coefficient(k),
    ensures
        abs(force_law(r, k, beta)) <= max(ONE as int, abs(k)),
        force_law(beta, k, beta) == 0,
        r < beta ==> force_law(r, k, beta) < 0,
{
    if r < beta {
        let q = r * ONE;
        assert(q < ONE * beta) by (nonlinear_arith)
            requires
                0 <= r < beta,
                q == r * ONE,
        {
        }
        lemma_div_below(q, beta, ONE as int);
    } else {
        let t = triangle(r, beta);
        lemma_triangle_range(r, beta);
        assert(abs(k * t) <= abs(k) * (ONE - beta)) by (nonlinear_arith)
            requires
                0 <= t <= ONE - beta,
        {
        }
        lemma_div_trunc_bound(k * t, ONE - beta, abs(k));
    }
    assert(triangle(beta, beta) == 0);
    assert(k * 0 == 0);
}

/// The force law on normalised distance `r_norm` and coefficient `k`, with
/// repulsion threshold `beta`, all in millionths. Callers filter out
/// distances outside `[0, 1)` before asking; a distance that rounds down
/// to zero gets the full repulsion.
pub fn force(r_norm: i64, k: i64, beta: i64) -> (f: i64)
    requires
        0 <= r_norm < ONE,
        valid_beta(beta as int),
        valid_coefficient(k as int),
    ensures
        f == force_law(r_norm as int, k as int, beta as int),
        abs(f as int) <= max(ONE as int, abs(k as int)),
        r_norm < beta ==> f < 0,
        r_norm == beta ==> f == 0,
{
    proof {
        lemma_force_law_bounds(r_norm as int, k as int, beta as int);
    }
    if r_norm < beta {
        assert(r_norm * ONE < ONE * ONE) by (nonlinear_arith)
            requires
                0 <= r_norm < ONE,
        {
        }
        return r_norm * ONE / beta - ONE;
    }
    let d = 2 * r_norm - ONE - beta;
    let t = if d < 0 {
        ONE - beta + d
    } else {
        ONE - beta - d
    };
    proof {
        lemma_triangle_range(r_norm as int, beta as int);
        assert(abs(k * t) <= MAX_COEFFICIENT * ONE) by (nonlinear_arith)
            requires
                0 <= t <= ONE,
                valid_coefficient(k as int),
        {
        }
    }
    k * t / (ONE - beta)
}

} // verus!
