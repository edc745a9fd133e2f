//! Fixed-point conventions shared by the whole simulation kernel.
//!
//! Dimensionless quantities (attraction coefficients, the repulsion
//! threshold, normalised distances, force magnitudes, friction factors)
//! and durations are integers counted in millionths: `ONE` stands for 1.0,
//! and a duration of `ONE` is one second. Lengths are integers in whatever
//! unit the host picks for the arena.
use vstd::prelude::*;

verus! {

/// The fixed-point unit: `ONE` millionths make 1.0.
pub const ONE: i64 = 1_000_000;

/// The largest arena extent, on either axis, in length units.
pub const MAX_EXTENT: i64 = 1_073_741_824;

/// The largest magnitude of an attraction coefficient, in millionths.
pub const MAX_COEFFICIENT: i64 = 16_000_000;

/// The largest population the kernel accepts.
pub const MAX_PARTICLES: usize = 1_048_576;

/// The largest tick length, in microseconds (one minute).
pub const MAX_DT: i64 = 60_000_000;

/// Integer division rounding toward zero, as Rust's `/` does.
pub open spec fn div_trunc(a: int, b: int) -> int {
    if a >= 0 {
        a / b
    } else {
        -((-a) / b)
    }
}

pub open spec fn abs(a: int) -> int {
    if a < 0 {
        -a
    } else {
        a
    }
}

pub open spec fn max(a: int, b: int) -> int {
    if a < b {
        b
    } else {
        a
    }
}

/// Truncating division never grows a magnitude beyond the bound it is
/// divided from: `|a| <= m * b` gives `|a / b| <= m`.
pub proof fn lemma_div_trunc_bound(a: int, b: int, m: int)
    requires
        b > 0,
        m >= 0,
        abs(a) <= m * b,
    ensures
        abs(div_trunc(a, b)) <= m,
        a >= 0 ==> div_trunc(a, b) >= 0,
        a <= 0 ==> div_trunc(a, b) <= 0,
{
    let n = abs(a);
    assert(n / b <= m) by (nonlinear_arith)
        requires
            b > 0,
            m >= 0,
            0 <= n <= m * b,
    {
        assert(n / b <= (m * b) / b) by {
            vstd::arithmetic::div_mod::lemma_div_is_ordered(n, m * b, b);
        }
        vstd::arithmetic::div_mod::lemma_div_by_multiple(m, b);
    }
    assert(n / b >= 0) by {
        vstd::arithmetic::div_mod::lemma_div_pos_is_pos(n, b);
    }
}

/// A quotient stays below `m` when the dividend stays below `m` divisors.
pub proof fn lemma_div_below(n: int, b: int, m: int)
    requires
        b > 0,
        0 <= n < m * b,
    ensures
        0 <= n / b < m,
{
    vstd::arithmetic::div_mod::lemma_fundamental_div_mod(n, b);
    vstd::arithmetic::div_mod::lemma_div_pos_is_pos(n, b);
    vstd::arithmetic::div_mod::lemma_mod_pos_bound(n, b);
    let q = n / b;
    assert(q < m) by (nonlinear_arith)
        requires
            n == b * q + n % b,
            n % b >= 0,
            n < m * b,
            b > 0,
    {
    }
}

} // verus!
