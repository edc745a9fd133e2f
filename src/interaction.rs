//! The force one particle feels from another: the displacement through the
//! nearest periodic image, its length, and the force law along it.
use vstd::prelude::*;
use crate::boundary::{in_extent, min_image, min_image_spec};
use crate::components::{Particle, Vector};
use crate::config::SimulationConfig;
use crate::fixed::{abs, div_trunc, lemma_div_below, lemma_div_trunc_bound, MAX_COEFFICIENT, MAX_EXTENT, ONE};
use crate::force::{force, force_law, lemma_force_law_bounds, valid_coefficient};
use crate::matrix::AttractionMatrix;

verus! {

/// `r` is the integer square root of `s`.
pub open spec fn is_root(r: int, s: int) -> bool {
    0 <= r && r * r <= s < (r + 1) * (r + 1)
}

/// The integer square root: the largest `r` with `r * r <= s`.
pub open spec fn isqrt(s: int) -> int {
    choose|r: int| #[trigger] is_root(r, s)
}

proof fn lemma_root_unique(r1: int, r2: int, s: int)
    requires
        is_root(r1, s),
        is_root(r2, s),
    ensures
        r1 == r2,
{
    if r1 < r2 {
        assert((r1 + 1) * (r1 + 1) <= r2 * r2) by (nonlinear_arith)
            requires
                0 <= r1 < r2,
        {
        }
    } else if r2 < r1 {
        assert((r2 + 1) * (r2 + 1) <= r1 * r1) by (nonlinear_arith)
            requires
                0 <= r2 < r1,
        {
        }
    }
}

/// The integer square root of `s`, by bisection.
pub fn integer_sqrt(s: u64) -> (r: u64)
    requires
        s < 0x4000_0000_0000_0000,
    ensures
        r == isqrt(s as int),
        is_root(r as int, s as int),
        r < 0x8000_0000,
{
    let mut lo: u64 = 0;
    let mut hi: u64 = 0x8000_0000;
    while hi - lo > 1
        invariant
            lo < hi <= 0x8000_0000,
            lo * lo <= s,
            s < hi * hi,
        decreases hi - lo,
    {
        let mid = lo + (hi - lo) / 2;
        assert(mid * mid <= 0x4000_0000_0000_0000) by (nonlinear_arith)
            requires
                mid <= 0x8000_0000,
        {
        }
        if mid * mid <= s {
            lo = mid;
        } else {
            hi = mid;
        }
    }
    proof {
        assert(is_root(lo as int, s as int));
        lemma_root_unique(lo as int, isqrt(s as int), s as int);
    }
    lo
}

/// The displacement from `a` to `b` through the nearest periodic image.
pub open spec fn separation(cfg: SimulationConfig, a: Vector, b: Vector) -> (int, int) {
    (
        min_image_spec(b.x - a.x, cfg.arena_width as int),
        min_image_spec(b.y - a.y, cfg.arena_height as int),
    )
}

/// The force `a` feels from `b`, in millionths per unit of normalised
/// distance: zero unless they lie strictly between zero and the cutoff
/// apart, else the force law at their normalised distance times the unit
/// vector from `a` toward `b`.
pub open spec fn pair_force(
    cfg: SimulationConfig,
    m: AttractionMatrix,
    a: Particle,
    b: Particle,
) -> (int, int) {
    let (dx, dy) = separation(cfg, a.position, b.position);
    let r = isqrt(dx * dx + dy * dy);
    if r <= 0 || r >= cfg.cutoff {
        (0, 0)
    } else {
        let f = force_law(
            r * ONE / (cfg.cutoff as int),
            m.k(a.species.0 as int, b.species.0 as int),
            cfg.beta as int,
        );
        (div_trunc(f * dx, r), div_trunc(f * dy, r))
    }
}

/// The largest magnitude of one component of a pair's force.
pub open spec fn max_pair_force() -> int {
    MAX_COEFFICIENT as int
}

/// Both particles lie in the arena and have species the matrix knows.
pub open spec fn pair_ok(cfg: SimulationConfig, m: AttractionMatrix, a: Particle, b: Particle) -> bool {
    &&& cfg.wf()
    &&& m.wf()
    &&& in_extent(a.position.x as int, cfg.arena_width as int)
    &&& in_extent(a.position.y as int, cfg.arena_height as int)
    &&& in_extent(b.position.x as int, cfg.arena_width as int)
    &&& in_extent(b.position.y as int, cfg.arena_height as int)
    &&& (a.species.0 as int) < m.species
    &&& (b.species.0 as int) < m.species
}

/// Each component of a pair's force is bounded by the largest coefficient.
pub proof fn lemma_pair_force_bound(
    cfg: SimulationConfig,
    m: AttractionMatrix,
    a: Particle,
    b: Particle,
)
    requires
        pair_ok(cfg, m, a, b),
    ensures
        abs(pair_force(cfg, m, a, b).0) <= max_pair_force(),
        abs(pair_force(cfg, m, a, b).1) <= max_pair_force(),
{
    let (dx, dy) = separation(cfg, a.position, b.position);
    let s = dx * dx + dy * dy;
    assert(s >= 0) by (nonlinear_arith)
        requires
            s == dx * dx + dy * dy,
    {
    }
    let r = isqrt(s);
    assert(exists|r: int| #[trigger] is_root(r, s)) by {
        // Some root exists: bisection finds one.
        lemma_root_exists(s);
    }
    if !(r <= 0 || r >= cfg.cutoff) {
        let k = m.k(a.species.0 as int, b.species.0 as int);
        m.lemma_k_valid(a.species.0 as int, b.species.0 as int);
        let rn = r * ONE / (cfg.cutoff as int);
        assert(r * ONE < cfg.cutoff * ONE) by (nonlinear_arith)
            requires
                0 < r < cfg.cutoff,
        {
        }
        lemma_div_below(r * ONE, cfg.cutoff as int, ONE as int);
        lemma_force_law_bounds_closed(rn, k, cfg.beta as int);
        let f = force_law(rn, k, cfg.beta as int);
        assert(abs(f * dx) <= MAX_COEFFICIENT * r && abs(f * dy) <= MAX_COEFFICIENT * r)
            by (nonlinear_arith)
            requires
                abs(f) <= MAX_COEFFICIENT,
                dx * dx + dy * dy < (r + 1) * (r + 1),
                r > 0,
        {
            if abs(dx) > r {
                assert(dx * dx >= (r + 1) * (r + 1));
            }
            if abs(dy) > r {
                assert(dy * dy >= (r + 1) * (r + 1));
            }
        }
        lemma_div_trunc_bound(f * dx, r, MAX_COEFFICIENT as int);
        lemma_div_trunc_bound(f * dy, r, MAX_COEFFICIENT as int);
    }
}

/// The force law's bound, on `[0, 1)`, in terms of the largest coefficient.
proof fn lemma_force_law_bounds_closed(r: int, k: int, beta: int)
    requires
        0 <= r < ONE,
        0 < beta < ONE,
        valid_coefficient(k),
    ensures
        abs(force_law(r, k, beta)) <= MAX_COEFFICIENT,
{
    lemma_force_law_bounds(r, k, beta);
}

/// Every natural number below `2^62` has an integer square root.
pub proof fn lemma_root_exists(s: int)
    requires
        0 <= s,
    ensures
        exists|r: int| #[trigger] is_root(r, s),
    decreases s,
{
    if s == 0 {
        assert(is_root(0, 0));
    } else {
        lemma_root_exists(s - 1);
        let r = choose|r: int| #[trigger] is_root(r, s - 1);
        if s < (r + 1) * (r + 1) {
            assert(is_root(r, s));
        } else {
            assert(s == (r + 1) * (r + 1));
            assert(s < (r + 2) * (r + 2)) by (nonlinear_arith)
                requires
                    s == (r + 1) * (r + 1),
                    r >= 0,
            {
            }
            assert(is_root(r + 1, s));
        }
    }
}

/// The force `a` feels from `b` (see `pair_force`).
pub fn interaction(cfg: &SimulationConfig, m: &AttractionMatrix, a: &Particle, b: &Particle) -> (r:
    (i64, i64))
    requires
        pair_ok(*cfg, *m, *a, *b),
    ensures
        r.0 as int == pair_force(*cfg, *m, *a, *b).0,
        r.1 as int == pair_force(*cfg, *m, *a, *b).1,
        abs(r.0 as int) <= max_pair_force(),
        abs(r.1 as int) <= max_pair_force(),
{
    proof {
        lemma_pair_force_bound(*cfg, *m, *a, *b);
    }
    let dx = min_image(a.position.x, b.position.x, cfg.arena_width);
    let dy = min_image(a.position.y, b.position.y, cfg.arena_height);
    assert(dx * dx <= 0x1000_0000_0000_0000 && dy * dy <= 0x1000_0000_0000_0000) by (nonlinear_arith)
        requires
            2 * dx <= MAX_EXTENT,
            2 * dx >= -MAX_EXTENT,
            2 * dy <= MAX_EXTENT,
            2 * dy >= -MAX_EXTENT,
    {
    }
    assert(dx * dx + dy * dy >= 0) by (nonlinear_arith);
    let s = (dx * dx + dy * dy) as u64;
    let r = integer_sqrt(s) as i64;
    if r <= 0 || r >= cfg.cutoff {
        return (0, 0);
    }
    assert(r * ONE < cfg.cutoff * ONE) by (nonlinear_arith)
        requires
            0 < r < cfg.cutoff,
    {
    }
    proof {
        lemma_div_below(r * ONE, cfg.cutoff as int, ONE as int);
    }
    let rn = r * ONE / cfg.cutoff;
    let k = m.get(a.species.0 as usize, b.species.0 as usize);
    let f = force(rn, k, cfg.beta);
    assert(abs(f * dx) <= MAX_COEFFICIENT * MAX_EXTENT && abs(f * dy) <= MAX_COEFFICIENT
        * MAX_EXTENT) by (nonlinear_arith)
        requires
            abs(f as int) <= MAX_COEFFICIENT,
            abs(dx as int) <= MAX_EXTENT,
            abs(dy as int) <= MAX_EXTENT,
    {
    }
    (f * dx / r, f * dy / r)
}

} // verus!
