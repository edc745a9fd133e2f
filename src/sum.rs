//! Finite sums over index ranges and over sequences of indices, and the
//! fact that lets a neighbour search replace an all-pairs sum.
use vstd::prelude::*;

verus! {

/// `f(0) + f(1) + ... + f(n - 1)`.
pub open spec fn sum_below(n: int, f: spec_fn(int) -> int) -> int
    decreases n,
{
    if n <= 0 {
        0
    } else {
        sum_below(n - 1, f) + f(n - 1)
    }
}

/// The sum of `f` over the entries of `s`, in order.
pub open spec fn sum_over(s: Seq<int>, f: spec_fn(int) -> int) -> int
    decreases s.len(),
{
    if s.len() == 0 {
        0
    } else {
        sum_over(s.drop_last(), f) + f(s.last())
    }
}

/// Sums of functions that agree on `[0, n)` are equal.
pub proof fn lemma_sum_below_ext(n: int, f: spec_fn(int) -> int, g: spec_fn(int) -> int)
    requires
        forall|j: int| 0 <= j < n ==> #[trigger] f(j) == g(j),
    ensures
        sum_below(n, f) == sum_below(n, g),
    decreases n,
{
    if n > 0 {
        lemma_sum_below_ext(n - 1, f, g);
    }
}

/// Adding `v` at the single index `x` adds `v` to the sum.
pub proof fn lemma_sum_below_bump(n: int, f: spec_fn(int) -> int, x: int, v: int)
    requires
        0 <= x < n,
    ensures
        sum_below(n, |j: int| f(j) + (if j == x { v } else { 0 })) == sum_below(n, f) + v,
    decreases n,
{
    let g = |j: int| f(j) + (if j == x { v } else { 0 });
    if n - 1 == x {
        lemma_sum_below_ext(n - 1, f, g);
    } else {
        lemma_sum_below_bump(n - 1, f, x, v);
    }
}

/// Bounded terms give a bounded sum.
pub proof fn lemma_sum_below_bound(n: int, f: spec_fn(int) -> int, m: int)
    requires
        n >= 0,
        m >= 0,
        forall|j: int| 0 <= j < n ==> -m <= #[trigger] f(j) <= m,
    ensures
        -(n * m) <= sum_below(n, f) <= n * m,
    decreases n,
{
    if n > 0 {
        lemma_sum_below_bound(n - 1, f, m);
        assert((n - 1) * m + m == n * m) by (nonlinear_arith);
    }
}

/// Summing over a duplicate-free sequence of indices in `[0, n)` is summing
/// over `[0, n)` the terms whose index the sequence holds.
proof fn lemma_sum_over_as_indicator(s: Seq<int>, n: int, f: spec_fn(int) -> int)
    requires
        s.no_duplicates(),
        forall|t: int| 0 <= t < s.len() ==> 0 <= #[trigger] s[t] < n,
    ensures
        sum_over(s, f) == sum_below(n, |j: int| if s.contains(j) { f(j) } else { 0 }),
    decreases s.len(),
{
    let g = |j: int| if s.contains(j) { f(j) } else { 0 };
    if s.len() == 0 {
        let z = |j: int| 0int;
        lemma_sum_below_ext(n, g, z);
        lemma_sum_below_bound(if n < 0 { 0 } else { n }, z, 0);
        if n >= 0 {
            assert(n * 0 == 0) by (nonlinear_arith);
        }
    } else {
        let p = s.drop_last();
        let x = s.last();
        assert forall|t: int| 0 <= t < p.len() implies 0 <= #[trigger] p[t] < n by {
            assert(p[t] == s[t]);
        }
        assert(p.no_duplicates()) by {
            assert forall|a: int, b: int| 0 <= a < p.len() && 0 <= b < p.len() && a != b
                implies p[a] != p[b] by {
                assert(p[a] == s[a] && p[b] == s[b]);
            }
        }
        lemma_sum_over_as_indicator(p, n, f);
        let h = |j: int| if p.contains(j) { f(j) } else { 0 };
        assert(!p.contains(x)) by {
            if p.contains(x) {
                let t = choose|t: int| 0 <= t < p.len() && p[t] == x;
                assert(s[t] == s[s.len() - 1]);
            }
        }
        assert forall|j: int| 0 <= j < n implies #[trigger] g(j) == h(j) + (if j == x { f(x) } else { 0 }) by {
            if s.contains(j) && j != x {
                let t = choose|t: int| 0 <= t < s.len() && s[t] == j;
                assert(p[t] == j);
            }
            if p.contains(j) {
                let t = choose|t: int| 0 <= t < p.len() && p[t] == j;
                assert(s[t] == j);
            }
            assert(s[s.len() - 1] == x);
        }
        assert(0 <= x < n) by {
            assert(s[s.len() - 1] == x);
        }
        lemma_sum_below_bump(n, h, x, f(x));
        lemma_sum_below_ext(n, g, |j: int| h(j) + (if j == x { f(x) } else { 0 }));
    }
}

/// A duplicate-free sequence of indices in `[0, n)` that holds every index
/// whose term is nonzero sums to the same as the whole range.
pub proof fn lemma_sum_over_cover(s: Seq<int>, n: int, f: spec_fn(int) -> int)
    requires
        s.no_duplicates(),
        forall|t: int| 0 <= t < s.len() ==> 0 <= #[trigger] s[t] < n,
        forall|j: int| 0 <= j < n && #[trigger] f(j) != 0 ==> s.contains(j),
    ensures
        sum_over(s, f) == sum_below(n, f),
{
    lemma_sum_over_as_indicator(s, n, f);
    lemma_sum_below_ext(n, |j: int| if s.contains(j) { f(j) } else { 0 }, f);
}

} // verus!
