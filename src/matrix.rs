//! The attraction matrix: one signed coefficient per ordered pair of species.
use vstd::prelude::*;
use crate::fixed::ONE;
use crate::force::valid_coefficient;
use crate::rng::{draw_in_range, seeded_rng};

verus! {

/// The most species a simulation has: a species is a `u8`.
pub const MAX_SPECIES: usize = 256;

/// `k[i][j]`, in millionths, is the coefficient applied when a particle of
/// species `i` feels one of species `j`; it need not be symmetric.
pub struct AttractionMatrix {
    pub species: usize,
    /// Row-major: `k[i][j]` at `i * species + j`.
    pub coefficients: Vec<i64>,
}

impl AttractionMatrix {
    pub open spec fn k(self, i: int, j: int) -> int {
        self.coefficients@[i * self.species + j] as int
    }

    /// Square, fully populated, every coefficient within range.
    pub open spec fn wf(self) -> bool {
        &&& 1 <= self.species <= MAX_SPECIES
        &&& self.coefficients@.len() == self.species * self.species
        &&& forall|t: int|
            0 <= t < self.coefficients@.len() ==> valid_coefficient(
                #[trigger] self.coefficients@[t] as int,
            )
    }

    /// A cell's position in the row-major table.
    proof fn lemma_cell_index(self, i: int, j: int)
        requires
            self.wf(),
            0 <= i < self.species,
            0 <= j < self.species,
        ensures
            0 <= i * self.species + j < self.coefficients@.len(),
            i * self.species + j < MAX_SPECIES * MAX_SPECIES,
    {
        let n = self.species as int;
        assert(0 <= i * n + j < n * n) by (nonlinear_arith)
            requires
                0 <= i < n,
                0 <= j < n,
        {
        }
        assert(n * n <= MAX_SPECIES * MAX_SPECIES) by (nonlinear_arith)
            requires
                0 <= n <= MAX_SPECIES,
        {
        }
    }

    /// Every coefficient of a well-formed matrix is within range.
    pub proof fn lemma_k_valid(self, i: int, j: int)
        requires
            self.wf(),
            0 <= i < self.species,
            0 <= j < self.species,
        ensures
            valid_coefficient(self.k(i, j)),
    {
        self.lemma_cell_index(i, j);
    }

    /// A neutral matrix of `species` species: every coefficient zero.
    pub fn new(species: usize) -> (m: AttractionMatrix)
        requires
            1 <= species <= MAX_SPECIES,
        ensures
            m.wf(),
            m.species == species,
            forall|i: int, j: int|
                0 <= i < species && 0 <= j < species ==> #[trigger] m.k(i, j) == 0,
    {
        assert(species * species <= MAX_SPECIES * MAX_SPECIES) by (nonlinear_arith)
            requires
                species <= MAX_SPECIES,
        {
        }
        let total = species * species;
        let mut coefficients: Vec<i64> = Vec::new();
        let mut t: usize = 0;
        while t < total
            invariant
                t <= total,
                coefficients@.len() == t,
                forall|u: int| 0 <= u < t ==> #[trigger] coefficients@[u] == 0,
            decreases total - t,
        {
            coefficients.push(0);
            t += 1;
        }
        let m = AttractionMatrix { species, coefficients };
        assert forall|i: int, j: int| 0 <= i < species && 0 <= j < species implies #[trigger] m.k(
            i,
            j,
        ) == 0 by {
            m.lemma_cell_index(i, j);
        }
        m
    }

    /// The coefficient for species `i` feeling species `j`.
    pub fn get(&self, i: usize, j: usize) -> (k: i64)
        requires
            self.wf(),
            i < self.species,
            j < self.species,
        ensures
            k == self.k(i as int, j as int),
            valid_coefficient(k as int),
    {
        proof {
            self.lemma_cell_index(i as int, j as int);
        }
        self.coefficients[i * self.species + j]
    }

    /// Sets the coefficient for species `i` feeling species `j`, leaving
    /// every other one as it was.
    pub fn set(&mut self, i: usize, j: usize, k: i64)
        requires
            old(self).wf(),
            i < old(self).species,
            j < old(self).species,
            valid_coefficient(k as int),
        ensures
            final(self).wf(),
            final(self).species == old(self).species,
            final(self).k(i as int, j as int) == k,
            forall|a: int, b: int|
                0 <= a < old(self).species && 0 <= b < old(self).species && (a, b) != (i as int, j as int)
                    ==> #[trigger] final(self).k(a, b) == old(self).k(a, b),
    {
        proof {
            self.lemma_cell_index(i as int, j as int);
        }
        let n = self.species;
        self.coefficients.set(i * n + j, k);
        assert forall|a: int, b: int|
            0 <= a < n && 0 <= b < n && (a, b) != (i as int, j as int)
                implies #[trigger] self.k(a, b) == old(self).k(a, b) by {
            old(self).lemma_cell_index(a, b);
            assert(a * n + b != i * n + j) by (nonlinear_arith)
                requires
                    0 <= a < n,
                    0 <= b < n,
                    0 <= i < n,
                    0 <= j < n,
                    (a, b) != (i as int, j as int),
            {
                if a < i {
                    assert(a * n + b < (a + 1) * n);
                    assert((a + 1) * n <= i * n);
                } else if a > i {
                    assert(i * n + j < (i + 1) * n);
                    assert((i + 1) * n <= a * n);
                }
            }
        }
    }

    /// A matrix of `species` species whose coefficients are drawn uniformly
    /// from `[-1, 1)` by a generator seeded with `seed`.
    pub fn random(species: usize, seed: [u8; 32]) -> (m: AttractionMatrix)
        requires
            1 <= species <= MAX_SPECIES,
        ensures
            m.wf(),
            m.species == species,
            forall|i: int, j: int|
                0 <= i < species && 0 <= j < species ==> -ONE <= #[trigger] m.k(i, j) < ONE,
    {
        let mut rng = seeded_rng(seed);
        let mut m = AttractionMatrix::new(species);
        let mut i: usize = 0;
        while i < species
            invariant
                m.wf(),
                m.species == species,
                i <= species,
                forall|a: int, b: int|
                    0 <= a < i && 0 <= b < species ==> -ONE <= #[trigger] m.k(a, b) < ONE,
            decreases species - i,
        {
            let mut j: usize = 0;
            while j < species
                invariant
                    m.wf(),
                    m.species == species,
                    i < species,
                    j <= species,
                    forall|a: int, b: int|
                        0 <= a < i && 0 <= b < species ==> -ONE <= #[trigger] m.k(a, b) < ONE,
                    forall|b: int| 0 <= b < j ==> -ONE <= #[trigger] m.k(i as int, b) < ONE,
                decreases species - j,
            {
                let k = draw_in_range(&mut rng, -ONE, ONE);
                m.set(i, j, k);
                j += 1;
            }
            i += 1;
        }
        m
    }

    /// The "worms" pattern: every species attracts its own kind strongly
    /// (2.0) and the next species weakly (0.2); every other coefficient
    /// is zero.
    pub fn worms(species: usize) -> (m: AttractionMatrix)
        requires
            1 <= species <= MAX_SPECIES,
        ensures
            m.wf(),
            m.species == species,
            forall|i: int, j: int|
                0 <= i < species && 0 <= j < species ==> #[trigger] m.k(i, j) == if i == j {
                    2 * ONE
                } else if j == i + 1 {
                    ONE / 5
                } else {
                    0
                },
    {
        let mut m = AttractionMatrix::new(species);
        let mut i: usize = 0;
        while i < species
            invariant
                m.wf(),
                m.species == species,
                i <= species,
                forall|a: int, b: int|
                    0 <= a < species && 0 <= b < species ==> #[trigger] m.k(a, b) == if a >= i {
                        0
                    } else if a == b {
                        2 * ONE
                    } else if b == a + 1 {
                        ONE / 5
                    } else {
                        0
                    },
            decreases species - i,
        {
            m.set(i, i, 2 * ONE);
            if i + 1 < species {
                m.set(i, i + 1, ONE / 5);
            }
            i += 1;
        }
        m
    }
}

} // verus!
