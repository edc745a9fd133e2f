//! The uniform spatial grid that restricts the force computation to
//! particles in neighbouring cells.
use vstd::prelude::*;
use ndarray::Array2;
use crate::boundary::{in_extent, min_image_spec};
use crate::components::{Particle, Vector};
use crate::fixed::{abs, lemma_div_below, MAX_EXTENT, MAX_PARTICLES};

verus! {

/// The cells of a grid: one list of particle indices per (column, row),
/// kept in an ndarray `Array2`. Verus declines ndarray's own type, so it is
/// held here, out of the verifier's sight, and reached only through the
/// trusted functions below.
#[verifier::external_body]
pub struct CellTable {
    cells: Array2<Vec<usize>>,
}

/// The particle lists held by a table of cells, by (column, row).
pub uninterp spec fn cell_lists(a: CellTable) -> Map<(int, int), Seq<usize>>;

/// The (columns, rows) shape of a table of cells.
pub uninterp spec fn cell_shape(a: CellTable) -> (int, int);

/// Relies on ndarray's `Array2::from_elem`: an array of the given shape,
/// each element a clone of the given empty vector. It panics when the
/// element count overflows `isize`.
#[verifier::external_body]
fn new_cell_table(columns: usize, rows: usize) -> (a: CellTable)
    requires
        columns * rows <= isize::MAX,
    ensures
        cell_shape(a) == (columns as int, rows as int),
        forall|x: int, y: int|
            0 <= x < columns && 0 <= y < rows ==> #[trigger] cell_lists(a).contains_key((x, y))
                && cell_lists(a)[(x, y)] == Seq::<usize>::empty(),
{
    CellTable { cells: Array2::from_elem((columns, rows), Vec::new()) }
}

/// Relies on ndarray's `IndexMut<[usize; 2]>` for `Array2`, which panics
/// outside the shape, and on `Vec::push` on the element it hands out.
#[verifier::external_body]
fn push_to_cell(a: &mut CellTable, x: usize, y: usize, v: usize)
    requires
        x < cell_shape(*old(a)).0,
        y < cell_shape(*old(a)).1,
    ensures
        cell_shape(*final(a)) == cell_shape(*old(a)),
        cell_lists(*final(a)) == cell_lists(*old(a)).insert(
            (x as int, y as int),
            cell_lists(*old(a))[(x as int, y as int)].push(v),
        ),
{
    a.cells[[x, y]].push(v);
}

/// Relies on ndarray's `Index<[usize; 2]>` for `Array2`, which panics
/// outside the shape.
#[verifier::external_body]
fn cell_at(a: &CellTable, x: usize, y: usize) -> (r: &Vec<usize>)
    requires
        x < cell_shape(*a).0,
        y < cell_shape(*a).1,
    ensures
        r@ == cell_lists(*a)[(x as int, y as int)],
{
    &a.cells[[x, y]]
}

/// The most cells a grid has along one axis. Fewer, larger cells keep
/// every cell at least one cutoff wide, so capping the count is harmless.
pub const MAX_GRID_SIDE: usize = 1024;

impl SpatialGrid {
    /// The distinct cells of the 3x3 block round cell `(x, y)`, wrapping
    /// round the grid's edges; fewer than nine where the grid is narrower
    /// than three cells.
    pub fn block_cells(&self, x: usize, y: usize) -> (r: Vec<(usize, usize)>)
        requires
            self.shape_ok(),
            self.in_grid(x as int, y as int),
        ensures
            r@.no_duplicates(),
            forall|k: int|
                0 <= k < r.len() ==> self.in_grid(#[trigger] r[k].0 as int, r[k].1 as int)
                    && self.in_block(x as int, y as int, r[k].0 as int, r[k].1 as int),
            forall|u: int, v: int|
                self.in_grid(u, v) && #[trigger] self.in_block(x as int, y as int, u, v)
                    ==> r@.contains((u as usize, v as usize)),
    {
        let px = if x == 0 {
            self.columns - 1
        } else {
            x - 1
        };
        let nx = if x + 1 >= self.columns {
            0
        } else {
            x + 1
        };
        let py = if y == 0 {
            self.rows - 1
        } else {
            y - 1
        };
        let ny = if y + 1 >= self.rows {
            0
        } else {
            y + 1
        };
        let candidates: Vec<(usize, usize)> = vec![
            (px, py),
            (x, py),
            (nx, py),
            (px, y),
            (x, y),
            (nx, y),
            (px, ny),
            (x, ny),
            (nx, ny),
        ];
        let mut r: Vec<(usize, usize)> = Vec::new();
        let mut q: usize = 0;
        while q < candidates.len()
            invariant
                self.shape_ok(),
                self.in_grid(x as int, y as int),
                candidates@ == seq![
                    (px, py),
                    (x, py),
                    (nx, py),
                    (px, y),
                    (x, y),
                    (nx, y),
                    (px, ny),
                    (x, ny),
                    (nx, ny),
                ],
                px as int == prev_cell(x as int, self.columns as int),
                nx as int == next_cell(x as int, self.columns as int),
                py as int == prev_cell(y as int, self.rows as int),
                ny as int == next_cell(y as int, self.rows as int),
                q <= candidates.len(),
                r@.no_duplicates(),
                forall|k: int|
                    0 <= k < r.len() ==> self.in_grid(#[trigger] r[k].0 as int, r[k].1 as int)
                        && self.in_block(x as int, y as int, r[k].0 as int, r[k].1 as int),
                forall|k: int| 0 <= k < q ==> r@.contains(#[trigger] candidates@[k]),
            decreases candidates.len() - q,
        {
            let cand = candidates[q];
            let mut k: usize = 0;
            let mut found = false;
            while k < r.len()
                invariant
                    k <= r.len(),
                    found == exists|i: int| 0 <= i < k && r@[i] == cand,
                decreases r.len() - k,
            {
                if r[k].0 == cand.0 && r[k].1 == cand.1 {
                    found = true;
                }
                k += 1;
            }
            if !found {
                let ghost before = r@;
                r.push(cand);
                assert(r@[r.len() - 1] == cand);
                assert forall|k: int| 0 <= k < q implies r@.contains(#[trigger] candidates@[k]) by {
                    let i = choose|i: int| 0 <= i < before.len() && before[i] == candidates@[k];
                    assert(r@[i] == before[i]);
                }
            } else {
                proof {
                    let i = choose|i: int| 0 <= i < r.len() && r@[i] == cand;
                    assert(r@.contains(cand));
                }
            }
            q += 1;
        }
        assert forall|u: int, v: int|
            self.in_grid(u, v) && #[trigger] self.in_block(
                x as int,
                y as int,
                u,
                v,
            ) implies r@.contains((u as usize, v as usize)) by {
            let row: int = if v == py as int {
                0int
            } else if v == y as int {
                3int
            } else {
                6int
            };
            let col: int = if u == px as int {
                0int
            } else if u == x as int {
                1int
            } else {
                2int
            };
            let q: int = row + col;
            assert(candidates@[q] == (u as usize, v as usize));
        }
        r
    }

    /// The particles in the 3x3 block of cells round cell `(x, y)`: each
    /// once, and every particle whose cell lies in the block.
    pub fn neighbours_of(&self, x: usize, y: usize) -> (r: Vec<usize>)
        requires
            self.wf(),
            self.in_grid(x as int, y as int),
        ensures
            r@.no_duplicates(),
            forall|s: int|
                0 <= s < r.len() ==> #[trigger] r[s] < self.particles@.len() && self.in_block(
                    x as int,
                    y as int,
                    self.home(r[s] as int).0,
                    self.home(r[s] as int).1,
                ),
            forall|j: int|
                0 <= j < self.particles@.len() && self.in_block(
                    x as int,
                    y as int,
                    #[trigger] self.home(j).0,
                    self.home(j).1,
                ) ==> r@.contains(j as usize),
    {
        let cells = self.block_cells(x, y);
        let n = Ghost(self.particles@.len() as int);
        let mut r: Vec<usize> = Vec::new();
        let mut k: usize = 0;
        while k < cells.len()
            invariant
                self.wf(),
                self.in_grid(x as int, y as int),
                n@ == self.particles@.len(),
                k <= cells.len(),
                cells@.no_duplicates(),
                forall|q: int|
                    0 <= q < cells.len() ==> self.in_grid(
                        #[trigger] cells[q].0 as int,
                        cells[q].1 as int,
                    ) && self.in_block(x as int, y as int, cells[q].0 as int, cells[q].1 as int),
                forall|u: int, v: int|
                    self.in_grid(u, v) && #[trigger] self.in_block(x as int, y as int, u, v)
                        ==> cells@.contains((u as usize, v as usize)),
                r@.no_duplicates(),
                forall|s: int|
                    0 <= s < r.len() ==> #[trigger] r[s] < n@ && listed(
                        cells@,
                        k as int,
                        self.home(r[s] as int),
                    ),
                forall|j: int|
                    0 <= j < n@ && listed(cells@, k as int, #[trigger] self.home(j))
                        ==> r@.contains(j as usize),
            decreases cells.len() - k,
        {
            let (cx, cy) = cells[k];
            let list = cell_at(&self.cells, cx, cy);
            let mut t: usize = 0;
            while t < list.len()
                invariant
                    self.wf(),
                    n@ == self.particles@.len(),
                    k < cells.len(),
                    cells@[k as int] == (cx, cy),
                    self.in_grid(cx as int, cy as int),
                    list@ == self.members(cx as int, cy as int),
                    cells@.no_duplicates(),
                    t <= list.len(),
                    r@.no_duplicates(),
                    forall|s: int|
                        0 <= s < r.len() ==> #[trigger] r[s] < n@ && (listed(
                            cells@,
                            k as int,
                            self.home(r[s] as int),
                        ) || exists|i: int| 0 <= i < t && list@[i] == r[s]),
                    forall|j: int|
                        0 <= j < n@ && (listed(cells@, k as int, #[trigger] self.home(j)) || exists|
                            i: int,
                        |
                            0 <= i < t && list@[i] == j as usize) ==> r@.contains(j as usize),
                decreases list.len() - t,
            {
                let j = list[t];
                assert(self.members(cx as int, cy as int)[t as int] == j);
                assert(self.home(j as int) == (cx as int, cy as int));
                proof {
                assert(!r@.contains(j)) by {
                    if r@.contains(j) {
                        let s = choose|s: int| 0 <= s < r.len() && r@[s] == j;
                        if listed(cells@, k as int, self.home(r[s] as int)) {
                            let q = choose|q: int|
                                0 <= q < k && cells@[q].0 as int == cx as int && cells@[q].1 as int
                                    == cy as int;
                            assert(cells@[q] == cells@[k as int]);
                        } else {
                            let i = choose|i: int| 0 <= i < t && list@[i] == r[s];
                            assert(self.members(cx as int, cy as int)[i] < self.members(
                                cx as int,
                                cy as int,
                            )[t as int]);
                        }
                    }
                }
                }
                let ghost before = r@;
                r.push(j);
                proof {
                assert forall|s: int| 0 <= s < r.len() implies #[trigger] r[s] < n@ && (listed(
                    cells@,
                    k as int,
                    self.home(r[s] as int),
                ) || exists|i: int| 0 <= i < t + 1 && list@[i] == r[s]) by {
                    if s < before.len() {
                        assert(r[s] == before[s]);
                    } else {
                        assert(list@[t as int] == r[s]);
                    }
                }
                assert forall|i: int|
                    0 <= i < r.len() - 1 implies #[trigger] r@[i] == before[i] by {}
                assert forall|jj: int|
                    0 <= jj < n@ && (listed(cells@, k as int, #[trigger] self.home(jj)) || exists|
                        i: int,
                    |
                        0 <= i < t + 1 && list@[i] == jj as usize) implies r@.contains(
                    jj as usize,
                ) by {
                    if listed(cells@, k as int, self.home(jj)) || exists|i: int|
                        0 <= i < t && list@[i] == jj as usize {
                        let s = choose|s: int| 0 <= s < before.len() && before[s] == jj as usize;
                        assert(r@[s] == jj as usize);
                    } else {
                        assert(r@[r.len() - 1] == jj as usize);
                    }
                }
                }
                t += 1;
            }
            proof {
            assert forall|s: int| 0 <= s < r.len() implies #[trigger] r[s] < n@ && listed(
                cells@,
                k + 1,
                self.home(r[s] as int),
            ) by {
                if !listed(cells@, k as int, self.home(r[s] as int)) {
                    let i = choose|i: int| 0 <= i < t && list@[i] == r[s];
                    assert(self.members(cx as int, cy as int)[i] == r[s]);
                    assert(self.home(r[s] as int) == (cx as int, cy as int));
                } else {
                    let q = choose|q: int|
                        0 <= q < k && cells@[q].0 as int == self.home(r[s] as int).0
                            && cells@[q].1 as int == self.home(r[s] as int).1;
                }
            }
            assert forall|jj: int| 0 <= jj < n@ && listed(cells@, k + 1, #[trigger] self.home(jj))
                implies r@.contains(jj as usize) by {
                if !listed(cells@, k as int, self.home(jj)) {
                    let q = choose|q: int|
                        0 <= q < k + 1 && cells@[q].0 as int == self.home(jj).0 && cells@[q].1 as int
                            == self.home(jj).1;
                    if q == k as int {
                        assert(self.members(self.home(jj).0, self.home(jj).1).contains(jj as usize));
                        let i = choose|i: int|
                            0 <= i < list.len() && list@[i] == jj as usize;
                    } else {
                        assert(false);
                    }
                }
            }
            }
            k += 1;
        }
        assert forall|s: int| 0 <= s < r.len() implies #[trigger] r[s] < self.particles@.len()
            && self.in_block(
            x as int,
            y as int,
            self.home(r[s] as int).0,
            self.home(r[s] as int).1,
        ) by {
            let q = choose|q: int|
                0 <= q < k && cells@[q].0 as int == self.home(r[s] as int).0 && cells@[q].1 as int
                    == self.home(r[s] as int).1;
        }
        assert forall|j: int|
            0 <= j < self.particles@.len() && self.in_block(
                x as int,
                y as int,
                #[trigger] self.home(j).0,
                self.home(j).1,
            ) implies r@.contains(j as usize) by {
            let h = self.home(j);
            assert(0 <= h.0 < self.columns && 0 <= h.1 < self.rows) by {
                assert(self.members(h.0, h.1).contains(j as usize));
                let t = choose|t: int|
                    0 <= t < self.members(h.0, h.1).len() && self.members(h.0, h.1)[t] == j as usize;
                assert(self.in_grid(h.0, h.1)) by {
                    axis_coord_range(self.particles@[j].position.x as int, self.width as int, self.columns as int);
                    axis_coord_range(self.particles@[j].position.y as int, self.height as int, self.rows as int);
                }
            }
            assert(cells@.contains((h.0 as usize, h.1 as usize)));
            let q = choose|q: int| 0 <= q < cells.len() && cells@[q] == (h.0 as usize, h.1 as usize);
            assert(listed(cells@, k as int, h));
        }
        r
    }
}

/// A clamped cell index lies on the grid.
proof fn axis_coord_range(p: int, w: int, c: int)
    requires
        w > 0,
        c >= 1,
    ensures
        0 <= cell_coord(p, w, c) < c,
{
}

/// Two numbers less than `w` apart fall in the same or in consecutive
/// multiples of `w`.
proof fn lemma_quotients_close(a: int, b: int, w: int)
    requires
        w > 0,
        0 <= a <= b < a + w,
    ensures
        b / w == a / w || b / w == a / w + 1,
{
    vstd::arithmetic::div_mod::lemma_fundamental_div_mod(a, w);
    vstd::arithmetic::div_mod::lemma_fundamental_div_mod(b, w);
    vstd::arithmetic::div_mod::lemma_mod_pos_bound(a, w);
    vstd::arithmetic::div_mod::lemma_mod_pos_bound(b, w);
    let qa = a / w;
    let qb = b / w;
    assert(qa <= qb <= qa + 1) by (nonlinear_arith)
        requires
            a == w * qa + a % w,
            b == w * qb + b % w,
            0 <= a % w < w,
            0 <= b % w < w,
            a <= b < a + w,
            w > 0,
    {
    }
}

/// Along one axis, two positions nearer than the cutoff through the wrap
/// lie in the same or in neighbouring cells.
pub proof fn lemma_axis_near(p: int, q: int, w: int, cutoff: int)
    requires
        0 < cutoff,
        0 < w,
        in_extent(p, w),
        in_extent(q, w),
        abs(min_image_spec(q - p, w)) < cutoff,
    ensures
        near(
            cell_coord(p, w, grid_side(w, cutoff)),
            cell_coord(q, w, grid_side(w, cutoff)),
            grid_side(w, cutoff),
        ),
{
    let c = grid_side(w, cutoff);
    if c == 1 {
        return;
    }
    assert(c * cutoff <= w) by (nonlinear_arith)
        requires
            1 <= c <= w / cutoff,
            cutoff > 0,
            w > 0,
    {
        vstd::arithmetic::div_mod::lemma_fundamental_div_mod(w, cutoff);
        vstd::arithmetic::div_mod::lemma_mod_pos_bound(w, cutoff);
    }
    let a = p * c;
    let b = q * c;
    assert(0 <= a < w * c && 0 <= b < w * c) by (nonlinear_arith)
        requires
            0 <= p < w,
            0 <= q < w,
            c >= 1,
            a == p * c,
            b == q * c,
    {
    }
    lemma_div_below(a, w, c);
    lemma_div_below(b, w, c);
    assert(cell_coord(p, w, c) == a / w);
    assert(cell_coord(q, w, c) == b / w);
    let d = q - p;
    if 2 * d > w {
        // q sits just below the far edge, p just above zero.
        assert(p < cutoff && q >= w - cutoff);
        assert(a < w) by (nonlinear_arith)
            requires
                0 <= p < cutoff,
                c >= 1,
                c * cutoff <= w,
                a == p * c,
        {
        }
        assert(b >= (c - 1) * w) by (nonlinear_arith)
            requires
                q >= w - cutoff,
                c >= 1,
                c * cutoff <= w,
                b == q * c,
        {
        }
        lemma_div_below(a, w, 1);
        vstd::arithmetic::div_mod::lemma_div_is_ordered((c - 1) * w, b, w);
        vstd::arithmetic::div_mod::lemma_div_by_multiple(c - 1, w);
    } else if 2 * d < -w {
        assert(q < cutoff && p >= w - cutoff);
        assert(b < w) by (nonlinear_arith)
            requires
                0 <= q < cutoff,
                c >= 1,
                c * cutoff <= w,
                b == q * c,
        {
        }
        assert(a >= (c - 1) * w) by (nonlinear_arith)
            requires
                p >= w - cutoff,
                c >= 1,
                c * cutoff <= w,
                a == p * c,
        {
        }
        lemma_div_below(b, w, 1);
        vstd::arithmetic::div_mod::lemma_div_is_ordered((c - 1) * w, a, w);
        vstd::arithmetic::div_mod::lemma_div_by_multiple(c - 1, w);
    } else {
        if p <= q {
            assert(b < a + w) by (nonlinear_arith)
                requires
                    q - p < cutoff,
                    c >= 1,
                    c * cutoff <= w,
                    a == p * c,
                    b == q * c,
            {
            }
            assert(a <= b) by (nonlinear_arith)
                requires
                    p <= q,
                    c >= 1,
                    a == p * c,
                    b == q * c,
            {
            }
            lemma_quotients_close(a, b, w);
        } else {
            assert(a < b + w) by (nonlinear_arith)
                requires
                    p - q < cutoff,
                    c >= 1,
                    c * cutoff <= w,
                    a == p * c,
                    b == q * c,
            {
            }
            assert(b <= a) by (nonlinear_arith)
                requires
                    q <= p,
                    c >= 1,
                    a == p * c,
                    b == q * c,
            {
            }
            lemma_quotients_close(b, a, w);
        }
    }
}

impl SpatialGrid {
    /// Every particle is listed in exactly one cell, exactly once: the cell
    /// that holds its position.
    pub proof fn lemma_each_particle_once(self, j: int, x: int, y: int, t: int, t2: int)
        requires
            self.wf(),
            0 <= j < self.particles@.len(),
        ensures
            self.in_grid(self.home(j).0, self.home(j).1),
            self.members(self.home(j).0, self.home(j).1).contains(j as usize),
            self.in_grid(x, y) && 0 <= t < self.members(x, y).len() && 0 <= t2 < self.members(
                x,
                y,
            ).len() && self.members(x, y)[t] == j && self.members(x, y)[t2] == j ==> (x, y)
                == self.home(j) && t == t2,
    {
        axis_coord_range(self.particles@[j].position.x as int, self.width as int, self.columns as int);
        axis_coord_range(self.particles@[j].position.y as int, self.height as int, self.rows as int);
        if self.in_grid(x, y) && 0 <= t < self.members(x, y).len() && 0 <= t2 < self.members(
            x,
            y,
        ).len() && self.members(x, y)[t] == j && self.members(x, y)[t2] == j {
            assert(self.home(self.members(x, y)[t] as int) == (x, y));
            if t < t2 {
                assert(self.members(x, y)[t] < self.members(x, y)[t2]);
            } else if t2 < t {
                assert(self.members(x, y)[t2] < self.members(x, y)[t]);
            }
        }
    }

    /// Two particles nearer each other than the cutoff, measured through the
    /// wrap, lie in each other's 3x3 block of cells.
    pub proof fn lemma_near_pairs_share_block(self, i: int, j: int)
        requires
            self.wf(),
            0 <= i < self.particles@.len(),
            0 <= j < self.particles@.len(),
            ({
                let a = self.particles@[i].position;
                let b = self.particles@[j].position;
                let dx = min_image_spec(b.x - a.x, self.width as int);
                let dy = min_image_spec(b.y - a.y, self.height as int);
                dx * dx + dy * dy < self.cutoff * self.cutoff
            }),
        ensures
            self.in_block(self.home(i).0, self.home(i).1, self.home(j).0, self.home(j).1),
    {
        let a = self.particles@[i].position;
        let b = self.particles@[j].position;
        let dx = min_image_spec(b.x - a.x, self.width as int);
        let dy = min_image_spec(b.y - a.y, self.height as int);
        let r = self.cutoff as int;
        assert(abs(dx) < r && abs(dy) < r) by (nonlinear_arith)
            requires
                dx * dx + dy * dy < r * r,
                r > 0,
        {
            if abs(dx) >= r {
                assert(dx * dx >= r * r);
            }
            if abs(dy) >= r {
                assert(dy * dy >= r * r);
            }
        }
        lemma_axis_near(a.x as int, b.x as int, self.width as int, r);
        lemma_axis_near(a.y as int, b.y as int, self.height as int, r);
    }
}

/// The cell count along an axis of extent `w`: as many whole cutoffs as fit,
/// at least one and at most `MAX_GRID_SIDE`, so that cells are never
/// narrower than the cutoff.
pub open spec fn grid_side(w: int, cutoff: int) -> int {
    let c = w / cutoff;
    if c < 1 {
        1
    } else if c > MAX_GRID_SIDE {
        MAX_GRID_SIDE as int
    } else {
        c
    }
}

/// The cell index along an axis of extent `w` split into `c` cells, clamped
/// to the grid.
pub open spec fn cell_coord(p: int, w: int, c: int) -> int {
    let q = p * c / w;
    if q < 0 {
        0
    } else if q >= c {
        c - 1
    } else {
        q
    }
}

/// Cell `u` is cell `x` or one of its two neighbours on an axis of `c`
/// cells that wraps around.
pub open spec fn near(x: int, u: int, c: int) -> bool {
    u == x || u == next_cell(x, c) || u == prev_cell(x, c)
}

/// The next cell along an axis of `c` cells, wrapping round at the end.
pub open spec fn next_cell(x: int, c: int) -> int {
    if x + 1 >= c {
        0
    } else {
        x + 1
    }
}

/// The previous cell along an axis of `c` cells, wrapping round at zero.
pub open spec fn prev_cell(x: int, c: int) -> int {
    if x <= 0 {
        c - 1
    } else {
        x - 1
    }
}

/// Cell `h` is among the first `k` cells of `cells`.
pub open spec fn listed(cells: Seq<(usize, usize)>, k: int, h: (int, int)) -> bool {
    exists|q: int| 0 <= q < k && cells[q].0 as int == h.0 && cells[q].1 as int == h.1
}

/// A uniform grid over the arena, each cell holding the indices of the
/// particles inside it, rebuilt from the particles' positions every tick.
pub struct SpatialGrid {
    pub cells: CellTable,
    pub columns: usize,
    pub rows: usize,
    pub width: i64,
    pub height: i64,
    pub cutoff: i64,
    /// The particles the grid was built from.
    pub particles: Ghost<Seq<Particle>>,
}

impl SpatialGrid {
    pub open spec fn members(self, x: int, y: int) -> Seq<usize> {
        cell_lists(self.cells)[(x, y)]
    }

    pub open spec fn in_grid(self, x: int, y: int) -> bool {
        0 <= x < self.columns && 0 <= y < self.rows
    }

    /// The cell that holds position `p`.
    pub open spec fn cell_of(self, p: Vector) -> (int, int) {
        (
            cell_coord(p.x as int, self.width as int, self.columns as int),
            cell_coord(p.y as int, self.height as int, self.rows as int),
        )
    }

    /// The cell of the `j`th particle.
    pub open spec fn home(self, j: int) -> (int, int) {
        self.cell_of(self.particles@[j].position)
    }

    /// Cell `(u, v)` lies in the 3x3 block of cells round `(x, y)`.
    pub open spec fn in_block(self, x: int, y: int, u: int, v: int) -> bool {
        near(x, u, self.columns as int) && near(y, v, self.rows as int)
    }

    /// The grid's dimensions fit its arena and cutoff, and the table has a
    /// list for every cell.
    pub open spec fn shape_ok(self) -> bool {
        &&& 0 < self.width <= MAX_EXTENT
        &&& 0 < self.height <= MAX_EXTENT
        &&& 0 < self.cutoff <= MAX_EXTENT
        &&& self.columns == grid_side(self.width as int, self.cutoff as int)
        &&& self.rows == grid_side(self.height as int, self.cutoff as int)
        &&& self.particles@.len() <= MAX_PARTICLES
        &&& cell_shape(self.cells) == (self.columns as int, self.rows as int)
        &&& forall|x: int, y: int|
            self.in_grid(x, y) ==> #[trigger] cell_lists(self.cells).contains_key((x, y))
        &&& forall|j: int|
            0 <= j < self.particles@.len() ==> in_extent(
                #[trigger] self.particles@[j].position.x as int,
                self.width as int,
            ) && in_extent(self.particles@[j].position.y as int, self.height as int)
    }

    /// The first `n` particles sit in exactly the cells that hold their
    /// positions, once, each cell listing them in increasing order, and no
    /// other particle is listed.
    pub open spec fn lists_ok(self, n: int) -> bool {
        &&& forall|x: int, y: int, t: int|
            self.in_grid(x, y) && 0 <= t < self.members(x, y).len() ==> {
                &&& #[trigger] self.members(x, y)[t] < n
                &&& self.home(self.members(x, y)[t] as int) == (x, y)
            }
        &&& forall|x: int, y: int, t: int, t2: int|
            self.in_grid(x, y) && 0 <= t < t2 < self.members(x, y).len()
                ==> #[trigger] self.members(x, y)[t] < #[trigger] self.members(x, y)[t2]
        &&& forall|j: int|
            0 <= j < n ==> #[trigger] self.members(self.home(j).0, self.home(j).1).contains(
                j as usize,
            )
    }

    /// Every particle sits in exactly the cell that holds its position,
    /// once, and each cell lists its particles in increasing order.
    pub open spec fn wf(self) -> bool {
        self.shape_ok() && self.lists_ok(self.particles@.len() as int)
    }

    /// Builds the grid for `particles` on an arena of `width` by `height`
    /// with interaction cutoff `cutoff`.
    pub fn build(particles: &Vec<Particle>, width: i64, height: i64, cutoff: i64) -> (g:
        SpatialGrid)
        requires
            0 < width <= MAX_EXTENT,
            0 < height <= MAX_EXTENT,
            0 < cutoff <= MAX_EXTENT,
            particles.len() <= MAX_PARTICLES,
            forall|j: int|
                0 <= j < particles.len() ==> in_extent(
                    #[trigger] particles[j].position.x as int,
                    width as int,
                ) && in_extent(particles[j].position.y as int, height as int),
        ensures
            g.wf(),
            g.particles@ == particles@,
            g.width == width,
            g.height == height,
            g.cutoff == cutoff,
    {
        let columns = axis_cells(width, cutoff);
        let rows = axis_cells(height, cutoff);
        assert(columns * rows <= MAX_GRID_SIDE * MAX_GRID_SIDE) by (nonlinear_arith)
            requires
                columns <= MAX_GRID_SIDE,
                rows <= MAX_GRID_SIDE,
        {
        }
        let mut g = SpatialGrid {
            cells: new_cell_table(columns, rows),
            columns,
            rows,
            width,
            height,
            cutoff,
            particles: Ghost(particles@),
        };
        assert forall|x: int, y: int| g.in_grid(x, y) implies #[trigger] g.members(x, y).len()
            == 0 by {
            assert(cell_lists(g.cells).contains_key((x, y)));
        }
        let mut j: usize = 0;
        while j < particles.len()
            invariant
                g.shape_ok(),
                g.lists_ok(j as int),
                j <= particles.len(),
                g.particles@ == particles@,
                g.width == width,
                g.height == height,
                g.cutoff == cutoff,
                forall|k: int|
                    0 <= k < particles.len() ==> in_extent(
                        #[trigger] particles[k].position.x as int,
                        width as int,
                    ) && in_extent(particles[k].position.y as int, height as int),
            decreases particles.len() - j,
        {
            let p = particles[j].position;
            let x = axis_coord(p.x, width, g.columns);
            let y = axis_coord(p.y, height, g.rows);
            assert(g.home(j as int) == (x as int, y as int));
            let ghost before = g;
            push_to_cell(&mut g.cells, x, y, j);
            assert forall|u: int, v: int| g.in_grid(u, v) implies #[trigger] cell_lists(
                g.cells,
            ).contains_key((u, v)) by {
                assert(before.in_grid(u, v));
            }
            assert forall|u: int, v: int, t: int|
                g.in_grid(u, v) && 0 <= t < g.members(u, v).len() implies {
                    &&& #[trigger] g.members(u, v)[t] < j + 1
                    &&& g.home(g.members(u, v)[t] as int) == (u, v)
                } by {
                assert(before.in_grid(u, v));
                if (u, v) != (x as int, y as int) {
                    assert(g.members(u, v) == before.members(u, v));
                } else if t < before.members(u, v).len() {
                    assert(g.members(u, v)[t] == before.members(u, v)[t]);
                }
            }
            assert forall|u: int, v: int, t: int, t2: int|
                g.in_grid(u, v) && 0 <= t < t2 < g.members(u, v).len()
                    implies #[trigger] g.members(u, v)[t] < #[trigger] g.members(u, v)[t2] by {
                assert(before.in_grid(u, v));
                if (u, v) != (x as int, y as int) {
                    assert(g.members(u, v) == before.members(u, v));
                } else {
                    assert(g.members(u, v)[t] == before.members(u, v)[t]);
                    if t2 < before.members(u, v).len() {
                        assert(g.members(u, v)[t2] == before.members(u, v)[t2]);
                    }
                }
            }
            assert forall|k: int| 0 <= k < j + 1 implies #[trigger] g.members(
                g.home(k).0,
                g.home(k).1,
            ).contains(k as usize) by {
                let (u, v) = g.home(k);
                assert(g.home(k) == before.home(k));
                if k < j {
                    assert(before.members(u, v).contains(k as usize));
                    let t = choose|t: int|
                        0 <= t < before.members(u, v).len() && before.members(u, v)[t] == k
                            as usize;
                    if (u, v) == (x as int, y as int) {
                        assert(g.members(u, v)[t] == k as usize);
                    } else {
                        assert(g.members(u, v) == before.members(u, v));
                    }
                } else {
                    assert(g.members(u, v)[before.members(u, v).len() as int] == j);
                }
            }
            j += 1;
        }
        g
    }
}

/// The cell count along an axis of extent `w` for cutoff `cutoff`.
fn axis_cells(w: i64, cutoff: i64) -> (c: usize)
    requires
        0 < w <= MAX_EXTENT,
        0 < cutoff <= MAX_EXTENT,
    ensures
        c == grid_side(w as int, cutoff as int),
        1 <= c <= MAX_GRID_SIDE,
{
    let q = w / cutoff;
    if q < 1 {
        1
    } else if q > MAX_GRID_SIDE as i64 {
        MAX_GRID_SIDE
    } else {
        q as usize
    }
}

/// The cell index of coordinate `p` on an axis of extent `w` cut into `c`
/// cells.
pub(crate) fn axis_coord(p: i64, w: i64, c: usize) -> (x: usize)
    requires
        0 < w <= MAX_EXTENT,
        1 <= c <= MAX_GRID_SIDE,
        in_extent(p as int, w as int),
    ensures
        x == cell_coord(p as int, w as int, c as int),
        x < c,
{
    assert(0 <= p * (c as i64) <= MAX_EXTENT * MAX_GRID_SIDE) by (nonlinear_arith)
        requires
            0 <= p <= MAX_EXTENT,
            1 <= c <= MAX_GRID_SIDE,
    {
    }
    let q = p * (c as i64) / w;
    if q < 0 {
        0
    } else if q >= c as i64 {
        c - 1
    } else {
        q as usize
    }
}

} // verus!
