//! The toroidal grid: storage, wrap-around indexing, cell access, and
//! neighbor counting.

use vstd::prelude::*;
use vstd::arithmetic::div_mod::{
    lemma_fundamental_div_mod, lemma_mod_bound, lemma_mod_multiples_vanish, lemma_small_mod,
};
use vstd::arithmetic::mul::lemma_mul_inequality;

verus! {

/// Euclidean (always non-negative) remainder of `a` by a positive modulus `b`.
pub fn modulo(a: i32, b: i32) -> (r: i32)
    requires
        b > 0,
    ensures
        r == a as int % b as int,
{
    let rem = a % b;
    proof {
        let ai = a as int;
        let bi = b as int;
        lemma_mod_bound(ai, bi);
        if a < 0 {
            let m = (-ai) % bi;
            lemma_mod_bound(-ai, bi);
            lemma_fundamental_div_mod(-ai, bi);
            let q = (-ai) / bi;
            assert(ai == bi * (-q) + (-m)) by {
                assert(bi * (-q) == -(bi * q)) by (nonlinear_arith);
            }
            lemma_mod_multiples_vanish(-q, -m, bi);
            assert(ai % bi == (-m) % bi);
            if m == 0 {
                lemma_small_mod(0, bi as nat);
            } else {
                assert(-m == bi * (-1) + (bi - m)) by {
                    assert(bi * (-1) == -bi) by (nonlinear_arith);
                }
                lemma_mod_multiples_vanish(-1, bi - m, bi);
                lemma_small_mod((bi - m) as nat, bi as nat);
            }
        }
    }
    if rem < 0 {
        rem + b
    } else {
        rem
    }
}

/// How a fresh grid is filled: every cell dead, or each cell drawn at random.
pub enum GridInitType {
    Blank,
    RandPattern,
}

/// A fixed-size toroidal field of boolean cells, stored row-major.
pub struct LifeGrid {
    pub width: i32,
    pub height: i32,
    pub grid: Vec<bool>,
}

impl LifeGrid {
    /// Positive dimensions, a storage slot for every cell, and a total size
    /// small enough that row-major indexing stays within `i32`.
    pub open spec fn well_formed(&self) -> bool {
        &&& 0 < self.width
        &&& 0 < self.height
        &&& self.width * self.height <= i32::MAX
        &&& self.grid@.len() == self.width * self.height
    }

    /// The flat storage slot that an arbitrary integer coordinate wraps to.
    pub open spec fn spec_index(&self, x: int, y: int) -> int {
        (y % (self.height as int)) * (self.width as int) + x % (self.width as int)
    }

    /// The cell state at an arbitrary integer coordinate, after wrapping.
    pub open spec fn spec_cell(&self, x: int, y: int) -> bool {
        self.grid@[self.spec_index(x, y)]
    }

    /// A cell counted as 1 when alive, 0 when dead.
    pub open spec fn spec_live(&self, x: int, y: int) -> int {
        if self.spec_cell(x, y) {
            1int
        } else {
            0int
        }
    }

    /// How many of the 8 neighbors (Chebyshev distance 1, wrapped) are alive.
    pub open spec fn spec_neighbour_count(&self, x: int, y: int) -> int {
        self.spec_live(x - 1, y - 1) + self.spec_live(x, y - 1) + self.spec_live(x + 1, y - 1)
            + self.spec_live(x - 1, y) + self.spec_live(x + 1, y) + self.spec_live(x - 1, y + 1)
            + self.spec_live(x, y + 1) + self.spec_live(x + 1, y + 1)
    }

    /// Every wrapped coordinate lands on a storage slot that exists.
    pub proof fn lemma_index_in_range(&self, x: int, y: int)
        requires
            self.well_formed(),
        ensures
            0 <= self.spec_index(x, y) < self.grid@.len(),
    {
        let w = self.width as int;
        let h = self.height as int;
        lemma_mod_bound(x, w);
        lemma_mod_bound(y, h);
        lemma_mul_inequality(y % h, h - 1, w);
        assert((h - 1) * w + w == h * w) by (nonlinear_arith);
        assert(h * w == w * h) by (nonlinear_arith);
    }

    /// At an in-range coordinate the wrap is the identity: the slot is
    /// `y * width + x`, plain row-major order.
    pub proof fn lemma_index_in_bounds_id(&self, x: int, y: int)
        requires
            self.well_formed(),
            0 <= x < self.width,
            0 <= y < self.height,
        ensures
            self.spec_index(x, y) == y * self.width + x,
    {
        lemma_small_mod(x as nat, self.width as nat);
        lemma_small_mod(y as nat, self.height as nat);
    }

    /// Maps arbitrary (possibly negative or overflowing) coordinates to the
    /// flat storage index of the cell they wrap to.
    pub fn cell_index(&self, x: i32, y: i32) -> (idx: usize)
        requires
            self.well_formed(),
        ensures
            idx == self.spec_index(x as int, y as int),
            idx < self.grid@.len(),
    {
        proof {
            self.lemma_index_in_range(x as int, y as int);
        }
        (modulo(y, self.height) * self.width + modulo(x, self.width)) as usize
    }

    /// Returns the alive/dead state of the cell at the wrapped coordinate.
    pub fn cell_val(&self, x: i32, y: i32) -> (v: bool)
        requires
            self.well_formed(),
        ensures
            v == self.spec_cell(x as int, y as int),
    {
        let idx = self.cell_index(x, y);
        self.grid[idx]
    }

    /// Writes the alive/dead state of the cell at the wrapped coordinate;
    /// exactly one storage slot changes.
    pub fn set_cell(&mut self, x: i32, y: i32, val: bool)
        requires
            old(self).well_formed(),
        ensures
            final(self).well_formed(),
            final(self).width == old(self).width,
            final(self).height == old(self).height,
            final(self).grid@ == old(self).grid@.update(
                old(self).spec_index(x as int, y as int),
                val,
            ),
    {
        let idx = self.cell_index(x, y);
        self.grid[idx] = val;
    }

    /// A cell read moves unchanged under normalization of the base
    /// coordinate: offsetting the wrapped coordinate reaches the same cell as
    /// offsetting the coordinate itself.
    proof fn lemma_cell_shift(&self, x: int, y: int, dx: int, dy: int)
        requires
            self.well_formed(),
        ensures
            self.spec_cell(x % (self.width as int) + dx, y % (self.height as int) + dy)
                == self.spec_cell(x + dx, y + dy),
    {
        let w = self.width as int;
        let h = self.height as int;
        lemma_fundamental_div_mod(x, w);
        lemma_mod_multiples_vanish(x / w, x % w + dx, w);
        lemma_fundamental_div_mod(y, h);
        lemma_mod_multiples_vanish(y / h, y % h + dy, h);
    }

    /// Sums the alive states of the 8 cells at Chebyshev distance 1, in
    /// wrapped coordinates; the cell itself is excluded.
    pub fn neighbour_count(&self, x: i32, y: i32) -> (n: i32)
        requires
            self.well_formed(),
        ensures
            n == self.spec_neighbour_count(x as int, y as int),
            0 <= n <= 8,
    {
        let xn = modulo(x, self.width);
        let yn = modulo(y, self.height);
        proof {
            let xi = x as int;
            let yi = y as int;
            self.lemma_cell_shift(xi, yi, -1, -1);
            self.lemma_cell_shift(xi, yi, 0, -1);
            self.lemma_cell_shift(xi, yi, 1, -1);
            self.lemma_cell_shift(xi, yi, -1, 0);
            self.lemma_cell_shift(xi, yi, 1, 0);
            self.lemma_cell_shift(xi, yi, -1, 1);
            self.lemma_cell_shift(xi, yi, 0, 1);
            self.lemma_cell_shift(xi, yi, 1, 1);
        }
        (if self.cell_val(xn - 1, yn - 1) { 1 } else { 0 })
            + (if self.cell_val(xn, yn - 1) { 1 } else { 0 })
            + (if self.cell_val(xn + 1, yn - 1) { 1 } else { 0 })
            + (if self.cell_val(xn - 1, yn) { 1 } else { 0 })
            + (if self.cell_val(xn + 1, yn) { 1 } else { 0 })
            + (if self.cell_val(xn - 1, yn + 1) { 1 } else { 0 })
            + (if self.cell_val(xn, yn + 1) { 1 } else { 0 })
            + (if self.cell_val(xn + 1, yn + 1) { 1 } else { 0 })
    }
    /// Constructs a grid of the given positive dimensions. `Blank` leaves
    /// every cell dead; `RandPattern` draws each cell independently, alive
    /// with probability 1/3.
    pub fn new(w: i32, h: i32, init_type: GridInitType) -> (lg: LifeGrid)
        requires
            0 < w,
            0 < h,
            w * h <= i32::MAX,
        ensures
            lg.well_formed(),
            lg.width == w,
            lg.height == h,
            init_type == GridInitType::Blank ==> forall|i: int|
                0 <= i < lg.grid@.len() ==> !lg.grid@[i],
    {
        let n = (w * h) as usize;
        let mut cells: Vec<bool> = Vec::new();
        while cells.len() < n
            invariant
                cells.len() <= n,
                forall|i: int| 0 <= i < cells.len() ==> !cells@[i],
            decreases n - cells.len(),
        {
            cells.push(false);
        }
        let mut lg = LifeGrid { width: w, height: h, grid: cells };
        match init_type {
            GridInitType::Blank => lg,
            GridInitType::RandPattern => {
                let mut i: usize = 0;
                while i < n
                    invariant
                        lg.well_formed(),
                        lg.width == w,
                        lg.height == h,
                        n == lg.grid@.len(),
                    decreases n - i,
                {
                    let alive = random_one_to_three() == 1;
                    lg.grid[i] = alive;
                    i = i + 1;
                }
                lg
            },
        }
    }

    /// One display row: a fixed visible glyph for each alive cell in row `y`
    /// and a blank glyph for each dead one, left to right.
    pub fn row_glyphs(&self, y: i32) -> (row: Vec<char>)
        requires
            self.well_formed(),
        ensures
            row@.len() == self.width as int,
            forall|x: int| 0 <= x < self.width ==> row@[x] == (if self.spec_cell(x, y as int) {
                'O'
            } else {
                ' '
            }),
    {
        let mut row: Vec<char> = Vec::new();
        let mut x: i32 = 0;
        while x < self.width
            invariant
                self.well_formed(),
                0 <= x <= self.width,
                row@.len() == x as int,
                forall|xx: int| 0 <= xx < x ==> row@[xx] == (if self.spec_cell(xx, y as int) {
                    'O'
                } else {
                    ' '
                }),
            decreases self.width - x,
        {
            let glyph = if self.cell_val(x, y) {
                'O'
            } else {
                ' '
            };
            row.push(glyph);
            x = x + 1;
        }
        row
    }
}

/// Distinct in-range coordinates always occupy distinct row-major slots.
pub proof fn lemma_flat_index_injective(w: int, x1: int, y1: int, x2: int, y2: int)
    by (nonlinear_arith)
    requires
        0 < w,
        0 <= x1 < w,
        0 <= x2 < w,
    ensures
        (y1 * w + x1 == y2 * w + x2) <==> (x1 == x2 && y1 == y2),
{
}

/// Every storage slot is the row-major image of exactly the in-range
/// coordinate pair recovered by division and remainder.
pub proof fn lemma_flat_index_coverage(g: &LifeGrid, i: int)
    requires
        g.well_formed(),
        0 <= i < g.grid@.len(),
    ensures
        0 <= i % (g.width as int) < g.width,
        0 <= i / (g.width as int) < g.height,
        i == (i / (g.width as int)) * g.width + i % (g.width as int),
        g.spec_index(i % (g.width as int), i / (g.width as int)) == i,
{
    let w = g.width as int;
    let h = g.height as int;
    lemma_mod_bound(i, w);
    lemma_fundamental_div_mod(i, w);
    assert(w * (i / w) == (i / w) * w) by (nonlinear_arith);
    assert(0 <= i / w < h) by (nonlinear_arith)
        requires
            0 <= i < w * h,
            0 < w,
            0 < h,
            i == (i / w) * w + i % w,
            0 <= i % w < w,
    ;
    g.lemma_index_in_bounds_id(i % w, i / w);
}

/// Relies on `rand::random_range`: a uniform draw from the given range, here
/// one of the three integers 1, 2, 3, from the thread-local generator.
#[verifier::external_body]
fn random_one_to_three() -> (r: u32)
    ensures
        1 <= r <= 3,
{
    rand::random_range(1u32..4u32)
}

} // verus!
