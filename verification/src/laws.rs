//! Properties of the grid and of the transition rule: toroidal wrap,
//! determination by the source grid alone, empty-grid idempotence, and the
//! 2x2 block still-life.

use vstd::prelude::*;
use vstd::arithmetic::div_mod::{
    lemma_mod_bound, lemma_mod_multiples_vanish, lemma_mod_twice, lemma_small_mod,
};
use crate::grid::{lemma_flat_index_coverage, LifeGrid};
use crate::rules::{is_next_generation, life_rule};

verus! {

/// Toroidal wrap: shifting a coordinate by any whole number of grid widths
/// and heights lands on the same storage slot.
pub proof fn lemma_index_toroidal(g: &LifeGrid, x: int, y: int, k: int, m: int)
    requires
        g.well_formed(),
    ensures
        g.spec_index(x + k * g.width, y + m * g.height) == g.spec_index(x, y),
{
    let w = g.width as int;
    let h = g.height as int;
    lemma_mod_multiples_vanish(k, x, w);
    lemma_mod_multiples_vanish(m, y, h);
    assert(x + k * w == w * k + x) by (nonlinear_arith);
    assert(y + m * h == h * m + y) by (nonlinear_arith);
}

/// Two same-sized grids whose cells agree at every in-range coordinate hold
/// the same storage sequence.
pub proof fn lemma_grid_pointwise_equal(a: &LifeGrid, b: &LifeGrid)
    requires
        a.well_formed(),
        b.well_formed(),
        a.width == b.width,
        a.height == b.height,
        forall|x: int, y: int|
            0 <= x < a.width && 0 <= y < a.height ==> a.spec_cell(x, y) == b.spec_cell(x, y),
    ensures
        a.grid@ == b.grid@,
{
    assert forall|i: int| 0 <= i < a.grid@.len() implies a.grid@[i] == b.grid@[i] by {
        lemma_flat_index_coverage(a, i);
        lemma_flat_index_coverage(b, i);
        let x = i % (a.width as int);
        let y = i / (a.width as int);
        assert(a.spec_cell(x, y) == b.spec_cell(x, y));
    }
    assert(a.grid@ =~= b.grid@);
}

/// Double-buffer independence: the generation computed from a source grid is
/// a function of that source alone. Two destinations that each hold the next
/// generation of the same source hold the same cells, whatever either held
/// before the rule was applied.
pub proof fn lemma_next_generation_unique(from: &LifeGrid, a: &LifeGrid, b: &LifeGrid)
    requires
        from.well_formed(),
        a.well_formed(),
        b.well_formed(),
        is_next_generation(*from, *a),
        is_next_generation(*from, *b),
    ensures
        a.grid@ == b.grid@,
{
    assert forall|x: int, y: int|
        0 <= x < a.width && 0 <= y < a.height implies a.spec_cell(x, y) == b.spec_cell(x, y) by {
        assert(a.spec_cell(x, y) == life_rule(
            from.spec_cell(x, y),
            from.spec_neighbour_count(x, y),
        ));
        assert(b.spec_cell(x, y) == life_rule(
            from.spec_cell(x, y),
            from.spec_neighbour_count(x, y),
        ));
    }
    lemma_grid_pointwise_equal(a, b);
}

/// Every cell of the grid is dead.
pub open spec fn all_dead(g: LifeGrid) -> bool {
    forall|i: int| 0 <= i < g.grid@.len() ==> !g.grid@[i]
}

/// On an all-dead grid a cell read at any integer coordinate is dead.
proof fn lemma_all_dead_cell(g: &LifeGrid, x: int, y: int)
    requires
        g.well_formed(),
        all_dead(*g),
    ensures
        !g.spec_cell(x, y),
        g.spec_live(x, y) == 0,
{
    g.lemma_index_in_range(x, y);
}

/// Empty grid idempotence: the generation that follows an all-dead grid is
/// all-dead, whatever the dimensions.
pub proof fn lemma_empty_grid_stays_empty(from: &LifeGrid, to: &LifeGrid)
    requires
        from.well_formed(),
        to.well_formed(),
        all_dead(*from),
        is_next_generation(*from, *to),
    ensures
        all_dead(*to),
{
    assert forall|i: int| 0 <= i < to.grid@.len() implies !to.grid@[i] by {
        lemma_flat_index_coverage(to, i);
        let x = i % (to.width as int);
        let y = i / (to.width as int);
        lemma_all_dead_cell(from, x, y);
        lemma_all_dead_cell(from, x - 1, y - 1);
        lemma_all_dead_cell(from, x, y - 1);
        lemma_all_dead_cell(from, x + 1, y - 1);
        lemma_all_dead_cell(from, x - 1, y);
        lemma_all_dead_cell(from, x + 1, y);
        lemma_all_dead_cell(from, x - 1, y + 1);
        lemma_all_dead_cell(from, x, y + 1);
        lemma_all_dead_cell(from, x + 1, y + 1);
        assert(from.spec_neighbour_count(x, y) == 0);
        assert(to.spec_cell(x, y) == life_rule(false, 0));
    }
}

/// Stepping an in-range coordinate forward by one wraps to 0 at the edge.
proof fn lemma_wrap_inc(v: int, b: int)
    requires
        0 <= v < b,
    ensures
        (v + 1) % b == if v == b - 1 {
            0int
        } else {
            v + 1
        },
{
    if v == b - 1 {
        lemma_mod_multiples_vanish(1, 0, b);
        lemma_small_mod(0, b as nat);
    } else {
        lemma_small_mod((v + 1) as nat, b as nat);
    }
}

/// Stepping an in-range coordinate back by one wraps to the far edge at 0.
proof fn lemma_wrap_dec(v: int, b: int)
    requires
        0 <= v < b,
    ensures
        (v - 1) % b == if v == 0 {
            b - 1
        } else {
            v - 1
        },
{
    if v == 0 {
        lemma_mod_multiples_vanish(-1, b - 1, b);
        lemma_small_mod((b - 1) as nat, b as nat);
    } else {
        lemma_small_mod((v - 1) as nat, b as nat);
    }
}

/// Membership in the 2x2 block whose top-left corner is `(x0, y0)`.
pub open spec fn in_block(x0: int, y0: int, x: int, y: int) -> bool {
    x0 <= x <= x0 + 1 && y0 <= y <= y0 + 1
}

/// The grid holds a single 2x2 block of alive cells with its top-left corner
/// at `(x0, y0)`, fully inside the grid, and every other cell dead.
pub open spec fn is_block_at(g: LifeGrid, x0: int, y0: int) -> bool {
    &&& 0 <= x0 && x0 + 2 <= g.width
    &&& 0 <= y0 && y0 + 2 <= g.height
    &&& forall|x: int, y: int|
        0 <= x < g.width && 0 <= y < g.height ==> g.spec_cell(x, y) == in_block(x0, y0, x, y)
}

/// On a block grid, a cell read at any integer coordinate is alive exactly
/// when the wrapped coordinate falls in the block.
proof fn lemma_block_cell(g: &LifeGrid, x0: int, y0: int, x: int, y: int)
    requires
        g.well_formed(),
        is_block_at(*g, x0, y0),
    ensures
        g.spec_cell(x, y) == in_block(x0, y0, x % (g.width as int), y % (g.height as int)),
{
    let w = g.width as int;
    let h = g.height as int;
    lemma_mod_bound(x, w);
    lemma_mod_bound(y, h);
    lemma_mod_twice(x, w);
    lemma_mod_twice(y, h);
    assert(g.spec_index(x, y) == g.spec_index(x % w, y % h));
    assert(g.spec_cell(x % w, y % h) == in_block(x0, y0, x % w, y % h));
}

/// On a block grid, every cell is reproduced unchanged by the life rule:
/// block cells have exactly 3 alive neighbors and survive; no dead cell has
/// exactly 3 alive neighbors, so none is born.
proof fn lemma_block_cell_step(from: &LifeGrid, x0: int, y0: int, x: int, y: int)
    requires
        from.well_formed(),
        from.width >= 4,
        from.height >= 4,
        is_block_at(*from, x0, y0),
        0 <= x < from.width,
        0 <= y < from.height,
    ensures
        life_rule(from.spec_cell(x, y), from.spec_neighbour_count(x, y)) == from.spec_cell(x, y),
{
    let w = from.width as int;
    let h = from.height as int;
    lemma_wrap_inc(x, w);
    lemma_wrap_dec(x, w);
    lemma_wrap_inc(y, h);
    lemma_wrap_dec(y, h);
    lemma_small_mod(x as nat, w as nat);
    lemma_small_mod(y as nat, h as nat);
    lemma_block_cell(from, x0, y0, x - 1, y - 1);
    lemma_block_cell(from, x0, y0, x, y - 1);
    lemma_block_cell(from, x0, y0, x + 1, y - 1);
    lemma_block_cell(from, x0, y0, x - 1, y);
    lemma_block_cell(from, x0, y0, x, y);
    lemma_block_cell(from, x0, y0, x + 1, y);
    lemma_block_cell(from, x0, y0, x - 1, y + 1);
    lemma_block_cell(from, x0, y0, x, y + 1);
    lemma_block_cell(from, x0, y0, x + 1, y + 1);
}

/// Stability of the block still-life: on a grid at least 4 wide and 4 high
/// that holds a single 2x2 block of alive cells, the next generation is the
/// same grid.
pub proof fn lemma_block_still_life(from: &LifeGrid, to: &LifeGrid, x0: int, y0: int)
    requires
        from.well_formed(),
        to.well_formed(),
        from.width >= 4,
        from.height >= 4,
        is_block_at(*from, x0, y0),
        is_next_generation(*from, *to),
    ensures
        to.grid@ == from.grid@,
{
    assert forall|x: int, y: int|
        0 <= x < to.width && 0 <= y < to.height implies to.spec_cell(x, y) == from.spec_cell(
        x,
        y,
    ) by {
        lemma_block_cell_step(from, x0, y0, x, y);
        assert(to.spec_cell(x, y) == life_rule(
            from.spec_cell(x, y),
            from.spec_neighbour_count(x, y),
        ));
    }
    lemma_grid_pointwise_equal(to, from);
}

} // verus!
