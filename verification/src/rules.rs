//! The B3/S23 transition rule: computing generation N+1 into a destination
//! grid from generation N in a source grid of identical dimensions.

use vstd::prelude::*;
use crate::grid::{lemma_flat_index_injective, LifeGrid};

verus! {

/// The standard Game of Life rule: an alive cell survives with 2 or 3 alive
/// neighbors (S23); a dead cell is born with exactly 3 (B3).
pub open spec fn life_rule(alive: bool, n: int) -> bool {
    if alive {
        n == 2 || n == 3
    } else {
        n == 3
    }
}

/// `to` holds the generation that follows `from`: same dimensions, and every
/// cell of `to` is the life rule applied to the matching cell of `from` and
/// its neighbor count. The right-hand side reads `from` alone.
pub open spec fn is_next_generation(from: LifeGrid, to: LifeGrid) -> bool {
    &&& to.width == from.width
    &&& to.height == from.height
    &&& forall|x: int, y: int|
        0 <= x < from.width && 0 <= y < from.height ==> to.spec_cell(x, y) == life_rule(
            from.spec_cell(x, y),
            from.spec_neighbour_count(x, y),
        )
}

/// Computes the next generation of `from_grid` into `to_grid`, cell by cell.
/// Reads come from `from_grid` only, so the result does not depend on what
/// `to_grid` held before the call.
pub fn apply_life_rules(from_grid: &LifeGrid, to_grid: &mut LifeGrid)
    requires
        from_grid.well_formed(),
        old(to_grid).well_formed(),
        old(to_grid).width == from_grid.width,
        old(to_grid).height == from_grid.height,
    ensures
        final(to_grid).well_formed(),
        is_next_generation(*from_grid, *final(to_grid)),
{
    let w = from_grid.width;
    let h = from_grid.height;
    let mut y: i32 = 0;
    while y < h
        invariant
            from_grid.well_formed(),
            to_grid.well_formed(),
            to_grid.width == w,
            to_grid.height == h,
            from_grid.width == w,
            from_grid.height == h,
            0 <= y <= h,
            forall|xx: int, yy: int|
                0 <= xx < w && 0 <= yy < y ==> to_grid.spec_cell(xx, yy) == life_rule(
                    from_grid.spec_cell(xx, yy),
                    from_grid.spec_neighbour_count(xx, yy),
                ),
        decreases h - y,
    {
        let mut x: i32 = 0;
        while x < w
            invariant
                from_grid.well_formed(),
                to_grid.well_formed(),
                to_grid.width == w,
                to_grid.height == h,
                from_grid.width == w,
                from_grid.height == h,
                0 <= y < h,
                0 <= x <= w,
                forall|xx: int, yy: int|
                    0 <= xx < w && 0 <= yy < y ==> to_grid.spec_cell(xx, yy) == life_rule(
                        from_grid.spec_cell(xx, yy),
                        from_grid.spec_neighbour_count(xx, yy),
                    ),
                forall|xx: int|
                    0 <= xx < x ==> to_grid.spec_cell(xx, y as int) == life_rule(
                        from_grid.spec_cell(xx, y as int),
                        from_grid.spec_neighbour_count(xx, y as int),
                    ),
            decreases w - x,
        {
            let ghost prev = *to_grid;
            let neighbours = from_grid.neighbour_count(x, y);
            let next_alive = if from_grid.cell_val(x, y) {
                neighbours > 1 && neighbours < 4
            } else {
                neighbours == 3
            };
            to_grid.set_cell(x, y, next_alive);
            proof {
                let xi = x as int;
                let yi = y as int;
                let k = prev.spec_index(xi, yi);
                prev.lemma_index_in_bounds_id(xi, yi);
                prev.lemma_index_in_range(xi, yi);
                assert(to_grid.spec_cell(xi, yi) == next_alive) by {
                    assert(prev.grid@.update(k, next_alive)[k] == next_alive);
                }
                assert forall|xx: int, yy: int|
                    0 <= xx < w && 0 <= yy < h && (yy < yi || (yy == yi && xx <= xi))
                        implies to_grid.spec_cell(xx, yy) == life_rule(
                        from_grid.spec_cell(xx, yy),
                        from_grid.spec_neighbour_count(xx, yy),
                    ) by {
                    if xx != xi || yy != yi {
                        prev.lemma_index_in_bounds_id(xx, yy);
                        prev.lemma_index_in_range(xx, yy);
                        lemma_flat_index_injective(w as int, xx, yy, xi, yi);
                        let j = prev.spec_index(xx, yy);
                        assert(prev.grid@.update(k, next_alive)[j] == prev.grid@[j]);
                        assert(to_grid.spec_cell(xx, yy) == prev.spec_cell(xx, yy));
                        assert(prev.spec_cell(xx, yy) == life_rule(
                            from_grid.spec_cell(xx, yy),
                            from_grid.spec_neighbour_count(xx, yy),
                        ));
                    }
                }
            }
            x = x + 1;
        }
        y = y + 1;
    }
}

/// Whether a polled key press is the quit signal: the character `q` and
/// nothing else.
pub fn is_quit_key(key: Option<char>) -> (quit: bool)
    ensures
        quit == (key == Some('q')),
{
    match key {
        Some(c) => c == 'q',
        None => false,
    }
}

} // verus!
