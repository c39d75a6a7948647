use life_grid::{modulo, GridInitType, LifeGrid};

#[test]
fn modulo_positive_in_range() {
    assert_eq!(modulo(0, 7), 0);
    assert_eq!(modulo(3, 7), 3);
    assert_eq!(modulo(6, 7), 6);
}

#[test]
fn modulo_wraps_past_the_bound() {
    assert_eq!(modulo(7, 7), 0);
    assert_eq!(modulo(12, 7), 5);
    assert_eq!(modulo(70, 7), 0);
}

#[test]
fn modulo_never_negative() {
    assert_eq!(modulo(-1, 4), 3);
    assert_eq!(modulo(-4, 4), 0);
    assert_eq!(modulo(-5, 4), 3);
    assert_eq!(modulo(-9, 4), 3);
}

#[test]
fn modulo_handles_extreme_values() {
    assert_eq!(modulo(i32::MIN, 4), 0);
    assert_eq!(modulo(i32::MIN, 5), 2);
    assert_eq!(modulo(i32::MAX, 2), 1);
}

#[test]
fn neighbour_count_accepts_any_coordinate() {
    let mut lg = LifeGrid::new(4, 4, GridInitType::Blank);
    lg.set_cell(1, 1, true);
    // i32::MIN is divisible by 4, so it wraps to column and row 0
    assert_eq!(lg.neighbour_count(i32::MIN, i32::MIN), 1);
    assert_eq!(lg.neighbour_count(i32::MAX, i32::MAX), 0);
}

#[test]
fn index_wraps_toroidally() {
    let lg = LifeGrid::new(6, 4, GridInitType::Blank);
    // index(x, y) == index(x + k*width, y + m*height) for several k, m
    assert_eq!(lg.cell_index(2, 3), lg.cell_index(2 + 6, 3));
    assert_eq!(lg.cell_index(2, 3), lg.cell_index(2, 3 + 4));
    assert_eq!(lg.cell_index(2, 3), lg.cell_index(2 - 12, 3 + 8));
    assert_eq!(lg.cell_index(0, 0), lg.cell_index(-6, -4));
    assert_eq!(lg.cell_index(5, 0), lg.cell_index(-1, 4));
}

#[test]
fn index_is_row_major() {
    let lg = LifeGrid::new(6, 4, GridInitType::Blank);
    assert_eq!(lg.cell_index(0, 0), 0);
    assert_eq!(lg.cell_index(5, 0), 5);
    assert_eq!(lg.cell_index(0, 1), 6);
    assert_eq!(lg.cell_index(3, 2), 15);
}

#[test]
fn set_and_get_wrap_to_the_same_cell() {
    let mut lg = LifeGrid::new(5, 3, GridInitType::Blank);
    lg.set_cell(-1, -1, true);
    assert!(lg.cell_val(4, 2));
    assert!(lg.cell_val(-1, -1));
    assert!(lg.cell_val(9, 5));
    lg.set_cell(4, 2, false);
    assert!(!lg.cell_val(-1, -1));
}

#[test]
fn blank_grid_is_all_dead() {
    let lg = LifeGrid::new(8, 5, GridInitType::Blank);
    for y in 0..5 {
        for x in 0..8 {
            assert!(!lg.cell_val(x, y));
        }
    }
    assert_eq!(lg.grid.len(), 40);
}

#[test]
fn neighbour_count_stays_in_range() {
    let mut lg = LifeGrid::new(4, 4, GridInitType::Blank);
    assert_eq!(lg.neighbour_count(1, 1), 0);
    for y in 0..4 {
        for x in 0..4 {
            lg.set_cell(x, y, true);
        }
    }
    for y in 0..4 {
        for x in 0..4 {
            let n = lg.neighbour_count(x, y);
            assert!(n >= 0 && n <= 8);
            assert_eq!(n, 8);
        }
    }
}

#[test]
fn neighbour_count_excludes_the_cell_itself() {
    let mut lg = LifeGrid::new(5, 5, GridInitType::Blank);
    lg.set_cell(2, 2, true);
    assert_eq!(lg.neighbour_count(2, 2), 0);
    assert_eq!(lg.neighbour_count(1, 1), 1);
    assert_eq!(lg.neighbour_count(2, 1), 1);
    assert_eq!(lg.neighbour_count(3, 3), 1);
    assert_eq!(lg.neighbour_count(4, 4), 0);
}

#[test]
fn neighbour_count_wraps_across_edges() {
    let mut lg = LifeGrid::new(5, 4, GridInitType::Blank);
    lg.set_cell(0, 0, true);
    // (4, 3) is diagonally adjacent to (0, 0) across both edges
    assert_eq!(lg.neighbour_count(4, 3), 1);
    assert_eq!(lg.neighbour_count(4, 0), 1);
    assert_eq!(lg.neighbour_count(0, 3), 1);
    assert_eq!(lg.neighbour_count(2, 2), 0);
}

#[test]
fn row_glyphs_mark_alive_cells() {
    let mut lg = LifeGrid::new(4, 2, GridInitType::Blank);
    lg.set_cell(1, 0, true);
    lg.set_cell(3, 1, true);
    assert_eq!(lg.row_glyphs(0), vec![' ', 'O', ' ', ' ']);
    assert_eq!(lg.row_glyphs(1), vec![' ', ' ', ' ', 'O']);
}
