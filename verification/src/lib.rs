//! Conway's Game of Life on a toroidal grid.
//!
//! The grid is a fixed-size boolean field with wrap-around (toroidal)
//! addressing: any integer coordinate, negative or past the edge, maps to an
//! in-bounds cell by Euclidean modulo. One generation follows the next by the
//! standard B3/S23 rule, computed from a source grid into a separate
//! destination grid (double buffering).

pub mod grid;
pub mod rules;
pub mod laws;

pub use grid::{modulo, GridInitType, LifeGrid};
pub use rules::{apply_life_rules, is_next_generation, is_quit_key, life_rule};
pub use laws::{
    all_dead, in_block, is_block_at, lemma_block_still_life, lemma_empty_grid_stays_empty,
    lemma_grid_pointwise_equal, lemma_index_toroidal, lemma_next_generation_unique,
};
