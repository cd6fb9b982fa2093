//! A bounded, non-wrapping cellular automaton with two rule variants:
//! the classic birth/survival rule and a "war" rule in which living cells
//! carry a signed strength whose sign names their team.
//!
//! `Sandbox` stores the grid and extracts Moore neighbourhoods, clipped at
//! the edges; `rules` computes a cell's next state from its neighbourhood;
//! `Sandbox::step` advances the whole grid by one generation at once.

mod cell;
mod neighbourhood;
mod point;
mod rules;
mod sandbox;

pub use cell::Cell;
pub use neighbourhood::{
    block_row, block_rows, is_neighbour, lemma_corner_does_not_wrap, lemma_neighbour_count,
    lemma_neighbours_complete, lemma_neighbours_in_reach, neighbour_coords, span,
};
pub use point::{in_grid, lemma_linear_index_in_range, linear_index, Point};
pub use rules::{
    alive_count, classic_from_count, classic_next, classic_rule, count_alive,
    lemma_classic_birth, lemma_classic_survival, lemma_dead_cells_count_nothing,
    lemma_war_boundary, lemma_war_takeover, next_cell, rule_next, strength_sum, sum_strength,
    war_from_total, war_next, war_rule, Rule,
};
pub use sandbox::{lemma_all_dead_is_fixed, ConstructionError, OutOfBounds, Sandbox};
