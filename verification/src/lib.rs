//! Conway's Game of Life on a sparse grid of integer cells.
//!
//! The state of the automaton is the set of live cells. One call of
//! [`grid::LifeGrid::advance`] replaces that set by its successor and reports
//! which cells were born and which died.
//!
//! Coordinates are pairs of `i64`. The grid ends where `i64` ends: a position
//! with a component outside that range is not a cell, is never live and is
//! never born. Patterns that stay clear of that border evolve exactly as on
//! the unbounded plane (see [`laws::lemma_interior_step_is_unbounded`]).

pub mod cell_list;
pub mod coordinate;
pub mod grid;
pub mod laws;
pub mod rules;
