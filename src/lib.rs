//! Two-phase coordinate solver for the 3x3 rotating cube.
//!
//! `tables` holds the move and pruning tables the search reads, `coord_cube` the
//! six-coordinate state and its move transition, `solver` the two-phase
//! iterative-deepening search and the notation of its solutions, and `heuristic` the
//! admissibility of the pruning tables.

pub mod tables;
pub mod coord_cube;
pub mod solver;
pub mod heuristic;
