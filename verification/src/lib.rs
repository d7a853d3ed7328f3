//! A 9x9 Sudoku board with a verified backtracking solver.
//!
//! A [`Board`] is built empty, from a grid of digits, or from nine rows of
//! digit characters; [`Board::solve`] completes it in place by naive
//! backtracking, or reports failure and leaves it untouched. Its contract
//! characterises the outcome exactly: the search succeeds precisely on
//! the boards that have a completion reachable through its placement
//! gate ([`grid::gated_completion`]), and on success it leaves one
//! behind.
//!
//! One deliberate oddity runs through the whole crate: the box membership
//! check behind the placement gate looks only at the first non-empty cell
//! of a 3x3 box, in row-major order, where the row and column checks scan
//! their whole line (see [`Board::is_number_in_box`]). The contracts state
//! this behaviour exactly as it is. A completed board is therefore free of
//! repeated digits in every row and every column — proved in
//! [`laws::lemma_filled_consistent_grid_complete`] — but a box may end up
//! holding a digit twice.

pub mod board;
pub mod cell;
pub mod grid;
pub mod laws;
pub mod solver;

pub use board::Board;
pub use cell::Cell;
