//! A 9×9 Sudoku solver by exhaustive backtracking, with machine-checked
//! contracts.
//!
//! A [`sudoku::validator::Validator`] decides whether a digit may be
//! placed in a cell; a [`sudoku::resolver::Resolver`] searches for a
//! complete assignment and asks a validator before every placement.
//!
//! All contracts are stated over [`sudoku::grid::Grid`], the mathematical
//! view of a board. [`sudoku::search`] says what the search yields with any
//! validator, and [`sudoku::solutions`] proves that with the classic rules
//! it yields the first solution of a grid, if the grid has one.

pub mod helpers;
pub mod sudoku;
