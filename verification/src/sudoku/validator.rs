//! The placement rules: may a value be written into a cell?

use vstd::prelude::*;
use crate::helpers::{Board, ErrorMessage, N};
use crate::sudoku::grid::{grid, in_grid, shares_unit, Grid};

verus! {

/// `value` does not occur in row `row` of `g`.
pub open spec fn row_free(g: Grid, row: int, value: int) -> bool {
    forall|c: int| 0 <= c < 9 ==> g[row][c] != value
}

/// `value` does not occur in column `col` of `g`.
pub open spec fn column_free(g: Grid, col: int, value: int) -> bool {
    forall|r: int| 0 <= r < 9 ==> g[r][col] != value
}

/// `value` does not occur in the 3×3 block of `g` that holds the cell
/// `(row, col)`.
pub open spec fn block_free(g: Grid, row: int, col: int, value: int) -> bool {
    forall|r: int, c: int|
        in_grid(r, c) && r / 3 == row / 3 && c / 3 == col / 3 ==> g[r][c] != value
}

/// `value` occurs neither in the row, nor in the column, nor in the block
/// of the cell `(row, col)`. The cell itself belongs to all three, so a
/// value that it already holds is not free.
pub open spec fn placement_ok(g: Grid, row: int, col: int, value: int) -> bool {
    &&& row_free(g, row, value)
    &&& column_free(g, col, value)
    &&& block_free(g, row, col, value)
}

/// Something that decides whether a value may be written into a cell.
///
/// A validator is a function of the board, the cell and the value:
/// [`Validator::verdict`] names its answer, and [`Validator::is_valid`]
/// computes it.
pub trait Validator {
    /// The answer of this validator for writing `value` into the cell
    /// `(row, col)` of `g`.
    spec fn verdict(&self, g: Grid, row: int, col: int, value: int) -> Result<bool, ErrorMessage>;

    /// Computes the verdict. An index outside the board is an error.
    fn is_valid(&self, board: &Board, row: usize, col: usize, new_value: i32) -> (r: Result<
        bool,
        ErrorMessage,
    >)
        ensures
            r == self.verdict(grid(*board), row as int, col as int, new_value as int),
            row >= N || col >= N ==> r == Err::<bool, ErrorMessage>(ErrorMessage::OutOfBounds),
    ;
}

/// The validator of the classic rules: a value may be placed where its
/// row, its column and its block do not hold it yet.
pub struct BasicValidator {}

impl Validator for BasicValidator {
    open spec fn verdict(&self, g: Grid, row: int, col: int, value: int) -> Result<
        bool,
        ErrorMessage,
    > {
        if in_grid(row, col) {
            Ok(placement_ok(g, row, col, value))
        } else {
            Err(ErrorMessage::OutOfBounds)
        }
    }

    /// Checks the row, the column and the block of the cell `(row, col)`
    /// for `new_value`. A row or a column outside the board is reported
    /// before anything is compared.
    fn is_valid(&self, board: &Board, row: usize, col: usize, new_value: i32) -> (r: Result<
        bool,
        ErrorMessage,
    >)
        ensures
            row < N && col < N ==> r == Ok::<bool, ErrorMessage>(
                placement_ok(grid(*board), row as int, col as int, new_value as int),
            ),
            row >= N || col >= N ==> r == Err::<bool, ErrorMessage>(ErrorMessage::OutOfBounds),
    {
        let line = self.is_valid_line(board, row, new_value)?;
        let column = self.is_valid_column(board, col, new_value)?;
        Ok(line && column && self.is_valid_bloc(board, row, col, new_value))
    }
}

impl BasicValidator {
    /// Row check: `Ok(true)` when `new_value` is absent from row `row`.
    #[verifier::loop_isolation(false)]
    pub fn is_valid_line(&self, board: &Board, row: usize, new_value: i32) -> (r: Result<
        bool,
        ErrorMessage,
    >)
        ensures
            row < N ==> r == Ok::<bool, ErrorMessage>(
                row_free(grid(*board), row as int, new_value as int),
            ),
            row >= N ==> r == Err::<bool, ErrorMessage>(ErrorMessage::OutOfBounds),
    {
        if row >= N {
            return Err(ErrorMessage::OutOfBounds);
        }
        let mut col: usize = 0;
        while col < N
            invariant
                col <= N,
                forall|c: int| 0 <= c < col ==> grid(*board)[row as int][c] != new_value,
            decreases N - col,
        {
            if board[row][col] == new_value {
                assert(grid(*board)[row as int][col as int] == new_value);
                return Ok(false);
            }
            col += 1;
        }
        Ok(true)
    }

    /// Column check: `Ok(true)` when `new_value` is absent from column
    /// `col`.
    #[verifier::loop_isolation(false)]
    pub fn is_valid_column(&self, board: &Board, col: usize, new_value: i32) -> (r: Result<
        bool,
        ErrorMessage,
    >)
        ensures
            col < N ==> r == Ok::<bool, ErrorMessage>(
                column_free(grid(*board), col as int, new_value as int),
            ),
            col >= N ==> r == Err::<bool, ErrorMessage>(ErrorMessage::OutOfBounds),
    {
        if col >= N {
            return Err(ErrorMessage::OutOfBounds);
        }
        let mut row: usize = 0;
        while row < N
            invariant
                row <= N,
                forall|r: int| 0 <= r < row ==> grid(*board)[r][col as int] != new_value,
            decreases N - row,
        {
            if board[row][col] == new_value {
                assert(grid(*board)[row as int][col as int] == new_value);
                return Ok(false);
            }
            row += 1;
        }
        Ok(true)
    }

    /// Block check: `true` when `new_value` is absent from the 3×3 block
    /// whose top-left corner is `(row - row % 3, col - col % 3)`.
    #[verifier::loop_isolation(false)]
    pub fn is_valid_bloc(&self, board: &Board, row: usize, col: usize, new_value: i32) -> (free:
        bool)
        requires
            row < N,
            col < N,
        ensures
            free == block_free(grid(*board), row as int, col as int, new_value as int),
    {
        let start_row: usize = row - row % 3;
        let start_col: usize = col - col % 3;
        let mut r: usize = start_row;
        while r < start_row + 3
            invariant
                start_row <= r <= start_row + 3,
                forall|i: int, j: int|
                    start_row <= i < r && start_col <= j < start_col + 3 ==> grid(*board)[i][j]
                        != new_value,
            decreases start_row + 3 - r,
        {
            let mut c: usize = start_col;
            while c < start_col + 3
                invariant
                    start_col <= c <= start_col + 3,
                    forall|j: int| start_col <= j < c ==> grid(*board)[r as int][j] != new_value,
                decreases start_col + 3 - c,
            {
                if board[r][c] == new_value {
                    assert(in_grid(r as int, c as int));
                    return false;
                }
                c += 1;
            }
            r += 1;
        }
        true
    }
}

/// A value that a cell holds may not be placed in any cell with which
/// that cell shares a row, a column or a block: for a board in which the
/// cell `(r, c)` holds `value`, the basic validator answers `false` for
/// `value` at every cell `(row, col)` of a unit of `(r, c)`.
pub proof fn lemma_no_duplicate_placement(
    validator: BasicValidator,
    g: Grid,
    r: int,
    c: int,
    row: int,
    col: int,
    value: int,
)
    requires
        in_grid(r, c),
        in_grid(row, col),
        shares_unit(r, c, row, col),
        g[r][c] == value,
    ensures
        validator.verdict(g, row, col, value) == Ok::<bool, ErrorMessage>(false),
{
}

} // verus!
