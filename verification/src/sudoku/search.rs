//! The model of the search: what depth-first backtracking yields on a
//! grid, as a function of the validator and the grid, and what holds of
//! it with every validator.

use vstd::prelude::*;
use crate::helpers::ErrorMessage;
use crate::sudoku::grid::{
    complete, extends, first_empty, in_grid, is_grid, lemma_complete_iff_no_empty,
    lemma_fill_advances, lemma_first_empty_from, lemma_place, place, well_formed, Grid,
};
use crate::sudoku::validator::Validator;

verus! {

/// What a search yields: the resulting grid and whether it is solved, or
/// the error of the validator.
pub type Outcome = Result<(Grid, bool), ErrorMessage>;

/// The outcome of the search on `g` with the validator `v`.
///
/// A grid without an empty cell is its own solution. Otherwise the digits
/// are tried on the first empty cell, see [`attempt`]. The search is meant
/// for grids of nine by nine cells; anything else it hands back as it is.
pub open spec fn search<V: Validator + ?Sized>(v: &V, g: Grid) -> Outcome
    decreases 81 - first_empty(g), 10int,
{
    if is_grid(g) && first_empty(g) < 81 {
        attempt(v, g, 1)
    } else {
        Ok((g, true))
    }
}

/// The outcome of trying the digits `digit..=9`, in ascending order, on
/// the first empty cell of `g`.
///
/// A digit that the validator accepts is placed and the search goes on
/// from there; the first digit that leads to a solved grid decides. An
/// error of the validator ends the search at once. When no digit is left,
/// the search has failed and yields `g` itself.
pub open spec fn attempt<V: Validator + ?Sized>(v: &V, g: Grid, digit: int) -> Outcome
    decreases 81 - first_empty(g), 10 - digit,
{
    let k: int = first_empty(g);
    if is_grid(g) && k < 81 && 1 <= digit <= 9 {
        match v.verdict(g, k / 9, k % 9, digit) {
            Err(e) => Err(e),
            Ok(false) => attempt(v, g, digit + 1),
            Ok(true) => {
                proof {
                    lemma_fill_advances(g, digit);
                }
                match search(v, place(g, k / 9, k % 9, digit)) {
                    Err(e) => Err(e),
                    Ok((s, true)) => Ok((s, true)),
                    Ok((_, false)) => attempt(v, g, digit + 1),
                }
            },
        }
    } else {
        Ok((g, false))
    }
}

/// The validator `v` answers every question about a cell of the board.
pub open spec fn answers_in_grid<V: Validator + ?Sized>(v: &V) -> bool {
    forall|g: Grid, row: int, col: int, value: int|
        in_grid(row, col) ==> (#[trigger] v.verdict(g, row, col, value)) is Ok
}

/// `s` fills the empty cells of `g` with digits and keeps the others.
pub open spec fn completes(s: Grid, g: Grid) -> bool {
    &&& is_grid(s)
    &&& complete(s)
    &&& extends(s, g)
    &&& forall|r: int, c: int| in_grid(r, c) && g[r][c] == 0 ==> 1 <= #[trigger] s[r][c] <= 9
}

/// Completing a well-formed grid gives a well-formed grid.
pub proof fn lemma_completes_keeps_well_formed(s: Grid, g: Grid)
    requires
        well_formed(g),
        completes(s, g),
    ensures
        well_formed(s),
{
}

/// A search that fails hands back the grid it was given.
pub proof fn lemma_failure_keeps_grid<V: Validator + ?Sized>(v: &V, g: Grid)
    ensures
        search(v, g) matches Ok((s, false)) ==> s == g,
{
    lemma_attempt_failure_keeps_grid(v, g, 1);
}

proof fn lemma_attempt_failure_keeps_grid<V: Validator + ?Sized>(v: &V, g: Grid, digit: int)
    ensures
        attempt(v, g, digit) matches Ok((s, false)) ==> s == g,
    decreases 10 - digit,
{
    if is_grid(g) && first_empty(g) < 81 && 1 <= digit <= 9 {
        lemma_attempt_failure_keeps_grid(v, g, digit + 1);
    }
}

/// A grid without an empty cell is the result of its own search, and
/// counts as solved.
pub proof fn lemma_complete_is_fixed<V: Validator + ?Sized>(v: &V, g: Grid)
    requires
        complete(g),
    ensures
        search(v, g) == Ok::<(Grid, bool), ErrorMessage>((g, true)),
{
    lemma_complete_iff_no_empty(g);
}

/// With a validator that answers every question about a cell of the
/// board, the search never ends in an error.
pub proof fn lemma_search_never_fails<V: Validator + ?Sized>(v: &V, g: Grid)
    requires
        answers_in_grid(v),
    ensures
        search(v, g) is Ok,
    decreases 81 - first_empty(g), 10int,
{
    if is_grid(g) && first_empty(g) < 81 {
        lemma_attempt_never_fails(v, g, 1);
    }
}

proof fn lemma_attempt_never_fails<V: Validator + ?Sized>(v: &V, g: Grid, digit: int)
    requires
        answers_in_grid(v),
    ensures
        attempt(v, g, digit) is Ok,
    decreases 81 - first_empty(g), 10 - digit,
{
    let k: int = first_empty(g);
    if is_grid(g) && k < 81 && 1 <= digit <= 9 {
        lemma_first_empty_from(g, 0);
        lemma_attempt_never_fails(v, g, digit + 1);
        if v.verdict(g, k / 9, k % 9, digit) == Ok::<bool, ErrorMessage>(true) {
            lemma_fill_advances(g, digit);
            lemma_search_never_fails(v, place(g, k / 9, k % 9, digit));
        }
    }
}

/// A search that succeeds has filled every empty cell with a digit and
/// has kept every other cell.
pub proof fn lemma_success_completes<V: Validator + ?Sized>(v: &V, g: Grid)
    requires
        is_grid(g),
    ensures
        search(v, g) matches Ok((s, true)) ==> completes(s, g),
    decreases 81 - first_empty(g), 10int,
{
    if first_empty(g) < 81 {
        lemma_attempt_success_completes(v, g, 1);
    } else {
        lemma_first_empty_from(g, 0);
        lemma_complete_iff_no_empty(g);
    }
}

proof fn lemma_attempt_success_completes<V: Validator + ?Sized>(v: &V, g: Grid, digit: int)
    requires
        is_grid(g),
    ensures
        attempt(v, g, digit) matches Ok((s, true)) ==> completes(s, g),
    decreases 81 - first_empty(g), 10 - digit,
{
    let k: int = first_empty(g);
    if k < 81 && 1 <= digit <= 9 {
        lemma_first_empty_from(g, 0);
        lemma_attempt_success_completes(v, g, digit + 1);
        if v.verdict(g, k / 9, k % 9, digit) == Ok::<bool, ErrorMessage>(true) {
            let filled: Grid = place(g, k / 9, k % 9, digit);
            lemma_fill_advances(g, digit);
            lemma_place(g, k / 9, k % 9, digit);
            lemma_success_completes(v, filled);
            match search(v, filled) {
                Ok((s, true)) => {
                    lemma_completes_through_placement(s, g, k / 9, k % 9, digit);
                },
                _ => {},
            }
        }
    }
}

/// A grid that completes `g` after a digit was placed in an empty cell
/// of `g` completes `g` itself.
pub proof fn lemma_completes_through_placement(s: Grid, g: Grid, row: int, col: int, digit: int)
    requires
        is_grid(g),
        in_grid(row, col),
        g[row][col] == 0,
        1 <= digit <= 9,
        completes(s, place(g, row, col, digit)),
    ensures
        completes(s, g),
        s[row][col] == digit,
{
    lemma_place(g, row, col, digit);
}

/// Searching again changes nothing: the grid that a successful search
/// yields is the result of its own search.
pub proof fn lemma_search_is_idempotent<V: Validator + ?Sized>(v: &V, g: Grid)
    ensures
        search(v, g) matches Ok((s, true)) ==> search(v, s) == search(v, g),
{
    if is_grid(g) {
        lemma_success_completes(v, g);
        match search(v, g) {
            Ok((s, true)) => {
                lemma_complete_is_fixed(v, s);
            },
            _ => {},
        }
    }
}

} // verus!
