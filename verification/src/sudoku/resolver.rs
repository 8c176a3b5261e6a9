//! The resolver: depth-first backtracking over the empty cells in
//! reading order, trying the digits in ascending order.

use vstd::prelude::*;
use crate::helpers::{Board, ErrorMessage, N};
use crate::sudoku::grid::{
    cell_at, complete, first_empty, grid, lemma_fill_advances, lemma_first_empty_is,
    lemma_grid_injective, lemma_grid_shape, place, well_formed, Grid,
};
use crate::sudoku::search::{
    answers_in_grid, attempt, completes, lemma_complete_is_fixed,
    lemma_completes_keeps_well_formed, lemma_failure_keeps_grid, lemma_search_never_fails,
    lemma_success_completes, search, Outcome,
};
use crate::sudoku::validator::Validator;

verus! {

/// `r` is the outcome `o`, as a board.
pub open spec fn yields(r: Result<(Board, bool), ErrorMessage>, o: Outcome) -> bool {
    match o {
        Ok((g, done)) => r matches Ok((b, flag)) && grid(b) == g && flag == done,
        Err(e) => r == Err::<(Board, bool), ErrorMessage>(e),
    }
}

/// Something that completes a board.
///
/// A resolver is a function of the board: [`Resolver::outcome`] names its
/// result and [`Resolver::resolve`] computes it.
pub trait Resolver {
    /// The result of this resolver on `g`.
    spec fn outcome(&self, g: Grid) -> Outcome;

    /// Computes the outcome: the resulting board and whether it is
    /// solved.
    fn resolve(&self, board: &Board) -> (r: Result<(Board, bool), ErrorMessage>)
        ensures
            yields(r, self.outcome(grid(*board))),
    ;
}

/// The backtracking resolver. It asks its validator before every
/// placement.
///
/// `V` is the type of the validator; where it is left out, the resolver
/// holds a trait object.
pub struct SimpleResolver<V: Validator + ?Sized = dyn Validator> {
    validator: Box<V>,
}

impl<V: Validator + ?Sized> SimpleResolver<V> {
    /// The validator that this resolver asks.
    pub closed spec fn validator(&self) -> &V {
        &*self.validator
    }

    /// A resolver that asks `validator`.
    pub fn new(validator: Box<V>) -> (resolver: Self)
        ensures
            resolver.validator() == &*validator,
    {
        Self { validator }
    }

    /// A copy of `board` in which the cell `(row, col)` holds
    /// `new_value`.
    pub fn update_board(board: &Board, row: usize, col: usize, new_value: i32) -> (out: Board)
        requires
            row < N,
            col < N,
        ensures
            grid(out) == place(grid(*board), row as int, col as int, new_value as int),
    {
        let mut new_board = *board;
        new_board[row][col] = new_value;
        assert(grid(new_board) =~~= place(grid(*board), row as int, col as int, new_value as int));
        new_board
    }
}

impl<V: Validator + ?Sized> Resolver for SimpleResolver<V> {
    open spec fn outcome(&self, g: Grid) -> Outcome {
        search(self.validator(), g)
    }

    /// Searches for a complete assignment of `board`.
    ///
    /// The first empty cell in reading order is filled with the first
    /// digit, in ascending order, that the validator accepts and from
    /// which the rest of the board can be completed. The result is the
    /// completed board and `true`, or `board` itself and `false` when no
    /// digit fits. An error of the validator ends the search and is handed
    /// on.
    #[verifier::loop_isolation(false)]
    fn resolve(&self, board: &Board) -> (r: Result<(Board, bool), ErrorMessage>)
        ensures
            yields(r, search(self.validator(), grid(*board))),
            answers_in_grid(self.validator()) ==> r is Ok,
            complete(grid(*board)) ==> r == Ok::<(Board, bool), ErrorMessage>((*board, true)),
            r matches Ok((out, true)) ==> completes(grid(out), grid(*board)),
            r matches Ok((out, false)) ==> out == *board,
            r matches Ok((out, _)) ==> (well_formed(grid(*board)) ==> well_formed(grid(out))),
        decreases 81 - first_empty(grid(*board)),
    {
        let ghost g: Grid = grid(*board);
        proof {
            lemma_grid_shape(*board);
            lemma_success_completes(self.validator(), g);
            lemma_failure_keeps_grid(self.validator(), g);
            if answers_in_grid(self.validator()) {
                lemma_search_never_fails(self.validator(), g);
            }
            if complete(g) {
                lemma_complete_is_fixed(self.validator(), g);
            }
            if well_formed(g) {
                match search(self.validator(), g) {
                    Ok((s, true)) => {
                        lemma_completes_keeps_well_formed(s, g);
                    },
                    _ => {},
                }
            }
            assert forall|out: Board| grid(out) == g implies out == *board by {
                lemma_grid_injective(out, *board);
            }
        }
        for row in 0..N
            invariant
                forall|k: int| 0 <= k < 9 * row ==> cell_at(g, k) != 0,
        {
            for col in 0..N
                invariant
                    forall|k: int| 0 <= k < 9 * row + col ==> cell_at(g, k) != 0,
            {
                if board[row][col] == 0 {
                    proof {
                        lemma_first_empty_is(g, 9 * row + col);
                    }
                    let mut num: i32 = 1;
                    while num <= 9
                        invariant
                            1 <= num <= 10,
                            attempt(self.validator(), g, num as int) == search(self.validator(), g),
                        decreases 10 - num,
                    {
                        if self.validator.is_valid(board, row, col, num)? {
                            let new_board = Self::update_board(board, row, col, num);
                            proof {
                                lemma_fill_advances(g, num as int);
                            }
                            let result_solved = self.resolve(&new_board)?;
                            if result_solved.1 {
                                return Ok((result_solved.0, true));
                            }
                        }
                        num += 1;
                    }
                    return Ok((*board, false));
                }
            }
        }
        proof {
            lemma_first_empty_is(g, 81);
        }
        Ok((*board, true))
    }
}

/// Resolving is deterministic: two runs of one resolver on one board end
/// in the same result, the same board cell for cell.
pub proof fn lemma_resolve_is_deterministic<R: Resolver + ?Sized>(
    resolver: &R,
    board: Board,
    first: Result<(Board, bool), ErrorMessage>,
    second: Result<(Board, bool), ErrorMessage>,
)
    requires
        yields(first, resolver.outcome(grid(board))),
        yields(second, resolver.outcome(grid(board))),
    ensures
        first == second,
{
    match (first, second) {
        (Ok((a, _)), Ok((b, _))) => {
            lemma_grid_injective(a, b);
        },
        _ => {},
    }
}

} // verus!
