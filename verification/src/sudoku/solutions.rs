//! What the search finds under the classic rules: theorems that relate
//! the outcome of the search with the basic validator to the solutions of
//! the grid it started from.

use vstd::prelude::*;
use crate::helpers::ErrorMessage;
use crate::sudoku::counting::{
    distinct, lemma_distinct_covers, lemma_pigeonhole, lemma_repeat_leaves_gap, occurs,
    position_of, within,
};
use crate::sudoku::grid::{
    cell_at, clash, conflict_free, extends, first_empty, in_grid, is_grid,
    lemma_complete_iff_no_empty, lemma_fill_advances, lemma_first_empty_from, lemma_place, place,
    shares_unit, solved, well_formed, Grid,
};
use crate::sudoku::search::{
    answers_in_grid, attempt, completes, lemma_completes_keeps_well_formed,
    lemma_completes_through_placement, lemma_failure_keeps_grid, lemma_search_never_fails,
    lemma_success_completes, search,
};
use crate::sudoku::validator::{placement_ok, BasicValidator, Validator};

verus! {

/// Every pair of cells that clash in `s` was a pair of filled cells in
/// `g`: on the way from `g` to `s` no clash was added.
pub open spec fn adds_no_clash(s: Grid, g: Grid) -> bool {
    forall|r1: int, c1: int, r2: int, c2: int| #[trigger]
        clash(s, r1, c1, r2, c2) ==> g[r1][c1] != 0 && g[r2][c2] != 0
}

/// With the basic validator, a search that succeeds has added no clash:
/// two cells of a common unit hold the same digit in the result only
/// where both held it from the start.
pub proof fn lemma_success_adds_no_clash(validator: BasicValidator, g: Grid)
    requires
        is_grid(g),
    ensures
        search(&validator, g) matches Ok((s, true)) ==> completes(s, g) && adds_no_clash(s, g),
    decreases 81 - first_empty(g), 10int,
{
    lemma_success_completes(&validator, g);
    if first_empty(g) < 81 {
        lemma_attempt_success_adds_no_clash(validator, g, 1);
    } else {
        lemma_first_empty_from(g, 0);
        lemma_complete_iff_no_empty(g);
    }
}

proof fn lemma_attempt_success_adds_no_clash(validator: BasicValidator, g: Grid, digit: int)
    requires
        is_grid(g),
    ensures
        attempt(&validator, g, digit) matches Ok((s, true)) ==> adds_no_clash(s, g),
    decreases 81 - first_empty(g), 10 - digit,
{
    let k: int = first_empty(g);
    if k < 81 && 1 <= digit <= 9 {
        lemma_first_empty_from(g, 0);
        lemma_attempt_success_adds_no_clash(validator, g, digit + 1);
        if validator.verdict(g, k / 9, k % 9, digit) == Ok::<bool, ErrorMessage>(true) {
            let filled: Grid = place(g, k / 9, k % 9, digit);
            lemma_fill_advances(g, digit);
            lemma_place(g, k / 9, k % 9, digit);
            lemma_success_adds_no_clash(validator, filled);
            match search(&validator, filled) {
                Ok((s, true)) => {
                    lemma_no_clash_through_placement(s, g, k / 9, k % 9, digit);
                },
                _ => {},
            }
        }
    }
}

/// A grid that adds no clash to `g` with a digit placed where the basic
/// rules allow it adds no clash to `g` itself.
proof fn lemma_no_clash_through_placement(s: Grid, g: Grid, row: int, col: int, digit: int)
    requires
        is_grid(g),
        in_grid(row, col),
        g[row][col] == 0,
        digit != 0,
        placement_ok(g, row, col, digit),
        completes(s, place(g, row, col, digit)),
        adds_no_clash(s, place(g, row, col, digit)),
    ensures
        adds_no_clash(s, g),
{
    // Were one of two clashing cells the cell `(row, col)`, the other would
    // hold `digit` in `g`, in a unit of that cell.
    lemma_place(g, row, col, digit);
}

/// Soundness of the search with the basic validator: on a well-formed
/// grid without a clash, a search that succeeds yields a solved grid that
/// keeps every filled cell of the grid it started from.
pub proof fn lemma_success_is_solution(validator: BasicValidator, g: Grid)
    requires
        well_formed(g),
        conflict_free(g),
    ensures
        search(&validator, g) matches Ok((s, true)) ==> solved(s) && extends(s, g),
{
    lemma_success_adds_no_clash(validator, g);
    match search(&validator, g) {
        Ok((s, true)) => {
            lemma_completes_keeps_well_formed(s, g);
            assert forall|r1: int, c1: int, r2: int, c2: int| !clash(s, r1, c1, r2, c2) by {
                if clash(s, r1, c1, r2, c2) {
                    assert(clash(g, r1, c1, r2, c2));
                }
            }
        },
        _ => {},
    }
}

/// `t` comes before `s` in the order of the search: at the first cell, in
/// reading order, in which they differ, `t` holds the smaller digit.
pub open spec fn comes_before(t: Grid, s: Grid) -> bool {
    exists|k: int|
        0 <= k < 81 && #[trigger] cell_at(t, k) < cell_at(s, k) && forall|j: int|
            0 <= j < k ==> cell_at(t, j) == cell_at(s, j)
}

/// `s` is a solution of `g`: a solved grid that keeps every filled cell
/// of `g`.
pub open spec fn solution_of(s: Grid, g: Grid) -> bool {
    solved(s) && extends(s, g)
}

/// A grid that has a solution is well formed and free of clashes.
pub proof fn lemma_solvable_is_legal(g: Grid, s: Grid)
    requires
        is_grid(g),
        solution_of(s, g),
    ensures
        well_formed(g),
        conflict_free(g),
{
    assert forall|r1: int, c1: int, r2: int, c2: int| !clash(g, r1, c1, r2, c2) by {
        if clash(g, r1, c1, r2, c2) {
            assert(clash(s, r1, c1, r2, c2));
        }
    }
}

/// Completeness of the search with the basic validator: on a grid that
/// has a solution the search succeeds, and what it yields is a solution
/// that equals, or comes before, every solution of the grid.
pub proof fn lemma_finds_first_solution(validator: BasicValidator, g: Grid, s: Grid)
    requires
        is_grid(g),
        solution_of(s, g),
    ensures
        search(&validator, g) is Ok,
        search(&validator, g)->Ok_0.1,
        solution_of(search(&validator, g)->Ok_0.0, g),
        search(&validator, g)->Ok_0.0 == s || comes_before(search(&validator, g)->Ok_0.0, s),
    decreases 81 - first_empty(g), 10int,
{
    lemma_solvable_is_legal(g, s);
    lemma_success_is_solution(validator, g);
    lemma_first_empty_from(g, 0);
    if first_empty(g) < 81 {
        lemma_attempt_finds_first_solution(validator, g, s, 1);
    } else {
        // A grid without an empty cell has itself as its only solution.
        lemma_complete_iff_no_empty(g);
        assert forall|r: int| 0 <= r < 9 implies g[r] == s[r] by {
            assert forall|c: int| 0 <= c < 9 implies g[r][c] == s[r][c] by {
                assert(in_grid(r, c));
            }
        }
        assert(g == s);
    }
}

proof fn lemma_attempt_finds_first_solution(validator: BasicValidator, g: Grid, s: Grid, digit: int)
    requires
        is_grid(g),
        solution_of(s, g),
        first_empty(g) < 81,
        1 <= digit <= cell_at(s, first_empty(g)),
    ensures
        attempt(&validator, g, digit) is Ok,
        attempt(&validator, g, digit)->Ok_0.1,
        attempt(&validator, g, digit)->Ok_0.0 == s || comes_before(
            attempt(&validator, g, digit)->Ok_0.0,
            s,
        ),
    decreases 81 - first_empty(g), 10 - digit,
{
    let k: int = first_empty(g);
    let row: int = k / 9;
    let col: int = k % 9;
    lemma_first_empty_from(g, 0);
    let goal: int = s[row][col];
    let filled: Grid = place(g, row, col, digit);
    lemma_place(g, row, col, digit);
    lemma_fill_advances(g, digit);
    if digit == goal {
        // The digit of the solution: the rules allow it, and `s` is a
        // solution of the grid that holds it.
        lemma_solution_digit_is_allowed(g, s, row, col);
        assert(extends(s, filled));
        lemma_finds_first_solution(validator, filled, s);
    } else {
        // A smaller digit: where the search succeeds with it, the result
        // equals `s` up to this cell and holds less in it; where it does
        // not, the next digit is tried.
        lemma_attempt_finds_first_solution(validator, g, s, digit + 1);
        if validator.verdict(g, row, col, digit) == Ok::<bool, ErrorMessage>(true) {
            lemma_search_never_fails(&validator, filled);
            lemma_success_completes(&validator, filled);
            match search(&validator, filled) {
                Ok((t, true)) => {
                    lemma_completes_through_placement(t, g, row, col, digit);
                    assert(cell_at(t, k) == digit);
                    assert forall|j: int| 0 <= j < k implies cell_at(t, j) == cell_at(s, j) by {
                        assert(in_grid(j / 9, j % 9));
                        assert(cell_at(g, j) != 0);
                    }
                    assert(comes_before(t, s));
                },
                _ => {},
            }
        }
    }
}

/// The digit that a solution holds in an empty cell of the grid is one
/// that the basic rules allow there.
proof fn lemma_solution_digit_is_allowed(g: Grid, s: Grid, row: int, col: int)
    requires
        is_grid(g),
        solution_of(s, g),
        in_grid(row, col),
        g[row][col] == 0,
    ensures
        placement_ok(g, row, col, s[row][col]),
{
    let digit: int = s[row][col];
    assert forall|r: int, c: int|
        in_grid(r, c) && shares_unit(row, col, r, c) implies g[r][c]
        != digit by {
        if g[r][c] == digit {
            assert(clash(s, row, col, r, c));
        }
    }
    assert forall|c: int| 0 <= c < 9 implies g[row][c] != digit by {
        assert(in_grid(row, c));
    }
    assert forall|r: int| 0 <= r < 9 implies g[r][col] != digit by {
        assert(in_grid(r, col));
    }
}

/// The basic validator answers every question about a cell of the board.
pub proof fn lemma_basic_answers_in_grid(validator: BasicValidator)
    ensures
        answers_in_grid(&validator),
{
}

/// The search with the basic validator decides whether a well-formed
/// grid without a clash has a solution: it never ends in an error, and it
/// succeeds exactly where a solution exists.
pub proof fn lemma_search_decides_solvability(validator: BasicValidator, g: Grid)
    requires
        well_formed(g),
        conflict_free(g),
    ensures
        search(&validator, g) is Ok,
        search(&validator, g)->Ok_0.1 <==> exists|s: Grid| solution_of(s, g),
        !search(&validator, g)->Ok_0.1 ==> search(&validator, g)->Ok_0.0 == g,
{
    lemma_search_never_fails(&validator, g);
    lemma_failure_keeps_grid(&validator, g);
    lemma_success_is_solution(validator, g);
    match search(&validator, g) {
        Ok((s, true)) => {
            assert(solution_of(s, g));
        },
        _ => {},
    }
    if exists|s: Grid| solution_of(s, g) {
        let s: Grid = choose|s: Grid| solution_of(s, g);
        lemma_finds_first_solution(validator, g, s);
    }
}

/// On a grid with exactly one solution the search with the basic
/// validator yields that solution.
pub proof fn lemma_finds_unique_solution(validator: BasicValidator, g: Grid, s: Grid)
    requires
        is_grid(g),
        solution_of(s, g),
        forall|t: Grid| #[trigger] solution_of(t, g) ==> t == s,
    ensures
        search(&validator, g) == Ok::<(Grid, bool), ErrorMessage>((s, true)),
{
    lemma_finds_first_solution(validator, g, s);
}

/// Column `col` of `g`, from top to bottom.
pub open spec fn column_of(g: Grid, col: int) -> Seq<int> {
    Seq::new(9, |r: int| g[r][col])
}

/// The block of `g` whose top-left corner is `(3 * band, 3 * stack)`, row
/// by row.
pub open spec fn block_of(g: Grid, band: int, stack: int) -> Seq<int> {
    Seq::new(9, |i: int| g[3 * band + i / 3][3 * stack + i % 3])
}

/// In a solved grid every row, every column and every block holds every
/// digit; as no unit holds a digit twice, it holds each exactly once.
pub proof fn lemma_solved_units_hold_every_digit(g: Grid, unit: int, digit: int)
    requires
        solved(g),
        0 <= unit < 9,
        1 <= digit <= 9,
    ensures
        occurs(g[unit], digit),
        occurs(column_of(g, unit), digit),
        occurs(block_of(g, unit / 3, unit % 3), digit),
        distinct(g[unit]),
        distinct(column_of(g, unit)),
        distinct(block_of(g, unit / 3, unit % 3)),
{
    let band: int = unit / 3;
    let stack: int = unit % 3;
    let row: Seq<int> = g[unit];
    let column: Seq<int> = column_of(g, unit);
    let block: Seq<int> = block_of(g, band, stack);
    assert forall|i: int| 0 <= i < 9 implies 1 <= #[trigger] row[i] < 10 by {
        assert(in_grid(unit, i));
    }
    assert forall|i: int| 0 <= i < 9 implies 1 <= #[trigger] column[i] < 10 by {
        assert(in_grid(i, unit));
    }
    assert forall|i: int| 0 <= i < 9 implies 1 <= #[trigger] block[i] < 10 by {
        assert(in_grid(3 * band + i / 3, 3 * stack + i % 3));
    }
    assert forall|i: int, j: int| 0 <= i < j < 9 implies row[i] != row[j] by {
        assert(!clash(g, unit, i, unit, j));
    }
    assert forall|i: int, j: int| 0 <= i < j < 9 implies column[i] != column[j] by {
        assert(!clash(g, i, unit, j, unit));
    }
    assert forall|i: int, j: int| 0 <= i < j < 9 implies block[i] != block[j] by {
        assert(!clash(g, 3 * band + i / 3, 3 * stack + i % 3, 3 * band + j / 3, 3 * stack + j % 3));
    }
    lemma_distinct_covers(row, 1, digit);
    lemma_distinct_covers(column, 1, digit);
    lemma_distinct_covers(block, 1, digit);
}

/// A digit given twice in a row makes the search fail: on a well-formed
/// grid in which two cells of row `row` hold the same digit, and in which
/// filled cells clash in that row only, the search with the basic
/// validator finds no solution and hands the grid back.
///
/// The given cells of the other rows and of the columns have to be free of
/// clashes, because the search never compares two given cells with each
/// other: it completes every grid whose empty cells can be filled one
/// after the other, whatever the given cells repeat.
pub proof fn lemma_repeated_clue_fails(
    validator: BasicValidator,
    g: Grid,
    row: int,
    c1: int,
    c2: int,
)
    requires
        well_formed(g),
        in_grid(row, c1),
        in_grid(row, c2),
        c1 != c2,
        g[row][c1] != 0,
        g[row][c1] == g[row][c2],
        forall|r1: int, k1: int, r2: int, k2: int| #[trigger]
            clash(g, r1, k1, r2, k2) ==> r1 == row && r2 == row,
    ensures
        search(&validator, g) == Ok::<(Grid, bool), ErrorMessage>((g, false)),
{
    lemma_search_never_fails(&validator, g);
    lemma_failure_keeps_grid(&validator, g);
    lemma_success_adds_no_clash(validator, g);
    match search(&validator, g) {
        Ok((t, true)) => {
            // `t` holds digits only, and cells clash in `t` where they
            // clash in `g`.
            lemma_completes_keeps_well_formed(t, g);
            assert forall|r1: int, k1: int, r2: int, k2: int| #[trigger]
                clash(t, r1, k1, r2, k2) implies r1 == row && r2 == row by {
                assert(clash(g, r1, k1, r2, k2));
            }
            // Row `row` holds a digit twice, so it lacks a digit.
            let (a, b) = if c1 < c2 {
                (c1, c2)
            } else {
                (c2, c1)
            };
            assert forall|i: int| 0 <= i < 9 implies 1 <= #[trigger] t[row][i] < 10 by {
                assert(in_grid(row, i));
            }
            let digit: int = lemma_repeat_leaves_gap(t[row], 1, a, b);
            // Every column holds that digit, in another row.
            let rows: Seq<int> = Seq::new(9, |c: int| position_of(column_of(t, c), digit));
            assert forall|c: int| 0 <= c < 9 implies 0 <= #[trigger] rows[c] < 9 && rows[c] != row
                && t[rows[c]][c] == digit by {
                let column: Seq<int> = column_of(t, c);
                assert forall|i: int| 0 <= i < 9 implies 1 <= #[trigger] column[i] < 10 by {
                    assert(in_grid(i, c));
                }
                assert forall|i: int, j: int| 0 <= i < j < 9 implies column[i] != column[j] by {
                    if column[i] == column[j] {
                        assert(clash(t, i, c, j, c));
                    }
                }
                lemma_distinct_covers(column, 1, digit);
            }
            // Nine columns share the eight other rows: two of them hold
            // the digit in one row, where no cells clash.
            let packed: Seq<int> = Seq::new(
                9,
                |c: int|
                    if rows[c] > row {
                        rows[c] - 1
                    } else {
                        rows[c]
                    },
            );
            assert(within(packed, 0, 8));
            lemma_pigeonhole(packed, 8);
            let (i, j) = choose|i: int, j: int| 0 <= i < j < 9 && packed[i] == packed[j];
            assert(clash(t, rows[i], i, rows[j], j));
            assert(false);
        },
        _ => {},
    }
}

} // verus!
