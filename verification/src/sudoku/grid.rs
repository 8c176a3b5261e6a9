//! The mathematical model of a board and the vocabulary used to talk
//! about it: cells in reading order, placements, peers and legality.

use vstd::prelude::*;
use crate::helpers::Board;

verus! {

/// The model of a board: a sequence of nine rows, each a sequence of nine
/// integers.
pub type Grid = Seq<Seq<int>>;

/// The grid that a board stands for.
pub open spec fn grid(board: Board) -> Grid {
    Seq::new(9, |r: int| Seq::new(9, |c: int| board[r][c] as int))
}

/// `g` has nine rows of nine cells.
pub open spec fn is_grid(g: Grid) -> bool {
    &&& g.len() == 9
    &&& forall|r: int| 0 <= r < 9 ==> (#[trigger] g[r]).len() == 9
}

/// `(row, col)` addresses a cell.
pub open spec fn in_grid(row: int, col: int) -> bool {
    0 <= row < 9 && 0 <= col < 9
}

/// The grid `g` with `value` written into the cell `(row, col)`.
pub open spec fn place(g: Grid, row: int, col: int, value: int) -> Grid {
    g.update(row, g[row].update(col, value))
}

/// The content of the `k`-th cell in reading order (row by row, left to
/// right), for `0 <= k < 81`.
pub open spec fn cell_at(g: Grid, k: int) -> int {
    g[k / 9][k % 9]
}

/// The position, in reading order, of the first empty cell at or after
/// position `k`; `81` when there is none.
pub open spec fn first_empty_from(g: Grid, k: int) -> int
    decreases 81 - k,
{
    if k >= 81 {
        81
    } else if k >= 0 && cell_at(g, k) == 0 {
        k
    } else {
        first_empty_from(g, k + 1)
    }
}

/// The position, in reading order, of the first empty cell of `g`; `81`
/// when `g` has no empty cell.
pub open spec fn first_empty(g: Grid) -> int {
    first_empty_from(g, 0)
}

/// No cell of `g` is empty.
pub open spec fn complete(g: Grid) -> bool {
    forall|r: int, c: int| in_grid(r, c) ==> g[r][c] != 0
}

/// Every cell of `g` is empty or holds a digit.
pub open spec fn well_formed(g: Grid) -> bool {
    &&& is_grid(g)
    &&& forall|r: int, c: int| in_grid(r, c) ==> 0 <= #[trigger] g[r][c] <= 9
}

/// The cells `(r1, c1)` and `(r2, c2)` lie in a common row, column or
/// 3×3 block. Every cell shares its units with itself.
pub open spec fn shares_unit(r1: int, c1: int, r2: int, c2: int) -> bool {
    r1 == r2 || c1 == c2 || (r1 / 3 == r2 / 3 && c1 / 3 == c2 / 3)
}

/// Two different cells of a common unit hold the same digit.
pub open spec fn clash(g: Grid, r1: int, c1: int, r2: int, c2: int) -> bool {
    &&& in_grid(r1, c1)
    &&& in_grid(r2, c2)
    &&& (r1 != r2 || c1 != c2)
    &&& shares_unit(r1, c1, r2, c2)
    &&& g[r1][c1] != 0
    &&& g[r1][c1] == g[r2][c2]
}

/// No digit occurs twice in a row, a column or a block of `g`.
pub open spec fn conflict_free(g: Grid) -> bool {
    forall|r1: int, c1: int, r2: int, c2: int| !clash(g, r1, c1, r2, c2)
}

/// A solved board: every cell holds a digit and no unit holds a digit
/// twice.
pub open spec fn solved(g: Grid) -> bool {
    &&& well_formed(g)
    &&& complete(g)
    &&& conflict_free(g)
}

/// `s` keeps every filled cell of `g`.
pub open spec fn extends(s: Grid, g: Grid) -> bool {
    forall|r: int, c: int| in_grid(r, c) && g[r][c] != 0 ==> s[r][c] == g[r][c]
}

/// The grid of a board has the shape of a grid.
pub proof fn lemma_grid_shape(board: Board)
    ensures
        is_grid(grid(board)),
        forall|r: int, c: int| in_grid(r, c) ==> grid(board)[r][c] == board[r][c],
{
}

/// Two boards with the same grid are the same board.
pub proof fn lemma_grid_injective(a: Board, b: Board)
    requires
        grid(a) == grid(b),
    ensures
        a == b,
{
    assert forall|r: int| 0 <= r < 9 implies a[r] == b[r] by {
        assert forall|c: int| 0 <= c < 9 implies a[r][c] == b[r][c] by {
            assert(grid(b)[r][c] == b[r][c]);
        }
    }
}

/// What a placement changes: the addressed cell, and nothing else.
pub proof fn lemma_place(g: Grid, row: int, col: int, value: int)
    requires
        is_grid(g),
        in_grid(row, col),
    ensures
        is_grid(place(g, row, col, value)),
        place(g, row, col, value)[row][col] == value,
        forall|r: int, c: int|
            in_grid(r, c) && (r != row || c != col) ==> #[trigger] place(g, row, col, value)[r][c]
                == g[r][c],
{
}

/// What [`first_empty_from`] finds: the cells from `k` up to the result are
/// filled, and the result, when it is a position, is an empty cell.
pub proof fn lemma_first_empty_from(g: Grid, k: int)
    requires
        0 <= k <= 81,
    ensures
        k <= first_empty_from(g, k) <= 81,
        forall|j: int| k <= j < first_empty_from(g, k) ==> cell_at(g, j) != 0,
        first_empty_from(g, k) < 81 ==> cell_at(g, first_empty_from(g, k)) == 0,
    decreases 81 - k,
{
    if k < 81 && cell_at(g, k) != 0 {
        lemma_first_empty_from(g, k + 1);
    }
}

/// The first empty cell is the only position that is empty and preceded
/// by filled cells only.
pub proof fn lemma_first_empty_is(g: Grid, k: int)
    requires
        0 <= k <= 81,
        forall|j: int| 0 <= j < k ==> cell_at(g, j) != 0,
        k < 81 ==> cell_at(g, k) == 0,
    ensures
        first_empty(g) == k,
{
    lemma_first_empty_from(g, 0);
}

/// A grid is complete exactly when it has no first empty cell.
pub proof fn lemma_complete_iff_no_empty(g: Grid)
    ensures
        complete(g) <==> first_empty(g) == 81,
{
    lemma_first_empty_from(g, 0);
    if complete(g) {
        assert forall|j: int| 0 <= j < 81 implies cell_at(g, j) != 0 by {
            assert(in_grid(j / 9, j % 9));
        }
    }
    if first_empty(g) == 81 {
        assert forall|r: int, c: int| in_grid(r, c) implies g[r][c] != 0 by {
            assert(cell_at(g, 9 * r + c) == g[r][c]);
        }
    }
}

/// Filling the first empty cell moves the first empty cell forward.
pub proof fn lemma_fill_advances(g: Grid, value: int)
    requires
        is_grid(g),
        first_empty(g) < 81,
        value != 0,
    ensures
        first_empty(g) < first_empty(place(g, first_empty(g) / 9, first_empty(g) % 9, value)) <= 81,
{
    let k: int = first_empty(g);
    let filled: Grid = place(g, k / 9, k % 9, value);
    lemma_first_empty_from(g, 0);
    lemma_first_empty_from(filled, 0);
    lemma_place(g, k / 9, k % 9, value);
    // No cell up to position `k` is empty in `filled`.
    assert forall|j: int| 0 <= j <= k implies cell_at(filled, j) != 0 by {
        if j < k {
            assert(cell_at(g, j) != 0);
        }
    }
}

} // verus!
