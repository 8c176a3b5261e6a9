//! Types shared by the whole crate, and the text form of a board.

use vstd::prelude::*;
use crate::sudoku::grid::{grid, Grid};

verus! {

/// Side length of the board.
pub const N: usize = 9;

/// A board: nine rows of nine cells. A cell holds `0` when it is empty
/// and a digit `1..=9` when it is filled.
pub type Board = [[i32; N]; N];

/// The one way in which a validator can fail.
#[derive(Debug, Clone, Copy, PartialEq, Eq)]
pub enum ErrorMessage {
    /// A row or column index was not below [`N`].
    OutOfBounds,
}

/// The character of the decimal digit `d`, for `0 <= d <= 9`.
pub open spec fn digit_char(d: int) -> char {
    ('0' as int + d) as char
}

/// The decimal digits of `n`, the most significant first.
pub open spec fn digits(n: nat) -> Seq<char>
    decreases n,
{
    if n < 10 {
        seq![digit_char(n as int)]
    } else {
        digits(n / 10).push(digit_char((n % 10) as int))
    }
}

/// The decimal form of `v`, with a minus sign where `v` is negative.
pub open spec fn number_text(v: int) -> Seq<char> {
    if v < 0 {
        seq!['-'] + digits((-v) as nat)
    } else {
        digits(v as nat)
    }
}

/// What stands before the `k`-th of nine items: `mark` where a new group
/// of three begins, but for the first group.
pub open spec fn separator(k: int, mark: Seq<char>) -> Seq<char> {
    if k % 3 == 0 && k != 0 {
        mark
    } else {
        Seq::empty()
    }
}

/// The text of the first `n` cells of `row`: the numbers one after the
/// other, with a bar between the blocks.
pub open spec fn cells_text(row: Seq<int>, n: nat) -> Seq<char>
    decreases n,
{
    if n == 0 {
        Seq::empty()
    } else {
        cells_text(row, (n - 1) as nat) + separator(n - 1, seq!['|']) + number_text(row[n - 1])
    }
}

/// A line of eleven dashes.
pub open spec fn rule_text() -> Seq<char> {
    Seq::new(11, |i: int| '-').push('\n')
}

/// The text of the first `n` rows of `g`: one line for each row, with a
/// line of dashes between the bands of three rows.
pub open spec fn rows_text(g: Grid, n: nat) -> Seq<char>
    decreases n,
{
    if n == 0 {
        Seq::empty()
    } else {
        rows_text(g, (n - 1) as nat) + separator(n - 1, rule_text()) + cells_text(g[n - 1], 9).push(
            '\n',
        )
    }
}

/// The text of a board: its nine rows, set out in blocks.
pub open spec fn board_text(g: Grid) -> Seq<char> {
    rows_text(g, 9)
}

/// Appends the decimal form of `v` to `text`.
fn push_number(text: &mut Vec<char>, v: i32)
    ensures
        final(text)@ == old(text)@ + number_text(v as int),
{
    let mut rest: i64 = v as i64;
    if rest < 0 {
        text.push('-');
        rest = -rest;
    }
    let ghost start: Seq<char> = text@;
    let ghost whole: nat = rest as nat;
    // The digits come out the least significant first.
    let mut reversed: Vec<char> = Vec::new();
    reversed.push(('0' as u8 + (rest % 10) as u8) as char);
    rest = rest / 10;
    while rest > 0
        invariant
            0 <= rest,
            digits(whole) == (if rest > 0 {
                digits(rest as nat)
            } else {
                Seq::<char>::empty()
            }) + reversed@.reverse(),
        decreases rest,
    {
        reversed.push(('0' as u8 + (rest % 10) as u8) as char);
        rest = rest / 10;
    }
    let mut i: usize = reversed.len();
    while i > 0
        invariant
            i <= reversed.len(),
            text@ == start + reversed@.reverse().subrange(0, reversed.len() - i),
        decreases i,
    {
        i -= 1;
        text.push(reversed[i]);
    }
}

/// The text of `board`, as [`board_text`] lays it out: every row on a
/// line of its own, a bar before the fourth and the seventh column, a line
/// of dashes before the fourth and the seventh row.
pub fn render_board(board: &Board) -> (text: Vec<char>)
    ensures
        text@ == board_text(grid(*board)),
{
    let ghost g: Grid = grid(*board);
    let mut text: Vec<char> = Vec::new();
    for row in 0..N
        invariant
            g == grid(*board),
            text@ == rows_text(g, row as nat),
    {
        if row % 3 == 0 && row != 0 {
            let mut dash: usize = 0;
            while dash < 11
                invariant
                    dash <= 11,
                    text@ == rows_text(g, row as nat) + Seq::new(dash as nat, |i: int| '-'),
                decreases 11 - dash,
            {
                text.push('-');
                dash += 1;
            }
            text.push('\n');
        }
        let ghost before: Seq<char> = text@;
        for col in 0..N
            invariant
                row < N,
                g == grid(*board),
                text@ == before + cells_text(g[row as int], col as nat),
        {
            if col % 3 == 0 && col != 0 {
                text.push('|');
            }
            push_number(&mut text, board[row][col]);
        }
        text.push('\n');
    }
    text
}

} // verus!
