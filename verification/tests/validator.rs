use sudoku_resolver_rust::helpers::{Board, ErrorMessage};
use sudoku_resolver_rust::sudoku::validator::{BasicValidator, Validator};

fn puzzle() -> Board {
    [
        [3, 0, 6, 5, 0, 8, 4, 0, 0],
        [5, 2, 0, 0, 0, 0, 0, 0, 0],
        [0, 8, 7, 0, 0, 0, 0, 3, 1],
        [0, 0, 3, 0, 1, 0, 0, 8, 0],
        [9, 0, 0, 8, 6, 3, 0, 0, 5],
        [0, 5, 0, 0, 9, 0, 6, 0, 0],
        [1, 3, 0, 0, 0, 0, 2, 5, 0],
        [0, 0, 0, 0, 0, 0, 7, 4, 0],
        [0, 0, 5, 2, 0, 6, 3, 0, 0],
    ]
}

fn solution() -> Board {
    [
        [3, 1, 6, 5, 7, 8, 4, 9, 2],
        [5, 2, 9, 1, 3, 4, 8, 6, 7],
        [4, 8, 7, 6, 2, 9, 5, 3, 1],
        [2, 6, 3, 7, 1, 5, 9, 8, 4],
        [9, 7, 4, 8, 6, 3, 1, 2, 5],
        [8, 5, 1, 4, 9, 2, 6, 7, 3],
        [1, 3, 8, 9, 4, 7, 2, 5, 6],
        [6, 9, 2, 3, 5, 1, 7, 4, 8],
        [7, 4, 5, 2, 8, 6, 3, 1, 9],
    ]
}

fn share_a_unit(r1: usize, c1: usize, r2: usize, c2: usize) -> bool {
    r1 == r2 || c1 == c2 || (r1 / 3 == r2 / 3 && c1 / 3 == c2 / 3)
}

#[test]
fn line_check_sees_the_whole_row() {
    let v = BasicValidator {};
    let b = puzzle();
    assert_eq!(v.is_valid_line(&b, 0, 3), Ok(false));
    assert_eq!(v.is_valid_line(&b, 0, 4), Ok(false));
    assert_eq!(v.is_valid_line(&b, 0, 1), Ok(true));
    assert_eq!(v.is_valid_line(&b, 8, 3), Ok(false));
    assert_eq!(v.is_valid_line(&b, 8, 9), Ok(true));
    assert_eq!(v.is_valid_line(&b, 7, 0), Ok(false));
}

#[test]
fn line_check_rejects_a_row_outside_the_board() {
    let v = BasicValidator {};
    let b = puzzle();
    assert_eq!(v.is_valid_line(&b, 9, 1), Err(ErrorMessage::OutOfBounds));
    assert_eq!(v.is_valid_line(&b, usize::MAX, 1), Err(ErrorMessage::OutOfBounds));
}

#[test]
fn column_check_sees_the_whole_column() {
    let v = BasicValidator {};
    let b = puzzle();
    assert_eq!(v.is_valid_column(&b, 0, 3), Ok(false));
    assert_eq!(v.is_valid_column(&b, 0, 1), Ok(false));
    assert_eq!(v.is_valid_column(&b, 0, 2), Ok(true));
    assert_eq!(v.is_valid_column(&b, 8, 5), Ok(false));
    assert_eq!(v.is_valid_column(&b, 8, 9), Ok(true));
    assert_eq!(v.is_valid_column(&b, 4, 0), Ok(false));
}

#[test]
fn column_check_rejects_a_column_outside_the_board() {
    let v = BasicValidator {};
    let b = puzzle();
    assert_eq!(v.is_valid_column(&b, 9, 1), Err(ErrorMessage::OutOfBounds));
    assert_eq!(v.is_valid_column(&b, 100, 1), Err(ErrorMessage::OutOfBounds));
}

#[test]
fn block_check_sees_exactly_one_block() {
    let v = BasicValidator {};
    let b = puzzle();
    // the top-left block holds 3, 6, 5, 2, 8, 7
    for (row, col) in [(0, 0), (1, 1), (2, 2), (0, 2), (2, 0)] {
        assert!(!v.is_valid_bloc(&b, row, col, 3));
        assert!(!v.is_valid_bloc(&b, row, col, 7));
        assert!(v.is_valid_bloc(&b, row, col, 1));
        assert!(v.is_valid_bloc(&b, row, col, 4));
        assert!(v.is_valid_bloc(&b, row, col, 9));
        assert!(!v.is_valid_bloc(&b, row, col, 0));
    }
    // the bottom-right block holds 2, 5, 7, 4, 3
    assert!(!v.is_valid_bloc(&b, 8, 8, 2));
    assert!(!v.is_valid_bloc(&b, 6, 6, 3));
    assert!(v.is_valid_bloc(&b, 7, 7, 1));
    assert!(v.is_valid_bloc(&b, 8, 8, 6));
    // 1 sits at (2, 8): the block to its left does not see it
    assert!(v.is_valid_bloc(&b, 2, 5, 1));
    assert!(!v.is_valid_bloc(&b, 2, 6, 1));
}

#[test]
fn a_free_digit_is_valid() {
    let v = BasicValidator {};
    let b = puzzle();
    assert_eq!(v.is_valid(&b, 0, 1, 1), Ok(true));
    assert_eq!(v.is_valid(&b, 0, 1, 9), Ok(true));
    assert_eq!(v.is_valid(&b, 8, 8, 9), Ok(true));
}

#[test]
fn a_digit_of_the_row_column_or_block_is_not_valid() {
    let v = BasicValidator {};
    let b = puzzle();
    // 4 is in row 0 only
    assert_eq!(v.is_valid(&b, 0, 1, 4), Ok(false));
    // 5 is in column 1 only, as seen from (0, 1): row 0 holds a 5 too
    assert_eq!(v.is_valid(&b, 3, 1, 5), Ok(false));
    // 7 is in the top-left block only
    assert_eq!(v.is_valid(&b, 0, 1, 7), Ok(false));
    // every candidate is tried on an empty cell, which holds 0
    assert_eq!(v.is_valid(&b, 0, 1, 0), Ok(false));
}

#[test]
fn a_cell_counts_against_its_own_value() {
    let v = BasicValidator {};
    let b = puzzle();
    assert_eq!(v.is_valid(&b, 0, 0, 3), Ok(false));
    let s = solution();
    for row in 0..9 {
        for col in 0..9 {
            assert_eq!(v.is_valid(&s, row, col, s[row][col]), Ok(false));
        }
    }
}

#[test]
fn no_digit_of_a_solved_board_fits_at_a_peer() {
    let v = BasicValidator {};
    let s = solution();
    for r in 0..9 {
        for c in 0..9 {
            for row in 0..9 {
                for col in 0..9 {
                    if (row, col) != (r, c) && share_a_unit(r, c, row, col) {
                        assert_eq!(v.is_valid(&s, row, col, s[r][c]), Ok(false));
                    }
                }
            }
        }
    }
}

#[test]
fn no_clue_fits_at_a_peer_before_it_is_filled() {
    let v = BasicValidator {};
    let b = puzzle();
    for r in 0..9 {
        for c in 0..9 {
            if b[r][c] == 0 {
                continue;
            }
            for row in 0..9 {
                for col in 0..9 {
                    if share_a_unit(r, c, row, col) {
                        assert_eq!(v.is_valid(&b, row, col, b[r][c]), Ok(false));
                    }
                }
            }
        }
    }
}

#[test]
fn row_nine_is_out_of_bounds() {
    let v = BasicValidator {};
    let b = puzzle();
    for col in 0..9 {
        for value in 0..=9 {
            assert_eq!(v.is_valid(&b, 9, col, value), Err(ErrorMessage::OutOfBounds));
        }
    }
}

#[test]
fn column_nine_is_out_of_bounds() {
    let v = BasicValidator {};
    let b = puzzle();
    for row in 0..9 {
        for value in 0..=9 {
            assert_eq!(v.is_valid(&b, row, 9, value), Err(ErrorMessage::OutOfBounds));
        }
    }
}

#[test]
fn out_of_bounds_wins_over_a_digit_found_in_the_row() {
    let v = BasicValidator {};
    let b = puzzle();
    // row 0 holds a 3, and still column 9 is reported
    assert_eq!(v.is_valid(&b, 0, 9, 3), Err(ErrorMessage::OutOfBounds));
    assert_eq!(v.is_valid(&b, 9, 9, 3), Err(ErrorMessage::OutOfBounds));
    assert_eq!(v.is_valid(&b, usize::MAX, usize::MAX, 1), Err(ErrorMessage::OutOfBounds));
}

#[test]
fn the_validator_leaves_the_board_alone() {
    let v = BasicValidator {};
    let b = puzzle();
    let first = v.is_valid(&b, 4, 4, 7);
    let second = v.is_valid(&b, 4, 4, 7);
    assert_eq!(first, second);
    assert_eq!(b, puzzle());
}

#[test]
fn values_outside_the_digits_are_compared_like_any_other() {
    let v = BasicValidator {};
    let mut b = puzzle();
    b[4][4] = -7;
    assert_eq!(v.is_valid(&b, 4, 1, -7), Ok(false));
    assert_eq!(v.is_valid(&b, 1, 4, -7), Ok(false));
    assert_eq!(v.is_valid(&b, 3, 3, -7), Ok(false));
    assert_eq!(v.is_valid(&b, 0, 0, -7), Ok(true));
    assert_eq!(v.is_valid(&b, 0, 1, 12), Ok(true));
}
