use sudoku_resolver_rust::helpers::{render_board, Board};

fn text_of(board: &Board) -> String {
    render_board(board).into_iter().collect()
}

#[test]
fn a_board_is_set_out_in_blocks() {
    let board: Board = [
        [3, 0, 6, 5, 0, 8, 4, 0, 0],
        [5, 2, 0, 0, 0, 0, 0, 0, 0],
        [0, 8, 7, 0, 0, 0, 0, 3, 1],
        [0, 0, 3, 0, 1, 0, 0, 8, 0],
        [9, 0, 0, 8, 6, 3, 0, 0, 5],
        [0, 5, 0, 0, 9, 0, 6, 0, 0],
        [1, 3, 0, 0, 0, 0, 2, 5, 0],
        [0, 0, 0, 0, 0, 0, 7, 4, 0],
        [0, 0, 5, 2, 0, 6, 3, 0, 0],
    ];
    let expected = "306|508|400\n\
                    520|000|000\n\
                    087|000|031\n\
                    -----------\n\
                    003|010|080\n\
                    900|863|005\n\
                    050|090|600\n\
                    -----------\n\
                    130|000|250\n\
                    000|000|740\n\
                    005|206|300\n";
    assert_eq!(text_of(&board), expected);
}

#[test]
fn the_empty_board_is_all_zeros() {
    let board: Board = [[0; 9]; 9];
    let line = "000|000|000\n";
    let rule = "-----------\n";
    let expected = format!("{0}{0}{0}{1}{0}{0}{0}{1}{0}{0}{0}", line, rule);
    assert_eq!(text_of(&board), expected);
    assert_eq!(text_of(&board).len(), 9 * 12 + 2 * 12);
}

#[test]
fn numbers_are_written_in_decimal() {
    let mut board: Board = [[7; 9]; 9];
    board[0] = [0, 9, 10, 99, 100, -1, -10, i32::MAX, i32::MIN];
    let text = text_of(&board);
    let first_line = text.lines().next().unwrap();
    assert_eq!(first_line, "0910|99100-1|-102147483647-2147483648");
    let values = [0, 5, 9, 10, 11, 19, 20, 101, 1000, 65536, -1, -9, -10, -1234, i32::MAX, i32::MIN];
    for value in values {
        let board: Board = [[value; 9]; 9];
        let cell = format!("{}", value);
        let line = format!("{0}{0}{0}|{0}{0}{0}|{0}{0}{0}", cell);
        assert_eq!(text_of(&board).lines().nth(4), Some(line.as_str()));
    }
}
