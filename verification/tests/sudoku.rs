use sudoku_solver::{Board, Cell};

fn sample_board() -> Board {
    Board::from([
        [7, 0, 2, 0, 5, 0, 6, 0, 0],
        [0, 0, 0, 0, 0, 3, 0, 0, 0],
        [1, 0, 0, 0, 0, 9, 5, 0, 0],
        [8, 0, 0, 0, 0, 0, 0, 9, 0],
        [0, 4, 3, 0, 0, 0, 7, 5, 0],
        [0, 9, 0, 0, 0, 0, 0, 0, 8],
        [0, 0, 9, 7, 0, 0, 0, 0, 5],
        [0, 0, 0, 2, 0, 0, 0, 0, 0],
        [0, 0, 7, 0, 4, 0, 2, 0, 3],
    ])
}

fn render(board: &Board) -> String {
    let mut out = String::new();
    for i in 0..9 {
        for j in 0..9 {
            match board.get(i, j) {
                Cell::Empty => out.push('.'),
                Cell::Fixed(d) => out.push((b'0' + d) as char),
                Cell::Derived(d) => out.push((b'0' + d) as char),
            }
        }
        out.push('\n');
    }
    out
}

#[test]
fn fill_board() {
    let board = Board::from([[0; 9]; 9]);
    assert_eq!(board, Board::new());
}

#[test]
fn in_row_validation_works() {
    let sample = sample_board();
    assert_eq!(sample.is_number_in_row(7, 0), true);
    assert_eq!(sample.is_number_in_row(7, 8), true);
    assert_eq!(sample.is_number_in_row(9, 8), false);
}

#[test]
fn in_column_validation_works() {
    let sample = sample_board();
    assert_eq!(sample.is_number_in_column(9, 1), true);
    assert_eq!(sample.is_number_in_column(8, 1), false);
    assert_eq!(sample.is_number_in_column(5, 7), true);
    assert_eq!(sample.is_number_in_column(8, 7), false);
}

#[test]
fn in_box_validation_works() {
    let sample = sample_board();
    assert_eq!(sample.is_number_in_box(7, 1, 1), true);
    assert_eq!(sample.is_number_in_box(8, 1, 1), false);
    assert_eq!(sample.is_number_in_box(5, 8, 8), true);
    assert_eq!(sample.is_number_in_box(1, 8, 8), false);
}

#[test]
fn display_test() {
    let board = sample_board();
    println!("{}", render(&board));
}

#[test]
fn solve_works() {
    let mut board: Board = Board::from([
        [0, 1, 0, 0, 0, 0, 0, 0, 0],
        [0, 0, 0, 0, 0, 7, 2, 0, 0],
        [5, 0, 8, 9, 0, 0, 0, 0, 4],
        [0, 0, 0, 0, 9, 0, 0, 5, 0],
        [4, 0, 6, 5, 0, 0, 0, 0, 8],
        [3, 0, 0, 0, 0, 0, 0, 0, 0],
        [0, 3, 0, 6, 0, 0, 0, 0, 0],
        [6, 0, 1, 0, 2, 0, 4, 0, 0],
        [0, 9, 0, 0, 0, 0, 0, 0, 1],
    ]);
    println!("{}\n---------\n", render(&board));
    if board.solve() {
        println!("{}", render(&board));
    } else {
        println!("Board could not be solved!");
    }
}

#[test]
fn from_str_works() {
    let board = Board::from_str([
        "702050600",
        "000003000",
        "100009500",
        "800000090",
        "043000750",
        "090000008",
        "009700005",
        "000200000",
        "007040203",
    ]);
    assert_eq!(board, sample_board());
}
