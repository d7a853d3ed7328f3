//! The board itself: a 9x9 array of cells, its constructors and its
//! constraint queries.

use vstd::prelude::*;
use crate::cell::{Cell, cell_holds, cell_is_empty, cell_of_digit, cell_of_char, is_digit_char};
use crate::grid::{grid_wf, grid_in_range, in_row, in_col, in_box_first, valid_at, box_base, box_cell};

verus! {

broadcast use vstd::array::group_array_axioms;

/// A 9x9 Sudoku board. Viewed as a sequence of nine rows of nine cells.
#[derive(Debug)]
pub struct Board {
    cells: [[Cell; 9]; 9],
}

impl View for Board {
    type V = Seq<Seq<Cell>>;

    closed spec fn view(&self) -> Seq<Seq<Cell>> {
        Seq::new(9, |i: int| self.cells@[i]@)
    }
}

impl Board {
    /// A board's view is always a well-shaped grid.
    pub proof fn lemma_view_wf(&self)
        ensures
            grid_wf(self@),
    {
    }

    /// A board with all 81 cells empty. No digit is found in any row,
    /// column or box of it.
    pub fn new() -> (board: Self)
        ensures
            forall|i: int, j: int|
                0 <= i < 9 && 0 <= j < 9 ==> #[trigger] board@[i][j] == Cell::Empty,
            forall|n: u8, r: int| 0 <= r < 9 ==> !in_row(board@, n, r),
            forall|n: u8, c: int| 0 <= c < 9 ==> !in_col(board@, n, c),
            forall|n: u8, r: int, c: int|
                0 <= r < 9 && 0 <= c < 9 ==> !in_box_first(board@, n, r, c),
            grid_in_range(board@),
    {
        let board = Board { cells: [[Cell::Empty; 9]; 9] };
        proof {
            assert forall|n: u8, r: int, c: int|
                0 <= r < 9 && 0 <= c < 9 implies !in_box_first(board@, n, r, c) by {
                assert forall|k: int| 0 <= k < 9 implies cell_is_empty(
                    #[trigger] box_cell(board@, r, c, k),
                ) by {
                    assert(0 <= box_base(r) + k / 3 < 9);
                    assert(0 <= box_base(c) + k % 3 < 9);
                    assert(board@[box_base(r) + k / 3][box_base(c) + k % 3] == Cell::Empty);
                }
            }
        }
        board
    }

    /// The cell at `(row, column)`.
    pub fn get(&self, row: usize, column: usize) -> (c: Cell)
        requires
            row < 9,
            column < 9,
        ensures
            c == self@[row as int][column as int],
    {
        self.cells[row][column]
    }

    /// Replaces the cell at `(row, column)`.
    pub(crate) fn set_cell(&mut self, row: usize, column: usize, v: Cell)
        requires
            row < 9,
            column < 9,
        ensures
            final(self)@ == old(self)@.update(
                row as int,
                old(self)@[row as int].update(column as int, v),
            ),
    {
        let mut r: [Cell; 9] = self.cells[row];
        r[column] = v;
        self.cells[row] = r;
        proof {
            assert(final(self)@ =~~= old(self)@.update(
                row as int,
                old(self)@[row as int].update(column as int, v),
            ));
        }
    }

    /// A board taken from a grid of numbers: `1..=9` becomes a given
    /// digit, `0` and every out-of-range value an empty cell.
    pub fn from(input: [[u8; 9]; 9]) -> (board: Self)
        ensures
            forall|i: int, j: int|
                0 <= i < 9 && 0 <= j < 9 ==> #[trigger] board@[i][j] == cell_of_digit(
                    input@[i]@[j],
                ),
            grid_in_range(board@),
    {
        let mut board = Board::new();
        let mut i: usize = 0;
        while i < 9
            invariant
                i <= 9,
                forall|a: int, b: int|
                    0 <= a < i && 0 <= b < 9 ==> #[trigger] board@[a][b] == cell_of_digit(
                        input@[a]@[b],
                    ),
                forall|a: int, b: int|
                    i <= a < 9 && 0 <= b < 9 ==> #[trigger] board@[a][b] == Cell::Empty,
            decreases 9 - i,
        {
            let mut j: usize = 0;
            while j < 9
                invariant
                    i < 9,
                    j <= 9,
                    forall|a: int, b: int|
                        0 <= a < i && 0 <= b < 9 ==> #[trigger] board@[a][b] == cell_of_digit(
                            input@[a]@[b],
                        ),
                    forall|b: int|
                        0 <= b < j ==> #[trigger] board@[i as int][b] == cell_of_digit(
                            input@[i as int]@[b],
                        ),
                    forall|a: int, b: int|
                        i < a < 9 && 0 <= b < 9 ==> #[trigger] board@[a][b] == Cell::Empty,
                    forall|b: int|
                        j <= b < 9 ==> #[trigger] board@[i as int][b] == Cell::Empty,
                decreases 9 - j,
            {
                let d = input[i][j];
                let c = if 1 <= d && d <= 9 {
                    Cell::Fixed(d)
                } else {
                    Cell::Empty
                };
                board.set_cell(i, j, c);
                j = j + 1;
            }
            i = i + 1;
        }
        board
    }

    /// A board taken from nine rows of nine decimal digit characters:
    /// `'1'` through `'9'` becomes a given digit, `'0'` an empty cell.
    /// A row holding anything but decimal digits is not accepted.
    pub fn from_str(input: [&str; 9]) -> (board: Self)
        requires
            forall|i: int| 0 <= i < 9 ==> (#[trigger] input@[i])@.len() == 9,
            forall|i: int, j: int|
                0 <= i < 9 && 0 <= j < 9 ==> is_digit_char(#[trigger] input@[i]@[j]),
        ensures
            forall|i: int, j: int|
                0 <= i < 9 && 0 <= j < 9 ==> #[trigger] board@[i][j] == cell_of_char(
                    input@[i]@[j],
                ),
            grid_in_range(board@),
    {
        let mut board = Board::new();
        let mut i: usize = 0;
        while i < 9
            invariant
                i <= 9,
                forall|a: int| 0 <= a < 9 ==> (#[trigger] input@[a])@.len() == 9,
                forall|a: int, b: int|
                    0 <= a < 9 && 0 <= b < 9 ==> is_digit_char(#[trigger] input@[a]@[b]),
                forall|a: int, b: int|
                    0 <= a < i && 0 <= b < 9 ==> #[trigger] board@[a][b] == cell_of_char(
                        input@[a]@[b],
                    ),
            decreases 9 - i,
        {
            let s: &str = input[i];
            let mut j: usize = 0;
            while j < 9
                invariant
                    i < 9,
                    j <= 9,
                    s == input@[i as int],
                    s@.len() == 9,
                    forall|b: int| 0 <= b < 9 ==> is_digit_char(#[trigger] s@[b]),
                    forall|a: int, b: int|
                        0 <= a < i && 0 <= b < 9 ==> #[trigger] board@[a][b] == cell_of_char(
                            input@[a]@[b],
                        ),
                    forall|b: int|
                        0 <= b < j ==> #[trigger] board@[i as int][b] == cell_of_char(
                            input@[i as int]@[b],
                        ),
                decreases 9 - j,
            {
                let ch: char = s.get_char(j);
                let code: u32 = ch as u32;
                let c = if 49 <= code && code <= 57 {
                    Cell::Fixed((code - 48) as u8)
                } else {
                    Cell::Empty
                };
                proof {
                    assert(c == cell_of_char(input@[i as int]@[j as int]));
                }
                board.set_cell(i, j, c);
                j = j + 1;
            }
            i = i + 1;
        }
        board
    }

    /// Whether `number` already stands somewhere in row `row`; the whole
    /// row is scanned, and empty cells never match.
    pub fn is_number_in_row(&self, number: u8, row: u8) -> (r: bool)
        requires
            row < 9,
        ensures
            r == in_row(self@, number, row as int),
    {
        let mut i: usize = 0;
        while i < 9
            invariant
                i <= 9,
                row < 9,
                forall|j: int| 0 <= j < i ==> !cell_holds(#[trigger] self@[row as int][j], number),
            decreases 9 - i,
        {
            match self.cells[row as usize][i] {
                Cell::Fixed(n) | Cell::Derived(n) => {
                    if n == number {
                        proof {
                            assert(cell_holds(self@[row as int][i as int], number));
                        }
                        return true;
                    }
                },
                _ => {},
            }
            i = i + 1;
        }
        false
    }

    /// Whether `number` already stands somewhere in column `column`; the
    /// whole column is scanned, and empty cells never match.
    pub fn is_number_in_column(&self, number: u8, column: u8) -> (r: bool)
        requires
            column < 9,
        ensures
            r == in_col(self@, number, column as int),
    {
        let mut i: usize = 0;
        while i < 9
            invariant
                i <= 9,
                column < 9,
                forall|j: int| 0 <= j < i ==> !cell_holds(#[trigger] self@[j][column as int], number),
            decreases 9 - i,
        {
            match self.cells[i][column as usize] {
                Cell::Fixed(n) | Cell::Derived(n) => {
                    if n == number {
                        proof {
                            assert(cell_holds(self@[i as int][column as int], number));
                        }
                        return true;
                    }
                },
                _ => {},
            }
            i = i + 1;
        }
        false
    }

    /// Whether the 3x3 box containing `(row, column)` reports `number`.
    /// The scan stops at the first non-empty cell of the box, in
    /// row-major order, and matches only against that one cell; a digit
    /// in a later cell of the box is never seen.
    pub fn is_number_in_box(&self, number: u8, row: u8, column: u8) -> (r: bool)
        requires
            row < 9,
            column < 9,
        ensures
            r == in_box_first(self@, number, row as int, column as int),
    {
        let base_r: usize = (row - row % 3) as usize;
        let base_c: usize = (column - column % 3) as usize;
        proof {
            assert(base_r as int == box_base(row as int));
            assert(base_c as int == box_base(column as int));
        }
        let mut k: usize = 0;
        while k < 9
            invariant
                k <= 9,
                row < 9,
                column < 9,
                base_r as int == box_base(row as int),
                base_c as int == box_base(column as int),
                base_r <= 6,
                base_c <= 6,
                forall|j: int|
                    0 <= j < k ==> cell_is_empty(
                        #[trigger] box_cell(self@, row as int, column as int, j),
                    ),
            decreases 9 - k,
        {
            let i: usize = base_r + k / 3;
            let j: usize = base_c + k % 3;
            proof {
                assert(self@[i as int][j as int] == box_cell(
                    self@,
                    row as int,
                    column as int,
                    k as int,
                ));
            }
            match self.cells[i][j] {
                Cell::Fixed(n) | Cell::Derived(n) => {
                    proof {
                        if n != number {
                            assert forall|k2: int|
                                0 <= k2 < 9 && !cell_is_empty(
                                    #[trigger] box_cell(self@, row as int, column as int, k2),
                                ) && (forall|j2: int|
                                    0 <= j2 < k2 ==> cell_is_empty(
                                        #[trigger] box_cell(self@, row as int, column as int, j2),
                                    )) implies !cell_holds(
                                box_cell(self@, row as int, column as int, k2),
                                number,
                            ) by {
                                if k2 < k as int {
                                    assert(cell_is_empty(
                                        box_cell(self@, row as int, column as int, k2),
                                    ));
                                } else if k2 > k as int {
                                    assert(cell_is_empty(
                                        box_cell(self@, row as int, column as int, k as int),
                                    ));
                                }
                            }
                        }
                    }
                    return n == number;
                },
                _ => {},
            }
            k = k + 1;
        }
        false
    }

    /// The admissibility gate of the search: `number` may go to
    /// `(row, column)` when the row scan, the column scan and the
    /// first-match box scan all fail to find it.
    pub fn is_valid_placement(&self, number: u8, row: u8, column: u8) -> (r: bool)
        requires
            row < 9,
            column < 9,
        ensures
            r == valid_at(self@, number, row as int, column as int),
    {
        !self.is_number_in_row(number, row) && !self.is_number_in_column(number, column)
            && !self.is_number_in_box(number, row, column)
    }
}

impl PartialEq for Board {
    /// Two boards are equal when every position agrees on both the
    /// variant and the digit of its cell.
    fn eq(&self, other: &Self) -> (r: bool) {
        let mut i: usize = 0;
        while i < 9
            invariant
                i <= 9,
                forall|a: int, b: int|
                    0 <= a < i && 0 <= b < 9 ==> #[trigger] self@[a][b] == other@[a][b],
            decreases 9 - i,
        {
            let mut j: usize = 0;
            while j < 9
                invariant
                    i < 9,
                    j <= 9,
                    forall|a: int, b: int|
                        0 <= a < i && 0 <= b < 9 ==> #[trigger] self@[a][b] == other@[a][b],
                    forall|b: int|
                        0 <= b < j ==> #[trigger] self@[i as int][b] == other@[i as int][b],
                decreases 9 - j,
            {
                if self.cells[i][j] != other.cells[i][j] {
                    proof {
                        assert(self@[i as int][j as int] != other@[i as int][j as int]);
                        assert(self@ != other@);
                    }
                    return false;
                }
                j = j + 1;
            }
            i = i + 1;
        }
        proof {
            assert forall|a: int| 0 <= a < 9 implies self@[a] =~= other@[a] by {
                assert(forall|b: int| 0 <= b < 9 ==> #[trigger] self@[a][b] == other@[a][b]);
            }
            assert(self@ =~~= other@);
        }
        true
    }
}

impl vstd::std_specs::cmp::PartialEqSpecImpl for Board {
    open spec fn obeys_eq_spec() -> bool {
        true
    }

    open spec fn eq_spec(&self, other: &Board) -> bool {
        self@ == other@
    }
}

} // verus!
