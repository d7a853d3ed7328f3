//! The mathematical model of a Sudoku grid: a sequence of nine rows of
//! nine cells, together with the membership and consistency predicates
//! that the board's contracts are stated over.

use vstd::prelude::*;
use crate::cell::{Cell, cell_holds, cell_is_empty, cell_in_range, cell_digit};

verus! {

/// A well-shaped grid: nine rows of nine cells each.
pub open spec fn grid_wf(g: Seq<Seq<Cell>>) -> bool {
    g.len() == 9 && forall|i: int| 0 <= i < 9 ==> (#[trigger] g[i]).len() == 9
}

/// The digit `n` appears somewhere in row `r`.
pub open spec fn in_row(g: Seq<Seq<Cell>>, n: u8, r: int) -> bool {
    exists|j: int| 0 <= j < 9 && cell_holds(#[trigger] g[r][j], n)
}

/// The digit `n` appears somewhere in column `c`.
pub open spec fn in_col(g: Seq<Seq<Cell>>, n: u8, c: int) -> bool {
    exists|i: int| 0 <= i < 9 && cell_holds(#[trigger] g[i][c], n)
}

/// The row index of the top-left corner of the box containing index `x`.
pub open spec fn box_base(x: int) -> int {
    x - x % 3
}

/// The `k`-th cell, in row-major order, of the 3x3 box containing `(r, c)`.
pub open spec fn box_cell(g: Seq<Seq<Cell>>, r: int, c: int, k: int) -> Cell {
    g[box_base(r) + k / 3][box_base(c) + k % 3]
}

/// The box membership test as the board actually performs it: the scan of
/// the 3x3 box containing `(r, c)` stops at the first non-empty cell it
/// meets, and reports a match only if that one cell holds `n`. Digits in
/// later cells of the box are never consulted.
pub open spec fn in_box_first(g: Seq<Seq<Cell>>, n: u8, r: int, c: int) -> bool {
    exists|k: int|
        0 <= k < 9 && !cell_is_empty(#[trigger] box_cell(g, r, c, k)) && (forall|j: int|
            0 <= j < k ==> cell_is_empty(#[trigger] box_cell(g, r, c, j))) && cell_holds(
            box_cell(g, r, c, k),
            n,
        )
}

/// The admissibility gate of the search: `n` may be placed at `(r, c)`
/// when the full row scan, the full column scan and the first-match box
/// scan all fail to find it.
pub open spec fn valid_at(g: Seq<Seq<Cell>>, n: u8, r: int, c: int) -> bool {
    &&& !in_row(g, n, r)
    &&& !in_col(g, n, c)
    &&& !in_box_first(g, n, r, c)
}

/// Every cell of the grid holds a digit.
pub open spec fn filled(g: Seq<Seq<Cell>>) -> bool {
    forall|i: int, j: int| 0 <= i < 9 && 0 <= j < 9 ==> !cell_is_empty(#[trigger] g[i][j])
}

/// Every non-empty cell holds a digit in `1..=9`.
pub open spec fn grid_in_range(g: Seq<Seq<Cell>>) -> bool {
    forall|i: int, j: int| 0 <= i < 9 && 0 <= j < 9 ==> cell_in_range(#[trigger] g[i][j])
}

/// No two distinct cells of row `r` hold the same digit.
pub open spec fn row_no_dups(g: Seq<Seq<Cell>>, r: int) -> bool {
    forall|j1: int, j2: int, n: u8|
        !(0 <= j1 < 9 && 0 <= j2 < 9 && j1 != j2 && #[trigger] cell_holds(g[r][j1], n)
            && #[trigger] cell_holds(g[r][j2], n))
}

/// No two distinct cells of column `c` hold the same digit.
pub open spec fn col_no_dups(g: Seq<Seq<Cell>>, c: int) -> bool {
    forall|i1: int, i2: int, n: u8|
        !(0 <= i1 < 9 && 0 <= i2 < 9 && i1 != i2 && #[trigger] cell_holds(g[i1][c], n)
            && #[trigger] cell_holds(g[i2][c], n))
}

/// No row and no column of the grid repeats a digit.
pub open spec fn rows_cols_consistent(g: Seq<Seq<Cell>>) -> bool {
    &&& forall|r: int| 0 <= r < 9 ==> #[trigger] row_no_dups(g, r)
    &&& forall|c: int| 0 <= c < 9 ==> #[trigger] col_no_dups(g, c)
}

/// The grid as the search sees it on its way to the completion `g2`,
/// just before it reaches the cell at row-major position `p` (that is,
/// position `9 * row + column`): every empty cell of `g` before `p`
/// already holds its digit of `g2` as a derived cell, every cell from
/// `p` on still stands as in `g`.
pub open spec fn fill_upto(g: Seq<Seq<Cell>>, g2: Seq<Seq<Cell>>, p: int) -> Seq<Seq<Cell>> {
    Seq::new(
        9,
        |i: int|
            Seq::new(
                9,
                |j: int|
                    if 9 * i + j < p && cell_is_empty(g[i][j]) {
                        Cell::Derived(cell_digit(g2[i][j]) as u8)
                    } else {
                        g[i][j]
                    },
            ),
    )
}

/// A completion of `g` that the search can reach: a fully filled grid
/// with digits in `1..=9` that keeps every digit of `g`, and whose digit
/// for each empty cell of `g` passes the placement gate at that cell's
/// turn of the row-major fill. Because the search fills the empty cells
/// of `g` in exactly that order, `Board::solve` succeeds precisely on
/// the boards that have such a completion, and the board it leaves
/// behind is one.
pub open spec fn gated_completion(g: Seq<Seq<Cell>>, g2: Seq<Seq<Cell>>) -> bool {
    &&& grid_wf(g2)
    &&& filled(g2)
    &&& grid_in_range(g2)
    &&& forall|i: int, j: int|
        0 <= i < 9 && 0 <= j < 9 && !cell_is_empty(#[trigger] g[i][j]) ==> cell_digit(g2[i][j])
            == cell_digit(g[i][j])
    &&& forall|i: int, j: int|
        0 <= i < 9 && 0 <= j < 9 && cell_is_empty(#[trigger] g[i][j]) ==> valid_at(
            fill_upto(g, g2, 9 * i + j),
            cell_digit(g2[i][j]) as u8,
            i,
            j,
        )
}

/// The number of empty cells among the first `j` cells of one row.
pub open spec fn row_empties(row: Seq<Cell>, j: int) -> nat
    decreases j,
{
    if j <= 0 {
        0
    } else {
        row_empties(row, j - 1) + if cell_is_empty(row[j - 1]) {
            1nat
        } else {
            0nat
        }
    }
}

/// The number of empty cells in the first `i` rows of the grid.
pub open spec fn grid_empties_upto(g: Seq<Seq<Cell>>, i: int) -> nat
    decreases i,
{
    if i <= 0 {
        0
    } else {
        grid_empties_upto(g, i - 1) + row_empties(g[i - 1], 9)
    }
}

/// The number of empty cells in the whole grid; the measure that shrinks
/// with every speculative placement of the search.
pub open spec fn count_empty(g: Seq<Seq<Cell>>) -> nat {
    grid_empties_upto(g, 9)
}

} // verus!
