//! The library's general laws: completeness of a filled consistent grid,
//! and agreement of the two non-trivial board constructions.

use vstd::prelude::*;
use vstd::set_lib::{set_int_range, lemma_int_range, lemma_subset_equality, lemma_len_subset};
use crate::board::Board;
use crate::cell::{cell_holds, cell_is_empty, cell_in_range, cell_digit, cell_of_digit, cell_of_char, Cell};
use crate::grid::{grid_wf, grid_in_range, in_row, in_col, filled, rows_cols_consistent, row_no_dups, col_no_dups};

verus! {

/// Nine pairwise distinct numbers drawn from `1..=9` hit every number of
/// `1..=9`.
proof fn lemma_nine_distinct_digits(digits: Seq<int>)
    requires
        digits.len() == 9,
        forall|j: int| 0 <= j < 9 ==> 1 <= #[trigger] digits[j] <= 9,
        digits.no_duplicates(),
    ensures
        forall|v: int| 1 <= v <= 9 ==> digits.contains(v),
{
    let s = digits.to_set();
    let r = set_int_range(1, 10);
    digits.unique_seq_to_set();
    lemma_int_range(1, 10);
    assert forall|v: int| s.contains(v) implies r.contains(v) by {
        let j = choose|j: int| 0 <= j < digits.len() && digits[j] == v;
        assert(1 <= digits[j] <= 9);
    }
    lemma_len_subset(s, r);
    lemma_subset_equality(s, r);
    assert forall|v: int| 1 <= v <= 9 implies digits.contains(v) by {
        assert(r.contains(v));
        assert(s.contains(v));
    }
}

/// In a grid with no empty cell, whose digits lie in `1..=9` and whose
/// rows and columns repeat no digit, every row and every column contains
/// each digit `1..=9` — together with the consistency assumption, each of
/// them exactly once. This is what a successful solve run yields for rows
/// and columns when it starts from a consistent board: `Board::solve`
/// keeps all three assumptions.
pub proof fn lemma_filled_consistent_grid_complete(g: Seq<Seq<Cell>>)
    requires
        grid_wf(g),
        filled(g),
        grid_in_range(g),
        rows_cols_consistent(g),
    ensures
        forall|r: int, n: u8| 0 <= r < 9 && 1 <= n <= 9 ==> in_row(g, n, r),
        forall|c: int, n: u8| 0 <= c < 9 && 1 <= n <= 9 ==> in_col(g, n, c),
{
    assert forall|r: int, n: u8| 0 <= r < 9 && 1 <= n <= 9 implies in_row(g, n, r) by {
        let digits = Seq::new(9, |j: int| cell_digit(g[r][j]));
        assert forall|j: int| 0 <= j < 9 implies 1 <= #[trigger] digits[j] <= 9 by {
            assert(!cell_is_empty(g[r][j]));
            assert(cell_in_range(g[r][j]));
        }
        assert(digits.no_duplicates()) by {
            assert forall|j1: int, j2: int|
                0 <= j1 < 9 && 0 <= j2 < 9 && j1 != j2 implies digits[j1] != digits[j2] by {
                assert(row_no_dups(g, r));
                if digits[j1] == digits[j2] {
                    let n2 = digits[j1] as u8;
                    assert(cell_holds(g[r][j1], n2));
                    assert(cell_holds(g[r][j2], n2));
                }
            }
        }
        lemma_nine_distinct_digits(digits);
        assert(digits.contains(n as int));
        let j = choose|j: int| 0 <= j < digits.len() && digits[j] == n as int;
        assert(cell_holds(g[r][j], n));
    }
    assert forall|c: int, n: u8| 0 <= c < 9 && 1 <= n <= 9 implies in_col(g, n, c) by {
        let digits = Seq::new(9, |i: int| cell_digit(g[i][c]));
        assert forall|i: int| 0 <= i < 9 implies 1 <= #[trigger] digits[i] <= 9 by {
            assert(!cell_is_empty(g[i][c]));
            assert(cell_in_range(g[i][c]));
        }
        assert(digits.no_duplicates()) by {
            assert forall|i1: int, i2: int|
                0 <= i1 < 9 && 0 <= i2 < 9 && i1 != i2 implies digits[i1] != digits[i2] by {
                assert(col_no_dups(g, c));
                if digits[i1] == digits[i2] {
                    let n2 = digits[i1] as u8;
                    assert(cell_holds(g[i1][c], n2));
                    assert(cell_holds(g[i2][c], n2));
                }
            }
        }
        lemma_nine_distinct_digits(digits);
        assert(digits.contains(n as int));
        let i = choose|i: int| 0 <= i < digits.len() && digits[i] == n as int;
        assert(cell_holds(g[i][c], n));
    }
}

/// A grid of numbers and nine rows of characters that spell the same
/// digits construct equal boards: the board built cell by cell from the
/// numbers and the board built from the characters agree everywhere.
pub proof fn lemma_from_digits_from_chars_agree(
    b1: Board,
    b2: Board,
    grid: Seq<Seq<u8>>,
    rows: Seq<Seq<char>>,
)
    requires
        grid.len() == 9,
        rows.len() == 9,
        forall|i: int| 0 <= i < 9 ==> (#[trigger] grid[i]).len() == 9,
        forall|i: int| 0 <= i < 9 ==> (#[trigger] rows[i]).len() == 9,
        forall|i: int, j: int| 0 <= i < 9 && 0 <= j < 9 ==> #[trigger] grid[i][j] <= 9,
        forall|i: int, j: int|
            0 <= i < 9 && 0 <= j < 9 ==> #[trigger] rows[i][j] as int == '0' as int
                + grid[i][j],
        forall|i: int, j: int|
            0 <= i < 9 && 0 <= j < 9 ==> #[trigger] b1@[i][j] == cell_of_digit(grid[i][j]),
        forall|i: int, j: int|
            0 <= i < 9 && 0 <= j < 9 ==> #[trigger] b2@[i][j] == cell_of_char(rows[i][j]),
    ensures
        b1@ == b2@,
{
    b1.lemma_view_wf();
    b2.lemma_view_wf();
    assert forall|i: int, j: int|
        0 <= i < 9 && 0 <= j < 9 implies #[trigger] b1@[i][j] == b2@[i][j] by {
        assert(cell_of_digit(grid[i][j]) == cell_of_char(rows[i][j]));
    }
    assert forall|i: int| 0 <= i < 9 implies b1@[i] =~= b2@[i] by {
        assert(forall|j: int| 0 <= j < 9 ==> #[trigger] b1@[i][j] == b2@[i][j]);
    }
    assert(b1@ =~~= b2@);
}

} // verus!
