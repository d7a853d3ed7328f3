//! The backtracking search: `Board::solve` and the lemmas about the
//! search measure and the consistency of placements.

use vstd::prelude::*;
use crate::board::Board;
use crate::cell::{Cell, cell_holds, cell_is_empty, cell_in_range, cell_digit};
use crate::grid::{
    grid_wf, grid_in_range, in_row, in_col, valid_at, filled, rows_cols_consistent, row_no_dups,
    col_no_dups, row_empties, grid_empties_upto, count_empty, fill_upto, gated_completion,
};

verus! {

/// Overwriting an empty cell of a row with a digit lowers the number of
/// empty cells among the first `j` positions exactly when the cell lies
/// among them.
proof fn lemma_row_empties_update(row: Seq<Cell>, c: int, v: Cell, j: int)
    requires
        0 <= c < row.len(),
        cell_is_empty(row[c]),
        !cell_is_empty(v),
        0 <= j <= row.len(),
    ensures
        c < j ==> row_empties(row.update(c, v), j) + 1 == row_empties(row, j),
        c >= j ==> row_empties(row.update(c, v), j) == row_empties(row, j),
    decreases j,
{
    if j > 0 {
        lemma_row_empties_update(row, c, v, j - 1);
    }
}

/// Overwriting an empty cell of row `r` with a digit lowers the number of
/// empty cells in the first `i` rows exactly when row `r` lies among them.
proof fn lemma_grid_empties_update(g: Seq<Seq<Cell>>, r: int, c: int, v: Cell, i: int)
    requires
        grid_wf(g),
        0 <= r < 9,
        0 <= c < 9,
        cell_is_empty(g[r][c]),
        !cell_is_empty(v),
        0 <= i <= 9,
    ensures
        r < i ==> grid_empties_upto(g.update(r, g[r].update(c, v)), i) + 1 == grid_empties_upto(
            g,
            i,
        ),
        r >= i ==> grid_empties_upto(g.update(r, g[r].update(c, v)), i) == grid_empties_upto(g, i),
    decreases i,
{
    if i > 0 {
        lemma_grid_empties_update(g, r, c, v, i - 1);
        let g1 = g.update(r, g[r].update(c, v));
        if i - 1 == r {
            lemma_row_empties_update(g[r], c, v, 9);
        } else {
            assert(g1[i - 1] == g[i - 1]);
        }
    }
}

/// Placing a digit into an empty cell shrinks the search measure by one.
proof fn lemma_count_empty_place(g: Seq<Seq<Cell>>, r: int, c: int, v: Cell)
    requires
        grid_wf(g),
        0 <= r < 9,
        0 <= c < 9,
        cell_is_empty(g[r][c]),
        !cell_is_empty(v),
    ensures
        count_empty(g.update(r, g[r].update(c, v))) + 1 == count_empty(g),
{
    lemma_grid_empties_update(g, r, c, v, 9);
}

/// When every empty cell of `g` lies at or after position `p` of the
/// row-major order, the search has placed nothing before `p`, and the
/// partially filled grid is `g` itself.
proof fn lemma_fill_upto_untouched(g: Seq<Seq<Cell>>, g2: Seq<Seq<Cell>>, p: int)
    requires
        grid_wf(g),
        forall|i: int, j: int|
            0 <= i < 9 && 0 <= j < 9 && cell_is_empty(#[trigger] g[i][j]) ==> 9 * i + j >= p,
    ensures
        fill_upto(g, g2, p) == g,
{
    let f = fill_upto(g, g2, p);
    assert forall|i: int| 0 <= i < 9 implies f[i] =~= g[i] by {
        assert forall|j: int| 0 <= j < 9 implies f[i][j] == g[i][j] by {
            if cell_is_empty(g[i][j]) {
                assert(9 * i + j >= p);
            }
        }
    }
    assert(f =~~= g);
}

/// Placing the completion's own digit into the empty cell at position
/// `9 * er + ec` does not change the grid the search sees at any later
/// position `p`: the partial fills towards `g2` agree from there on.
proof fn lemma_fill_upto_place(g: Seq<Seq<Cell>>, g2: Seq<Seq<Cell>>, er: int, ec: int, n: u8, p: int)
    requires
        grid_wf(g),
        0 <= er < 9,
        0 <= ec < 9,
        cell_is_empty(g[er][ec]),
        cell_digit(g2[er][ec]) == n as int,
        9 * er + ec < p,
    ensures
        fill_upto(g, g2, p) == fill_upto(
            g.update(er, g[er].update(ec, Cell::Derived(n))),
            g2,
            p,
        ),
{
    let gp = g.update(er, g[er].update(ec, Cell::Derived(n)));
    let f = fill_upto(g, g2, p);
    let fp = fill_upto(gp, g2, p);
    assert forall|i: int| 0 <= i < 9 implies f[i] =~= fp[i] by {
        assert forall|j: int| 0 <= j < 9 implies f[i][j] == fp[i][j] by {
            if i == er && j == ec {
                assert(gp[i][j] == Cell::Derived(n));
                assert(f[i][j] == Cell::Derived(cell_digit(g2[i][j]) as u8));
            } else if i == er {
                assert(gp[i][j] == g[i][j]);
            } else {
                assert(gp[i] == g[i]);
            }
        }
    }
    assert(f =~~= fp);
}

/// One step down the successful branch: at the first empty cell of `g`,
/// the digit that a reachable completion holds there is allowed by the
/// three membership checks on `g` itself, and after placing it the same
/// grid is still a reachable completion of the smaller problem.
proof fn lemma_completion_step_down(g: Seq<Seq<Cell>>, g2: Seq<Seq<Cell>>, er: int, ec: int)
    requires
        grid_wf(g),
        0 <= er < 9,
        0 <= ec < 9,
        cell_is_empty(g[er][ec]),
        forall|i: int, j: int|
            0 <= i < 9 && 0 <= j < 9 && 9 * i + j < 9 * er + ec ==> !cell_is_empty(
                #[trigger] g[i][j],
            ),
        gated_completion(g, g2),
    ensures
        1 <= cell_digit(g2[er][ec]) <= 9,
        valid_at(g, cell_digit(g2[er][ec]) as u8, er, ec),
        gated_completion(
            g.update(er, g[er].update(ec, Cell::Derived(cell_digit(g2[er][ec]) as u8))),
            g2,
        ),
{
    let p = 9 * er + ec;
    assert(!cell_is_empty(g2[er][ec]));
    assert(cell_in_range(g2[er][ec]));
    let n = cell_digit(g2[er][ec]) as u8;
    assert forall|i: int, j: int|
        0 <= i < 9 && 0 <= j < 9 && cell_is_empty(#[trigger] g[i][j]) implies 9 * i + j >= p by {
        if 9 * i + j < p {
            assert(!cell_is_empty(g[i][j]));
        }
    }
    lemma_fill_upto_untouched(g, g2, p);
    assert(valid_at(g, n, er, ec));
    let gp = g.update(er, g[er].update(ec, Cell::Derived(n)));
    assert forall|i: int, j: int|
        0 <= i < 9 && 0 <= j < 9 && !cell_is_empty(#[trigger] gp[i][j]) implies cell_digit(
        g2[i][j],
    ) == cell_digit(gp[i][j]) by {
        if i == er && j == ec {
            assert(gp[i][j] == Cell::Derived(n));
        } else if i == er {
            assert(gp[i][j] == g[i][j]);
        } else {
            assert(gp[i] == g[i]);
        }
    }
    assert forall|i: int, j: int|
        0 <= i < 9 && 0 <= j < 9 && cell_is_empty(#[trigger] gp[i][j]) implies valid_at(
        fill_upto(gp, g2, 9 * i + j),
        cell_digit(g2[i][j]) as u8,
        i,
        j,
    ) by {
        if i == er {
            assert(gp[i][j] == g[i][j]);
        } else {
            assert(gp[i] == g[i]);
        }
        assert(cell_is_empty(g[i][j]));
        assert(9 * i + j >= p);
        assert(!(i == er && j == ec));
        assert(9 * i + j != p) by {
            if 9 * i + j == p {
                assert(9 * (i - er) == ec - j);
                assert(-8 <= ec - j <= 8);
                assert(i == er && j == ec);
            }
        }
        lemma_fill_upto_place(g, g2, er, ec, n, 9 * i + j);
        assert(valid_at(fill_upto(g, g2, 9 * i + j), cell_digit(g2[i][j]) as u8, i, j));
    }
    assert(gated_completion(gp, g2));
}

/// One step back up the successful branch: a reachable completion of the
/// grid after a gate-approved placement at the first empty cell is a
/// reachable completion of the grid before it.
proof fn lemma_completion_step_up(g: Seq<Seq<Cell>>, g2: Seq<Seq<Cell>>, er: int, ec: int, n: u8)
    requires
        grid_wf(g),
        0 <= er < 9,
        0 <= ec < 9,
        1 <= n <= 9,
        cell_is_empty(g[er][ec]),
        forall|i: int, j: int|
            0 <= i < 9 && 0 <= j < 9 && 9 * i + j < 9 * er + ec ==> !cell_is_empty(
                #[trigger] g[i][j],
            ),
        valid_at(g, n, er, ec),
        gated_completion(g.update(er, g[er].update(ec, Cell::Derived(n))), g2),
    ensures
        gated_completion(g, g2),
{
    let p = 9 * er + ec;
    let gp = g.update(er, g[er].update(ec, Cell::Derived(n)));
    assert(!cell_is_empty(gp[er][ec]));
    assert(cell_digit(g2[er][ec]) == cell_digit(gp[er][ec]));
    assert(cell_digit(g2[er][ec]) == n as int);
    assert forall|i: int, j: int|
        0 <= i < 9 && 0 <= j < 9 && cell_is_empty(#[trigger] g[i][j]) implies 9 * i + j >= p by {
        if 9 * i + j < p {
            assert(!cell_is_empty(g[i][j]));
        }
    }
    assert forall|i: int, j: int|
        0 <= i < 9 && 0 <= j < 9 && !cell_is_empty(#[trigger] g[i][j]) implies cell_digit(
        g2[i][j],
    ) == cell_digit(g[i][j]) by {
        assert(!(i == er && j == ec));
        if i == er {
            assert(gp[i][j] == g[i][j]);
        } else {
            assert(gp[i] == g[i]);
        }
        assert(!cell_is_empty(gp[i][j]));
    }
    assert forall|i: int, j: int|
        0 <= i < 9 && 0 <= j < 9 && cell_is_empty(#[trigger] g[i][j]) implies valid_at(
        fill_upto(g, g2, 9 * i + j),
        cell_digit(g2[i][j]) as u8,
        i,
        j,
    ) by {
        if i == er && j == ec {
            lemma_fill_upto_untouched(g, g2, p);
            assert(valid_at(g, n, er, ec));
        } else {
            if i == er {
                assert(gp[i][j] == g[i][j]);
            } else {
                assert(gp[i] == g[i]);
            }
            assert(cell_is_empty(gp[i][j]));
            assert(9 * i + j >= p);
            assert(9 * i + j != p) by {
                if 9 * i + j == p {
                    assert(9 * (i - er) == ec - j);
                    assert(-8 <= ec - j <= 8);
                    assert(i == er && j == ec);
                }
            }
            lemma_fill_upto_place(g, g2, er, ec, n, 9 * i + j);
            assert(valid_at(fill_upto(gp, g2, 9 * i + j), cell_digit(g2[i][j]) as u8, i, j));
        }
    }
    assert(gated_completion(g, g2));
}

/// A grid with no empty cell and digits in `1..=9` is a reachable
/// completion of itself.
proof fn lemma_completion_filled(g: Seq<Seq<Cell>>)
    requires
        grid_wf(g),
        filled(g),
        grid_in_range(g),
    ensures
        gated_completion(g, g),
{
}

/// A digit absent from its row and column, placed into an empty cell of a
/// grid whose rows and columns repeat no digit, leaves them repeating
/// none.
proof fn lemma_place_keeps_consistency(g: Seq<Seq<Cell>>, n: u8, r: int, c: int)
    requires
        grid_wf(g),
        0 <= r < 9,
        0 <= c < 9,
        !in_row(g, n, r),
        !in_col(g, n, c),
        rows_cols_consistent(g),
    ensures
        rows_cols_consistent(g.update(r, g[r].update(c, Cell::Derived(n)))),
{
    let g1 = g.update(r, g[r].update(c, Cell::Derived(n)));
    assert forall|r2: int| 0 <= r2 < 9 implies #[trigger] row_no_dups(g1, r2) by {
        assert(row_no_dups(g, r2));
        assert forall|j1: int, j2: int, n2: u8|
            !(0 <= j1 < 9 && 0 <= j2 < 9 && j1 != j2 && #[trigger] cell_holds(g1[r2][j1], n2)
                && #[trigger] cell_holds(g1[r2][j2], n2)) by {
            if 0 <= j1 < 9 && 0 <= j2 < 9 && j1 != j2 && cell_holds(g1[r2][j1], n2) && cell_holds(
                g1[r2][j2],
                n2,
            ) {
                if r2 != r {
                    assert(cell_holds(g[r2][j1], n2));
                    assert(cell_holds(g[r2][j2], n2));
                } else {
                    if j1 == c {
                        assert(n2 == n);
                        assert(cell_holds(g[r][j2], n));
                    } else if j2 == c {
                        assert(n2 == n);
                        assert(cell_holds(g[r][j1], n));
                    } else {
                        assert(cell_holds(g[r][j1], n2));
                        assert(cell_holds(g[r][j2], n2));
                    }
                }
            }
        }
    }
    assert forall|c2: int| 0 <= c2 < 9 implies #[trigger] col_no_dups(g1, c2) by {
        assert(col_no_dups(g, c2));
        assert forall|i1: int, i2: int, n2: u8|
            !(0 <= i1 < 9 && 0 <= i2 < 9 && i1 != i2 && #[trigger] cell_holds(g1[i1][c2], n2)
                && #[trigger] cell_holds(g1[i2][c2], n2)) by {
            if 0 <= i1 < 9 && 0 <= i2 < 9 && i1 != i2 && cell_holds(g1[i1][c2], n2) && cell_holds(
                g1[i2][c2],
                n2,
            ) {
                if i1 == r && c2 == c {
                    assert(n2 == n);
                    assert(g1[i2] == g[i2]);
                    assert(cell_holds(g[i2][c], n));
                } else if i2 == r && c2 == c {
                    assert(n2 == n);
                    assert(g1[i1] == g[i1]);
                    assert(cell_holds(g[i1][c], n));
                } else {
                    if i1 == r {
                        assert(cell_holds(g[i1][c2], n2));
                    } else {
                        assert(g1[i1] == g[i1]);
                    }
                    if i2 == r {
                        assert(cell_holds(g[i2][c2], n2));
                    } else {
                        assert(g1[i2] == g[i2]);
                    }
                    assert(cell_holds(g[i1][c2], n2));
                    assert(cell_holds(g[i2][c2], n2));
                }
            }
        }
    }
}

impl Board {
    /// The backtracking search. Scans the grid in row-major order for the
    /// first empty cell, tries the digits `1..=9` ascending through the
    /// placement gate, places an accepted digit as derived and recurses
    /// on the whole board; a failed branch is reverted before the next
    /// candidate. Succeeds exactly when the scan runs out of empty cells.
    ///
    /// On failure the board is exactly as it was. On success every cell
    /// is filled, every cell that already held a digit is untouched, and
    /// each formerly empty cell holds a derived digit; a board whose rows
    /// and columns repeated no digit still repeats none. The search
    /// returns `true` exactly on the boards that have a completion
    /// reachable through its placement gate ([`gated_completion`]), and
    /// on success the board left behind is such a completion.
    pub fn solve(&mut self) -> (solved: bool)
        ensures
            !solved ==> final(self)@ == old(self)@,
            solved ==> filled(final(self)@),
            forall|i: int, j: int|
                0 <= i < 9 && 0 <= j < 9 && !cell_is_empty(#[trigger] old(self)@[i][j])
                    ==> final(self)@[i][j] == old(self)@[i][j],
            solved ==> forall|i: int, j: int|
                0 <= i < 9 && 0 <= j < 9 && cell_is_empty(#[trigger] old(self)@[i][j])
                    ==> final(self)@[i][j] is Derived,
            filled(old(self)@) ==> solved && final(self)@ == old(self)@,
            solved && grid_in_range(old(self)@) ==> grid_in_range(final(self)@),
            solved && rows_cols_consistent(old(self)@) ==> rows_cols_consistent(final(self)@),
            solved && grid_in_range(old(self)@) ==> gated_completion(old(self)@, final(self)@),
            !solved && grid_in_range(old(self)@) ==> forall|g2: Seq<Seq<Cell>>|
                !(#[trigger] gated_completion(old(self)@, g2)),
        decreases count_empty(old(self)@),
    {
        let mut row: usize = 0;
        while row < 9
            invariant
                row <= 9,
                self@ == old(self)@,
                forall|a: int, b: int|
                    0 <= a < row && 0 <= b < 9 ==> !cell_is_empty(#[trigger] self@[a][b]),
            decreases 9 - row,
        {
            let mut col: usize = 0;
            while col < 9
                invariant
                    row < 9,
                    col <= 9,
                    self@ == old(self)@,
                    forall|a: int, b: int|
                        0 <= a < row && 0 <= b < 9 ==> !cell_is_empty(#[trigger] self@[a][b]),
                    forall|b: int|
                        0 <= b < col ==> !cell_is_empty(#[trigger] self@[row as int][b]),
                decreases 9 - col,
            {
                match self.get(row, col) {
                    Cell::Empty => {
                        let ghost g0 = self@;
                        proof {
                            if grid_in_range(g0) {
                                assert forall|g2: Seq<Seq<Cell>>|
                                    #[trigger] gated_completion(g0, g2) implies cell_digit(
                                    g2[row as int][col as int],
                                ) >= 1 by {
                                    assert(!cell_is_empty(g2[row as int][col as int]));
                                    assert(cell_in_range(g2[row as int][col as int]));
                                }
                            }
                        }
                        let mut number: u8 = 1;
                        while number <= 9
                            invariant
                                1 <= number <= 10,
                                row < 9,
                                col < 9,
                                g0 == old(self)@,
                                self@ == old(self)@,
                                cell_is_empty(old(self)@[row as int][col as int]),
                                forall|a: int, b: int|
                                    0 <= a < row && 0 <= b < 9 ==> !cell_is_empty(
                                        #[trigger] old(self)@[a][b],
                                    ),
                                forall|b: int|
                                    0 <= b < col ==> !cell_is_empty(
                                        #[trigger] old(self)@[row as int][b],
                                    ),
                                grid_in_range(g0) ==> forall|g2: Seq<Seq<Cell>>|
                                    #[trigger] gated_completion(g0, g2) ==> cell_digit(
                                        g2[row as int][col as int],
                                    ) >= number,
                            decreases 10 - number,
                        {
                            let valid = self.is_valid_placement(number, row as u8, col as u8);
                            proof {
                                self.lemma_view_wf();
                                assert forall|i: int, j: int|
                                    0 <= i < 9 && 0 <= j < 9 && 9 * i + j < 9 * (row as int) + (
                                col as int) implies !cell_is_empty(#[trigger] g0[i][j]) by {
                                    if i > row as int {
                                        assert(9 * i + j >= 9 * (row as int) + 9);
                                    }
                                    if i == row as int {
                                        assert(j < col as int);
                                    }
                                }
                            }
                            if valid {
                                self.set_cell(row, col, Cell::Derived(number));
                                let ghost g1 = self@;
                                proof {
                                    lemma_count_empty_place(
                                        g0,
                                        row as int,
                                        col as int,
                                        Cell::Derived(number),
                                    );
                                    if grid_in_range(g0) {
                                        assert forall|i2: int, j2: int|
                                            0 <= i2 < 9 && 0 <= j2 < 9 implies cell_in_range(
                                            #[trigger] g1[i2][j2],
                                        ) by {
                                            if !(i2 == row as int && j2 == col as int) {
                                                assert(g1[i2][j2] == g0[i2][j2]);
                                                assert(cell_in_range(g0[i2][j2]));
                                            }
                                        }
                                        assert(grid_in_range(g1));
                                    }
                                }
                                if self.solve() {
                                    proof {
                                        assert forall|i2: int, j2: int|
                                            0 <= i2 < 9 && 0 <= j2 < 9 && !cell_is_empty(
                                                #[trigger] g0[i2][j2],
                                            ) implies self@[i2][j2] == g0[i2][j2] by {
                                            if i2 == row as int && j2 == col as int {
                                                assert(cell_is_empty(g0[i2][j2]));
                                            } else if i2 == row as int {
                                                assert(g1[i2] == g0[i2].update(
                                                    col as int,
                                                    Cell::Derived(number),
                                                ));
                                                assert(g1[i2][j2] == g0[i2][j2]);
                                            } else {
                                                assert(g1[i2] == g0[i2]);
                                            }
                                            assert(!cell_is_empty(g1[i2][j2]));
                                        }
                                        assert forall|i2: int, j2: int|
                                            0 <= i2 < 9 && 0 <= j2 < 9 && cell_is_empty(
                                                #[trigger] g0[i2][j2],
                                            ) implies self@[i2][j2] is Derived by {
                                            if i2 == row as int && j2 == col as int {
                                                assert(!cell_is_empty(g1[i2][j2]));
                                            } else {
                                                assert(g1[i2][j2] == g0[i2][j2]);
                                                assert(cell_is_empty(g1[i2][j2]));
                                            }
                                        }
                                        if rows_cols_consistent(g0) {
                                            lemma_place_keeps_consistency(
                                                g0,
                                                number,
                                                row as int,
                                                col as int,
                                            );
                                        }
                                        if grid_in_range(g0) {
                                            assert(gated_completion(g1, self@));
                                            lemma_completion_step_up(
                                                g0,
                                                self@,
                                                row as int,
                                                col as int,
                                                number,
                                            );
                                        }
                                    }
                                    return true;
                                } else {
                                    proof {
                                        if grid_in_range(g0) {
                                            assert forall|g2: Seq<Seq<Cell>>|
                                                #[trigger] gated_completion(g0, g2) implies
                                                cell_digit(g2[row as int][col as int]) >= number
                                                    + 1 by {
                                                if cell_digit(g2[row as int][col as int])
                                                    == number as int {
                                                    lemma_completion_step_down(
                                                        g0,
                                                        g2,
                                                        row as int,
                                                        col as int,
                                                    );
                                                    assert(gated_completion(g1, g2));
                                                }
                                            }
                                        }
                                    }
                                    self.set_cell(row, col, Cell::Empty);
                                    proof {
                                        assert(self@ =~~= g0);
                                    }
                                }
                            } else {
                                proof {
                                    if grid_in_range(g0) {
                                        assert forall|g2: Seq<Seq<Cell>>|
                                            #[trigger] gated_completion(g0, g2) implies cell_digit(
                                            g2[row as int][col as int],
                                        ) >= number + 1 by {
                                            if cell_digit(g2[row as int][col as int])
                                                == number as int {
                                                lemma_completion_step_down(
                                                    g0,
                                                    g2,
                                                    row as int,
                                                    col as int,
                                                );
                                                assert(valid_at(g0, number, row as int, col as int));
                                            }
                                        }
                                    }
                                }
                            }
                            number = number + 1;
                        }
                        proof {
                            assert(cell_is_empty(old(self)@[row as int][col as int]));
                            assert(!filled(old(self)@));
                            if grid_in_range(old(self)@) {
                                assert forall|g2: Seq<Seq<Cell>>|
                                    !(#[trigger] gated_completion(old(self)@, g2)) by {
                                    if gated_completion(g0, g2) {
                                        assert(cell_digit(g2[row as int][col as int]) >= 10);
                                        assert(!cell_is_empty(g2[row as int][col as int]));
                                        assert(cell_in_range(g2[row as int][col as int]));
                                    }
                                }
                            }
                        }
                        return false;
                    },
                    _ => {},
                }
                col = col + 1;
            }
            row = row + 1;
        }
        proof {
            assert(filled(self@));
            if grid_in_range(old(self)@) {
                self.lemma_view_wf();
                lemma_completion_filled(self@);
            }
        }
        true
    }
}

} // verus!
