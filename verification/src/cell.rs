//! One position of the grid: empty, a digit given with the puzzle, or a
//! digit placed by the solver during search.

use vstd::prelude::*;

verus! {

/// A cell of the board. `Fixed` digits come with the puzzle and are never
/// touched by the solver; `Derived` digits are placed during search and
/// may be reverted to `Empty` on backtrack.
#[derive(Debug, PartialEq, Eq, Structural, Copy, Clone)]
pub enum Cell {
    Empty,
    Fixed(u8),
    Derived(u8),
}

/// True of a cell that holds the digit `n`, whether given or derived.
/// Empty cells hold no digit.
pub open spec fn cell_holds(c: Cell, n: u8) -> bool {
    match c {
        Cell::Empty => false,
        Cell::Fixed(d) => d == n,
        Cell::Derived(d) => d == n,
    }
}

/// True of a cell with no digit in it.
pub open spec fn cell_is_empty(c: Cell) -> bool {
    c is Empty
}

/// A non-empty cell's digit lies in `1..=9`.
pub open spec fn cell_in_range(c: Cell) -> bool {
    match c {
        Cell::Empty => true,
        Cell::Fixed(d) => 1 <= d <= 9,
        Cell::Derived(d) => 1 <= d <= 9,
    }
}

/// The digit a cell holds, as a number; an empty cell counts as `0`.
pub open spec fn cell_digit(c: Cell) -> int {
    match c {
        Cell::Empty => 0,
        Cell::Fixed(d) => d as int,
        Cell::Derived(d) => d as int,
    }
}

/// The cell that a grid entry denotes: `1..=9` is a given digit, anything
/// else (`0`, or a value past `9`) falls back to an empty cell.
pub open spec fn cell_of_digit(d: u8) -> Cell {
    if 1 <= d <= 9 {
        Cell::Fixed(d)
    } else {
        Cell::Empty
    }
}

/// A decimal digit character, `'0'` through `'9'`.
pub open spec fn is_digit_char(c: char) -> bool {
    '0' as int <= c as int <= '9' as int
}

/// The cell that a row character denotes: `'1'` through `'9'` is a given
/// digit, any other character an empty cell.
pub open spec fn cell_of_char(c: char) -> Cell {
    if '1' as int <= c as int <= '9' as int {
        Cell::Fixed((c as int - '0' as int) as u8)
    } else {
        Cell::Empty
    }
}

} // verus!
