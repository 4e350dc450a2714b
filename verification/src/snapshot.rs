//! A read-only view of a terminal for frontends to render.

use vstd::prelude::*;

use crate::cell::Cell;
use crate::terminal::Terminal;

verus! {

pub struct TerminalSnapshot<'a> {
    pub rows: &'a [Vec<Cell>],
    pub cols: usize,
    pub row_count: usize,
    pub cursor_row: usize,
    pub cursor_col: usize,
}

impl<'a> TerminalSnapshot<'a> {
    /// The cells of row `r`.
    pub open spec fn row_cells(&self, r: int) -> Seq<Cell> {
        self.rows@[r]@
    }

    /// Returns the cell at `(row, col)`, or `None` if out of bounds.
    pub fn cell(&self, row: usize, col: usize) -> (c: Option<&Cell>)
        ensures
            c == (if row < self.rows@.len() && col < self.rows@[row as int]@.len() {
                Some(&self.rows@[row as int]@[col as int])
            } else {
                None
            }),
    {
        if row < self.rows.len() {
            let r = &self.rows[row];
            if col < r.len() {
                Some(&r[col])
            } else {
                None
            }
        } else {
            None
        }
    }
}

impl Terminal {
    /// A snapshot borrowing the grid, with the screen size and cursor.
    pub fn snapshot(&self) -> (s: TerminalSnapshot<'_>)
        ensures
            s.rows@ == self.grid@,
            s.cols == self.cols,
            s.row_count == self.rows,
            s.cursor_row == self.cursor_row,
            s.cursor_col == self.cursor_col,
    {
        TerminalSnapshot {
            rows: self.grid.as_slice(),
            cols: self.cols,
            row_count: self.rows,
            cursor_row: self.cursor_row,
            cursor_col: self.cursor_col,
        }
    }
}

} // verus!
