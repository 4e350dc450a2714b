//! The terminal screen: a grid of cells with a cursor, a scroll region, the
//! current drawing attributes and the terminal modes.

use vstd::prelude::*;

use crate::cell::{blank_cell, Cell, Color};
use crate::width::{char_cell_width, char_width};

verus! {

/// The mathematical state of a terminal: every field of [`Terminal`], with
/// the grid as a sequence of rows of cells.
#[verifier::ext_equal]
pub struct TermState {
    pub rows: int,
    pub cols: int,
    pub grid: Seq<Seq<Cell>>,
    pub cursor_row: int,
    pub cursor_col: int,
    pub saved_cursor_row: int,
    pub saved_cursor_col: int,
    pub scroll_top: int,
    pub scroll_bottom: int,
    pub fg_color: Color,
    pub bg_color: Color,
    pub bold: bool,
    pub underline: bool,
    pub blink: bool,
    pub reverse: bool,
    pub auto_wrap: bool,
    pub origin_mode: bool,
    pub insert_mode: bool,
    pub line_feed_new_line_mode: bool,
    pub dirty: bool,
}

pub struct Terminal {
    pub rows: usize,
    pub cols: usize,
    pub grid: Vec<Vec<Cell>>,
    pub cursor_row: usize,
    pub cursor_col: usize,
    pub saved_cursor_row: usize,
    pub saved_cursor_col: usize,
    pub scroll_top: usize,
    pub scroll_bottom: usize,
    pub fg_color: Color,
    pub bg_color: Color,
    pub bold: bool,
    pub underline: bool,
    pub blink: bool,
    pub reverse: bool,
    pub auto_wrap: bool,
    pub origin_mode: bool,
    pub insert_mode: bool,
    pub line_feed_new_line_mode: bool,
    pub dirty: bool,
}

/// How much of the cursor's line an erase-in-line request clears.
#[derive(Clone, Copy, Debug, PartialEq, Eq, Structural)]
pub enum ClearLineMode {
    FromCursor,
    ToCursor,
    All,
}

/// How much of the screen an erase-in-display request clears.
#[derive(Clone, Copy, Debug, PartialEq, Eq, Structural)]
pub enum ClearScreenMode {
    FromCursor,
    ToCursor,
    All,
}

/// A change to the current drawing attributes.
#[derive(Clone, Copy, Debug, PartialEq, Eq, Structural)]
pub enum Attribute {
    Reset,
    Bold,
    Underline,
    Blink,
    Reverse,
    Foreground(Color),
    Background(Color),
}

impl View for Terminal {
    type V = TermState;

    open spec fn view(&self) -> TermState {
        TermState {
            rows: self.rows as int,
            cols: self.cols as int,
            grid: self.grid@.map_values(|r: Vec<Cell>| r@),
            cursor_row: self.cursor_row as int,
            cursor_col: self.cursor_col as int,
            saved_cursor_row: self.saved_cursor_row as int,
            saved_cursor_col: self.saved_cursor_col as int,
            scroll_top: self.scroll_top as int,
            scroll_bottom: self.scroll_bottom as int,
            fg_color: self.fg_color,
            bg_color: self.bg_color,
            bold: self.bold,
            underline: self.underline,
            blink: self.blink,
            reverse: self.reverse,
            auto_wrap: self.auto_wrap,
            origin_mode: self.origin_mode,
            insert_mode: self.insert_mode,
            line_feed_new_line_mode: self.line_feed_new_line_mode,
            dirty: self.dirty,
        }
    }
}

// ---------------------------------------------------------------------------
// The model.
// ---------------------------------------------------------------------------

/// The invariant every terminal keeps: at least one row, a grid of exactly
/// `rows` rows of `cols` cells, the cursor on a row of the grid and at most one
/// column past the last, a saved cursor of the same kind, and a scroll region
/// of whole rows inside the screen.
pub open spec fn state_wf(s: TermState) -> bool {
    &&& s.rows >= 1
    &&& s.cols >= 0
    &&& s.grid.len() == s.rows
    &&& forall|r: int| 0 <= r < s.rows ==> #[trigger] s.grid[r].len() == s.cols
    &&& 0 <= s.cursor_row < s.rows
    &&& 0 <= s.cursor_col <= s.cols
    &&& 0 <= s.saved_cursor_row < s.rows
    &&& 0 <= s.saved_cursor_col <= s.cols
    &&& 0 <= s.scroll_top <= s.scroll_bottom < s.rows
}

pub open spec fn min_int(a: int, b: int) -> int {
    if a <= b {
        a
    } else {
        b
    }
}

pub open spec fn sat_sub(a: int, b: int) -> int {
    if a >= b {
        a - b
    } else {
        0
    }
}

/// A row of `cols` blank cells.
pub open spec fn blank_row(cols: int) -> Seq<Cell> {
    Seq::new(cols as nat, |i: int| blank_cell())
}

/// `k` rows of `cols` blank cells each.
pub open spec fn blank_rows(k: int, cols: int) -> Seq<Seq<Cell>> {
    Seq::new(k as nat, |i: int| blank_row(cols))
}

/// A blank cell that keeps the given background color.
pub open spec fn blank_on(bg: Color) -> Cell {
    Cell { bg_color: bg, ..blank_cell() }
}

/// A cell holding `ch` with `width`, drawn with the terminal's current
/// attributes.
pub open spec fn drawn_cell(s: TermState, ch: char, width: u8) -> Cell {
    Cell {
        ch,
        width,
        fg_color: s.fg_color,
        bg_color: s.bg_color,
        bold: s.bold,
        underline: s.underline,
        blink: s.blink,
        reverse: s.reverse,
    }
}

/// The state with the grid replaced.
pub open spec fn with_grid(s: TermState, grid: Seq<Seq<Cell>>) -> TermState {
    TermState { grid, ..s }
}

/// The state with the cursor moved.
pub open spec fn with_cursor(s: TermState, row: int, col: int) -> TermState {
    TermState { cursor_row: row, cursor_col: col, ..s }
}

/// The state marked as needing a repaint.
pub open spec fn touched(s: TermState) -> TermState {
    TermState { dirty: true, ..s }
}

/// The rows `top..=bottom` move up by `k`: the top `k` of them leave and `k`
/// blank rows enter at the bottom of the region.
pub open spec fn region_shifted_up(g: Seq<Seq<Cell>>, top: int, bottom: int, k: int, cols: int) -> Seq<Seq<Cell>> {
    g.subrange(0, top) + g.subrange(top + k, bottom + 1) + blank_rows(k, cols) + g.subrange(bottom + 1, g.len() as int)
}

/// The rows `top..=bottom` move down by `k`: the bottom `k` of them leave and
/// `k` blank rows enter at the top of the region.
pub open spec fn region_shifted_down(g: Seq<Seq<Cell>>, top: int, bottom: int, k: int, cols: int) -> Seq<Seq<Cell>> {
    g.subrange(0, top) + blank_rows(k, cols) + g.subrange(top, bottom + 1 - k) + g.subrange(bottom + 1, g.len() as int)
}

/// The screen after scrolling the scroll region up by `n` lines.
pub open spec fn spec_scroll_up(s: TermState, n: int) -> TermState {
    let k = min_int(n, s.scroll_bottom - s.scroll_top + 1);
    touched(with_grid(s, region_shifted_up(s.grid, s.scroll_top, s.scroll_bottom, k, s.cols)))
}

/// The screen after scrolling the scroll region down by `n` lines.
pub open spec fn spec_scroll_down(s: TermState, n: int) -> TermState {
    let k = min_int(n, s.scroll_bottom - s.scroll_top + 1);
    touched(with_grid(s, region_shifted_down(s.grid, s.scroll_top, s.scroll_bottom, k, s.cols)))
}

/// The screen after deleting `n` lines at the cursor row: the lines below it,
/// down to the bottom of the scroll region, move up.
pub open spec fn spec_delete_lines(s: TermState, n: int) -> TermState {
    let k = min_int(n, s.scroll_bottom - s.cursor_row + 1);
    touched(with_grid(s, region_shifted_up(s.grid, s.cursor_row, s.scroll_bottom, k, s.cols)))
}

/// The screen after inserting `n` blank lines at the cursor row: the lines
/// from it down to the bottom of the scroll region move down.
pub open spec fn spec_insert_lines(s: TermState, n: int) -> TermState {
    let k = min_int(n, s.scroll_bottom - s.cursor_row + 1);
    touched(with_grid(s, region_shifted_down(s.grid, s.cursor_row, s.scroll_bottom, k, s.cols)))
}

/// The cursor moves to the next row: at the bottom of the scroll region the
/// region scrolls up instead, and on the last row of the screen below the
/// region the cursor stays.
pub open spec fn spec_next_row(s: TermState) -> TermState {
    if s.cursor_row == s.scroll_bottom {
        spec_scroll_up(s, 1)
    } else if s.cursor_row < s.rows - 1 {
        with_cursor(s, s.cursor_row + 1, s.cursor_col)
    } else {
        s
    }
}

/// A line feed: in line-feed/new-line mode it also returns to column 0.
pub open spec fn spec_line_feed(s: TermState) -> TermState {
    let s1 = if s.line_feed_new_line_mode {
        with_cursor(s, s.cursor_row, 0)
    } else {
        s
    };
    touched(spec_next_row(s1))
}

/// The cursor moved to `(row, col)`, each clamped to the last row and column.
pub open spec fn spec_set_cursor(s: TermState, row: int, col: int) -> TermState {
    let c = if col >= s.cols {
        sat_sub(s.cols, 1)
    } else {
        col
    };
    let r = if row >= s.rows {
        s.rows - 1
    } else {
        row
    };
    with_cursor(s, r, c)
}

/// The scroll region set to `top..=bottom`, each clamped to the screen; a
/// region that would not span two rows resets to the whole screen.
pub open spec fn spec_set_scroll_region(s: TermState, top: int, bottom: int) -> TermState {
    let t = min_int(top, s.rows - 1);
    let b = min_int(bottom, s.rows - 1);
    if t >= b {
        TermState { scroll_top: 0, scroll_bottom: s.rows - 1, ..s }
    } else {
        TermState { scroll_top: t, scroll_bottom: b, ..s }
    }
}

/// The drawing attributes back to default colors with no emphasis.
pub open spec fn spec_reset_attributes(s: TermState) -> TermState {
    TermState {
        fg_color: Color::Default,
        bg_color: Color::Default,
        bold: false,
        underline: false,
        blink: false,
        reverse: false,
        ..s
    }
}

pub open spec fn spec_set_attribute(s: TermState, a: Attribute) -> TermState {
    match a {
        Attribute::Reset => spec_reset_attributes(s),
        Attribute::Bold => TermState { bold: true, ..s },
        Attribute::Underline => TermState { underline: true, ..s },
        Attribute::Blink => TermState { blink: true, ..s },
        Attribute::Reverse => TermState { reverse: true, ..s },
        Attribute::Foreground(c) => TermState { fg_color: c, ..s },
        Attribute::Background(c) => TermState { bg_color: c, ..s },
    }
}

/// The cursor moved up `n` rows, stopping at the top of the screen, or in
/// origin mode at the top of the scroll region.
pub open spec fn spec_move_cursor_up(s: TermState, n: int) -> TermState {
    let r = sat_sub(s.cursor_row, n);
    let r = if s.origin_mode && r < s.scroll_top {
        s.scroll_top
    } else {
        r
    };
    with_cursor(s, r, s.cursor_col)
}

/// The cursor moved down `n` rows, stopping at the last row, or in origin
/// mode at the bottom of the scroll region.
pub open spec fn spec_move_cursor_down(s: TermState, n: int) -> TermState {
    let limit = if s.origin_mode {
        s.scroll_bottom
    } else {
        s.rows - 1
    };
    with_cursor(s, min_int(s.cursor_row + n, limit), s.cursor_col)
}

/// The cursor moved right `n` columns, stopping at the last column.
pub open spec fn spec_move_cursor_forward(s: TermState, n: int) -> TermState {
    with_cursor(s, s.cursor_row, min_int(s.cursor_col + n, s.cols - 1))
}

/// The cursor moved left `n` columns, stopping at column 0.
pub open spec fn spec_move_cursor_back(s: TermState, n: int) -> TermState {
    with_cursor(s, s.cursor_row, sat_sub(s.cursor_col, n))
}

/// The cursor moved to the next multiple of eight columns, stopping at the
/// last column.
pub open spec fn spec_tab(s: TermState) -> TermState {
    with_cursor(s, s.cursor_row, min_int((s.cursor_col / 8 + 1) * 8, s.cols - 1))
}

pub open spec fn spec_backspace(s: TermState) -> TermState {
    if s.cursor_col > 0 {
        with_cursor(s, s.cursor_row, s.cursor_col - 1)
    } else {
        s
    }
}

/// The saved cursor position is the same in both states.
pub open spec fn keeps_saved_cursor(a: TermState, b: TermState) -> bool {
    b.saved_cursor_row == a.saved_cursor_row && b.saved_cursor_col == a.saved_cursor_col
}

/// Saving the cursor and later restoring it puts the cursor back where it
/// was saved, whatever happened in between that kept the saved position
/// (every operation but saving again and clearing everything keeps it);
/// restoring changes nothing else: grid, attributes, modes and scroll region
/// stay as they are.
pub proof fn lemma_save_restore_round_trip(s: TermState, later: TermState)
    requires
        keeps_saved_cursor(spec_save_cursor(s), later),
    ensures
        spec_restore_cursor(later).cursor_row == s.cursor_row,
        spec_restore_cursor(later).cursor_col == s.cursor_col,
        spec_restore_cursor(later) == with_cursor(later, s.cursor_row, s.cursor_col),
{
}

pub open spec fn spec_save_cursor(s: TermState) -> TermState {
    TermState { saved_cursor_row: s.cursor_row, saved_cursor_col: s.cursor_col, ..s }
}

pub open spec fn spec_restore_cursor(s: TermState) -> TermState {
    with_cursor(s, s.saved_cursor_row, s.saved_cursor_col)
}

/// Restoring the cursor after saving it undoes any cursor placement in
/// between: the state is the one right after saving.
pub proof fn lemma_restore_undoes_cursor_moves(s: TermState, row: int, col: int)
    ensures
        spec_restore_cursor(spec_set_cursor(spec_save_cursor(s), row, col)) == spec_save_cursor(s),
{
    assert(spec_restore_cursor(spec_set_cursor(spec_save_cursor(s), row, col)) =~= spec_save_cursor(
        s,
    ));
}

/// The cell range `start..end` of a row, clamped to the row, widened so that
/// it never splits a wide character: a range that starts on a continuation
/// cell also takes the leading cell before it, and one that ends just before
/// a continuation cell also takes that cell.
pub open spec fn expand_range(row: Seq<Cell>, cols: int, start: int, end: int) -> (int, int) {
    let s0 = min_int(start, cols);
    let e0 = min_int(end, cols);
    let s1 = if s0 < e0 && s0 > 0 && row[s0].width == 0 {
        s0 - 1
    } else {
        s0
    };
    let e1 = if s1 < e0 && e0 < cols && row[e0].width == 0 {
        e0 + 1
    } else {
        e0
    };
    (s1, e1)
}

/// The row with the cells `start..end` replaced by `c`.
pub open spec fn fill_range(row: Seq<Cell>, start: int, end: int, c: Cell) -> Seq<Cell> {
    Seq::new(row.len(), |i: int| if start <= i && i < end { c } else { row[i] })
}

/// The row with the cells `start..end`, widened over wide characters, blanked
/// in the background color `bg`.
pub open spec fn cleared_row(row: Seq<Cell>, cols: int, start: int, end: int, bg: Color) -> Seq<Cell> {
    let (a, b) = expand_range(row, cols, start, end);
    fill_range(row, a, b, blank_on(bg))
}

/// A row of blanks in the background color `bg`.
pub open spec fn blank_row_on(cols: int, bg: Color) -> Seq<Cell> {
    Seq::new(cols as nat, |i: int| blank_on(bg))
}

/// The row with `lead` at `col` and `cont` in the following `width - 1`
/// cells that lie on the screen.
pub open spec fn written_row(row: Seq<Cell>, cols: int, col: int, lead: Cell, cont: Cell, width: int) -> Seq<Cell> {
    Seq::new(
        row.len(),
        |i: int|
            if i == col {
                lead
            } else if col < i && i < col + width && i < cols {
                cont
            } else {
                row[i]
            },
    )
}

/// Repairs a row from column `col` on, left to right: a continuation cell
/// that does not follow a wide character becomes blank, a wide character that
/// does not fit before the right edge becomes blank, and the cells a fitting
/// wide character covers are skipped.
#[verifier::opaque]
pub open spec fn sanitized_from(row: Seq<Cell>, cols: int, col: int) -> Seq<Cell>
    decreases cols - col,
{
    if col < 0 || col >= cols || col >= row.len() {
        row
    } else {
        let w = row[col].width as int;
        if w == 0 {
            let r2 = if col == 0 || row[col - 1].width <= 1 {
                row.update(col, blank_cell())
            } else {
                row
            };
            sanitized_from(r2, cols, col + 1)
        } else if w > 1 {
            if col + w > cols {
                sanitized_from(row.update(col, blank_cell()), cols, col + 1)
            } else {
                sanitized_from(row, cols, col + w)
            }
        } else {
            sanitized_from(row, cols, col + 1)
        }
    }
}

/// The state with cells `start..end` of row `r` cleared (see [`cleared_row`]).
pub open spec fn spec_clear_range(s: TermState, r: int, start: int, end: int) -> TermState {
    with_grid(s, s.grid.update(r, cleared_row(s.grid[r], s.cols, start, end, s.bg_color)))
}

/// The row with the cells from `col` on moved right by `w` (those pushed past
/// the edge are lost) and the `w` cells opened at `col` set to `blank`.
pub open spec fn shifted_right(row: Seq<Cell>, cols: int, col: int, w: int, blank: Cell) -> Seq<Cell> {
    Seq::new(
        cols as nat,
        |i: int|
            if i >= col + w {
                row[i - w]
            } else if i >= col {
                blank
            } else {
                row[i]
            },
    )
}

/// Inserting `ch` of `width` cells at the cursor: the rest of the row moves
/// right by `width` (cells pushed past the edge are lost), the character is
/// drawn, the row is repaired and the cursor moves past the character.
pub open spec fn spec_insert_char(s: TermState, ch: char, width: u8) -> TermState {
    let w = width as int;
    let col = s.cursor_col;
    let r = s.cursor_row;
    if col + w > s.cols {
        s
    } else {
        let shifted = shifted_right(s.grid[r], s.cols, col, w, blank_on(s.bg_color));
        let written = written_row(shifted, s.cols, col, drawn_cell(s, ch, width), drawn_cell(s, '\0', 0), w);
        TermState {
            grid: s.grid.update(r, sanitized_from(written, s.cols, 0)),
            cursor_col: min_int(col + w, s.cols),
            ..s
        }
    }
}

/// Whether the character of `width` cells cannot be drawn at the cursor
/// without wrapping.
pub open spec fn needs_wrap(s: TermState, w: int) -> bool {
    s.cursor_col >= s.cols || s.cursor_col + w > s.cols
}

/// Drawing a character at the cursor. When it does not fit, the cursor wraps
/// to the start of the next row (scrolling at the bottom of the region), or,
/// with auto-wrap off, goes to the last column and nothing is drawn. The
/// character overwrites its cells (wide characters it cuts into are cleared),
/// or in insert mode is inserted, and the cursor moves past it.
pub open spec fn spec_put_char(s: TermState, ch: char) -> TermState {
    let w = char_cell_width(ch) as int;
    if needs_wrap(s, w) && !s.auto_wrap {
        with_cursor(s, s.cursor_row, sat_sub(s.cols, 1))
    } else {
        let s1 = if needs_wrap(s, w) {
            spec_next_row(with_cursor(s, s.cursor_row, 0))
        } else {
            s
        };
        spec_draw_char(s1, ch)
    }
}

/// Drawing `ch` at the cursor once any wrapping is done: nothing happens when
/// it still does not fit; otherwise it is inserted (insert mode) or overwrites
/// its cells, clearing any wide character it cuts into, and the cursor moves
/// past it.
pub open spec fn spec_draw_char(s1: TermState, ch: char) -> TermState {
    let w = char_cell_width(ch) as int;
    if s1.cursor_col + w > s1.cols {
        s1
    } else if s1.insert_mode {
        touched(spec_insert_char(s1, ch, char_cell_width(ch)))
    } else {
        let r = s1.cursor_row;
        let col = s1.cursor_col;
        let cleared = cleared_row(s1.grid[r], s1.cols, col, col + w, s1.bg_color);
        let written = written_row(
            cleared,
            s1.cols,
            col,
            drawn_cell(s1, ch, char_cell_width(ch)),
            drawn_cell(s1, '\0', 0),
            w,
        );
        touched(TermState {
            grid: s1.grid.update(r, written),
            cursor_col: min_int(col + w, s1.cols),
            ..s1
        })
    }
}

/// The rows `from..to` of the grid replaced by blank rows in background `bg`.
pub open spec fn rows_blanked(g: Seq<Seq<Cell>>, from: int, to: int, cols: int, bg: Color) -> Seq<Seq<Cell>> {
    Seq::new(g.len(), |i: int| if from <= i && i < to { blank_row_on(cols, bg) } else { g[i] })
}

/// Erasing `n` cells from the cursor on (without moving anything).
pub open spec fn spec_erase_chars(s: TermState, n: int) -> TermState {
    touched(spec_clear_range(s, s.cursor_row, s.cursor_col, min_int(s.cursor_col + n, s.cols)))
}

/// The row with the cells from `c + k` on moved left by `k` to `c`, and
/// `blank` in the last `k` cells.
pub open spec fn shifted_left(row: Seq<Cell>, cols: int, c: int, k: int, blank: Cell) -> Seq<Cell> {
    Seq::new(
        cols as nat,
        |i: int|
            if i >= cols - k {
                blank
            } else if i >= c {
                row[i + k]
            } else {
                row[i]
            },
    )
}

/// Deleting `n` cells at the cursor (widened over wide characters): the rest
/// of the row moves left, blanks in the current background enter at the right
/// edge, and the row is repaired.
pub open spec fn spec_delete_chars(s: TermState, n: int) -> TermState {
    let r = s.cursor_row;
    let old_row = s.grid[r];
    let ex = expand_range(old_row, s.cols, s.cursor_col, min_int(s.cursor_col + n, s.cols));
    let shifted = shifted_left(old_row, s.cols, ex.0, ex.1 - ex.0, blank_on(s.bg_color));
    touched(with_grid(s, s.grid.update(r, sanitized_from(shifted, s.cols, 0))))
}

pub open spec fn spec_clear_line(s: TermState, mode: ClearLineMode) -> TermState {
    let r = s.cursor_row;
    touched(
        match mode {
            ClearLineMode::FromCursor => spec_clear_range(s, r, s.cursor_col, s.cols),
            ClearLineMode::ToCursor => spec_clear_range(s, r, 0, s.cursor_col + 1),
            ClearLineMode::All => spec_clear_range(s, r, 0, s.cols),
        },
    )
}

/// Erasing the screen from the cursor to its end, from its start through the
/// cursor, or entirely; the first two keep the current background on the
/// blanks, the last also sends the cursor home.
pub open spec fn spec_clear_screen(s: TermState, mode: ClearScreenMode) -> TermState {
    let cr = s.cursor_row;
    match mode {
        ClearScreenMode::FromCursor => touched(
            with_grid(
                s,
                rows_blanked(
                    s.grid.update(cr, cleared_row(s.grid[cr], s.cols, s.cursor_col, s.cols, s.bg_color)),
                    cr + 1,
                    s.rows,
                    s.cols,
                    s.bg_color,
                ),
            ),
        ),
        ClearScreenMode::ToCursor => touched(
            with_grid(
                s,
                rows_blanked(s.grid, 0, cr, s.cols, s.bg_color).update(
                    cr,
                    cleared_row(s.grid[cr], s.cols, 0, s.cursor_col + 1, s.bg_color),
                ),
            ),
        ),
        ClearScreenMode::All => spec_clear_all(s),
    }
}

/// The whole screen blank, the cursor home.
pub open spec fn spec_clear_all(s: TermState) -> TermState {
    touched(with_cursor(with_grid(s, blank_rows(s.rows, s.cols)), 0, 0))
}


/// Whether row `r` of `t` is `cols` blank cells.
pub open spec fn row_is_blank(t: TermState, r: int) -> bool {
    t.grid[r].len() == t.cols && forall|c: int| 0 <= c < t.cols ==> #[trigger] t.grid[r][c] == blank_cell()
}

/// The lines `top..=bottom` moved down by `k` (at most the region's height)
/// in `t` from `s`: each line `k` further down, `k` blank lines at the top,
/// the lines outside untouched.
pub open spec fn moved_down(s: TermState, t: TermState, top: int, bottom: int, k: int) -> bool {
    &&& t.grid.len() == s.grid.len()
    &&& forall|r: int| 0 <= r < s.rows && (r < top || r > bottom) ==> #[trigger] t.grid[r] == s.grid[r]
    &&& forall|r: int| top <= r < top + k ==> #[trigger] row_is_blank(t, r)
    &&& forall|r: int| top + k <= r <= bottom ==> #[trigger] t.grid[r] == s.grid[r - k]
}

/// The lines `top..=bottom` moved up by `k` in `t` from `s`: each line `k`
/// further up, `k` blank lines at the bottom, the lines outside untouched.
pub open spec fn moved_up(s: TermState, t: TermState, top: int, bottom: int, k: int) -> bool {
    &&& t.grid.len() == s.grid.len()
    &&& forall|r: int| 0 <= r < s.rows && (r < top || r > bottom) ==> #[trigger] t.grid[r] == s.grid[r]
    &&& forall|r: int| bottom - k < r <= bottom ==> #[trigger] row_is_blank(t, r)
    &&& forall|r: int| top <= r <= bottom - k ==> #[trigger] t.grid[r] == s.grid[r + k]
}

proof fn lemma_region_shift_rows(s: TermState, top: int, bottom: int, k: int)
    requires
        state_wf(s),
        0 <= top <= bottom < s.rows,
        0 <= k <= bottom - top + 1,
    ensures
        moved_up(s, with_grid(s, region_shifted_up(s.grid, top, bottom, k, s.cols)), top, bottom, k),
        moved_down(s, with_grid(s, region_shifted_down(s.grid, top, bottom, k, s.cols)), top, bottom, k),
{
    let u = with_grid(s, region_shifted_up(s.grid, top, bottom, k, s.cols));
    let d = with_grid(s, region_shifted_down(s.grid, top, bottom, k, s.cols));
    assert forall|r: int| 0 <= r < s.rows && (r < top || r > bottom) implies #[trigger] u.grid[r] == s.grid[r] by {}
    assert forall|r: int| bottom - k < r <= bottom implies #[trigger] row_is_blank(u, r) by {
        assert(u.grid[r] == blank_row(s.cols));
    }
    assert forall|r: int| top <= r <= bottom - k implies #[trigger] u.grid[r] == s.grid[r + k] by {}
    assert forall|r: int| 0 <= r < s.rows && (r < top || r > bottom) implies #[trigger] d.grid[r] == s.grid[r] by {}
    assert forall|r: int| top <= r < top + k implies #[trigger] row_is_blank(d, r) by {
        assert(d.grid[r] == blank_row(s.cols));
    }
    assert forall|r: int| top + k <= r <= bottom implies #[trigger] d.grid[r] == s.grid[r - k] by {}
}

/// Scrolling down by `n` moves the scroll region's lines down by `n` (at most
/// its height): blank lines enter at the top of the region, the lines pushed
/// past its bottom are lost, and nothing outside the region, nor the cursor,
/// moves.
pub proof fn lemma_scroll_down_moves_lines_down(s: TermState, n: int)
    requires
        state_wf(s),
        n >= 0,
    ensures
        ({
            let h = s.scroll_bottom - s.scroll_top + 1;
            let k = if n < h { n } else { h };
            let t = spec_scroll_down(s, n);
            &&& moved_down(s, t, s.scroll_top, s.scroll_bottom, k)
            &&& t.cursor_row == s.cursor_row && t.cursor_col == s.cursor_col
        }),
{
    let k = min_int(n, s.scroll_bottom - s.scroll_top + 1);
    lemma_region_shift_rows(s, s.scroll_top, s.scroll_bottom, k);
    let t = spec_scroll_down(s, n);
    let d = with_grid(s, region_shifted_down(s.grid, s.scroll_top, s.scroll_bottom, k, s.cols));
    assert(t.grid == d.grid);
    assert forall|r: int| s.scroll_top <= r < s.scroll_top + k implies #[trigger] row_is_blank(t, r) by {
        assert(row_is_blank(d, r));
    }
}

/// Scrolling up by `n` moves the scroll region's lines up by `n` (at most its
/// height): blank lines enter at the bottom of the region, the lines pushed
/// past its top are lost, and nothing outside the region, nor the cursor,
/// moves.
pub proof fn lemma_scroll_up_moves_lines_up(s: TermState, n: int)
    requires
        state_wf(s),
        n >= 0,
    ensures
        ({
            let h = s.scroll_bottom - s.scroll_top + 1;
            let k = if n < h { n } else { h };
            let t = spec_scroll_up(s, n);
            &&& moved_up(s, t, s.scroll_top, s.scroll_bottom, k)
            &&& t.cursor_row == s.cursor_row && t.cursor_col == s.cursor_col
        }),
{
    let k = min_int(n, s.scroll_bottom - s.scroll_top + 1);
    lemma_region_shift_rows(s, s.scroll_top, s.scroll_bottom, k);
    let t = spec_scroll_up(s, n);
    let u = with_grid(s, region_shifted_up(s.grid, s.scroll_top, s.scroll_bottom, k, s.cols));
    assert(t.grid == u.grid);
    assert forall|r: int| s.scroll_bottom - k < r <= s.scroll_bottom implies #[trigger] row_is_blank(t, r) by {
        assert(row_is_blank(u, r));
    }
}

/// Inserting `n` lines at the cursor row moves the lines from the cursor row
/// to the bottom of the scroll region down by `n` (at most that many lines),
/// blank lines entering at the cursor row; the lines above the cursor and
/// below the region, and the cursor, stay.
pub proof fn lemma_insert_lines_moves_lines_down(s: TermState, n: int)
    requires
        state_wf(s),
        n >= 0,
        s.cursor_row <= s.scroll_bottom,
    ensures
        ({
            let h = s.scroll_bottom - s.cursor_row + 1;
            let k = if n < h { n } else { h };
            let t = spec_insert_lines(s, n);
            &&& moved_down(s, t, s.cursor_row, s.scroll_bottom, k)
            &&& t.cursor_row == s.cursor_row && t.cursor_col == s.cursor_col
        }),
{
    let k = min_int(n, s.scroll_bottom - s.cursor_row + 1);
    lemma_region_shift_rows(s, s.cursor_row, s.scroll_bottom, k);
    let t = spec_insert_lines(s, n);
    let d = with_grid(s, region_shifted_down(s.grid, s.cursor_row, s.scroll_bottom, k, s.cols));
    assert(t.grid == d.grid);
    assert forall|r: int| s.cursor_row <= r < s.cursor_row + k implies #[trigger] row_is_blank(t, r) by {
        assert(row_is_blank(d, r));
    }
}

/// Deleting `n` lines at the cursor row moves the lines below it, down to the
/// bottom of the scroll region, up by `n` (at most that many lines), blank
/// lines entering at the bottom of the region; the lines above the cursor
/// and below the region, and the cursor, stay.
pub proof fn lemma_delete_lines_moves_lines_up(s: TermState, n: int)
    requires
        state_wf(s),
        n >= 0,
        s.cursor_row <= s.scroll_bottom,
    ensures
        ({
            let h = s.scroll_bottom - s.cursor_row + 1;
            let k = if n < h { n } else { h };
            let t = spec_delete_lines(s, n);
            &&& moved_up(s, t, s.cursor_row, s.scroll_bottom, k)
            &&& t.cursor_row == s.cursor_row && t.cursor_col == s.cursor_col
        }),
{
    let k = min_int(n, s.scroll_bottom - s.cursor_row + 1);
    lemma_region_shift_rows(s, s.cursor_row, s.scroll_bottom, k);
    let t = spec_delete_lines(s, n);
    let u = with_grid(s, region_shifted_up(s.grid, s.cursor_row, s.scroll_bottom, k, s.cols));
    assert(t.grid == u.grid);
    assert forall|r: int| s.scroll_bottom - k < r <= s.scroll_bottom implies #[trigger] row_is_blank(t, r) by {
        assert(row_is_blank(u, r));
    }
}

} // verus!

verus! {

pub open spec fn grid_view(g: Seq<Vec<Cell>>) -> Seq<Seq<Cell>> {
    g.map_values(|r: Vec<Cell>| r@)
}

proof fn lemma_grid_view_push(g: Seq<Vec<Cell>>, v: Vec<Cell>)
    ensures
        grid_view(g.push(v)) == grid_view(g).push(v@),
{
    assert(grid_view(g.push(v)) =~= grid_view(g).push(v@));
}

proof fn lemma_grid_view_update(g: Seq<Vec<Cell>>, i: int, v: Vec<Cell>)
    requires
        0 <= i < g.len(),
    ensures
        grid_view(g.update(i, v)) == grid_view(g).update(i, v@),
{
    assert(grid_view(g.update(i, v)) =~= grid_view(g).update(i, v@));
}

proof fn lemma_grid_view_remove(g: Seq<Vec<Cell>>, i: int)
    requires
        0 <= i < g.len(),
    ensures
        grid_view(g.remove(i)) == grid_view(g).remove(i),
{
    assert(grid_view(g.remove(i)) =~= grid_view(g).remove(i));
}

proof fn lemma_grid_view_insert(g: Seq<Vec<Cell>>, i: int, v: Vec<Cell>)
    requires
        0 <= i <= g.len(),
    ensures
        grid_view(g.insert(i, v)) == grid_view(g).insert(i, v@),
{
    assert(grid_view(g.insert(i, v)) =~= grid_view(g).insert(i, v@));
}

fn new_blank_row(cols: usize) -> (r: Vec<Cell>)
    ensures
        r@ == blank_row(cols as int),
{
    let mut row: Vec<Cell> = Vec::with_capacity(cols);
    let mut i: usize = 0;
    while i < cols
        invariant
            i <= cols,
            row@ == blank_row(i as int),
        decreases cols - i,
    {
        row.push(Cell::default());
        i += 1;
        assert(row@ =~= blank_row(i as int));
    }
    row
}

impl Terminal {
    pub open spec fn wf(&self) -> bool {
        state_wf(self@)
    }

    /// A terminal of `rows` by `cols` blank cells with the cursor home, the
    /// scroll region spanning the screen, default attributes and auto-wrap on.
    pub fn new(rows: usize, cols: usize) -> (t: Self)
        requires
            rows >= 1,
        ensures
            t.wf(),
            t@ == (TermState {
                rows: rows as int,
                cols: cols as int,
                grid: blank_rows(rows as int, cols as int),
                cursor_row: 0,
                cursor_col: 0,
                saved_cursor_row: 0,
                saved_cursor_col: 0,
                scroll_top: 0,
                scroll_bottom: rows - 1,
                fg_color: Color::Default,
                bg_color: Color::Default,
                bold: false,
                underline: false,
                blink: false,
                reverse: false,
                auto_wrap: true,
                origin_mode: false,
                insert_mode: false,
                line_feed_new_line_mode: false,
                dirty: true,
            }),
    {
        let mut grid: Vec<Vec<Cell>> = Vec::with_capacity(rows);
        let mut i: usize = 0;
        while i < rows
            invariant
                i <= rows,
                grid_view(grid@) == blank_rows(i as int, cols as int),
            decreases rows - i,
        {
            let row = new_blank_row(cols);
            proof {
                lemma_grid_view_push(grid@, row);
            }
            grid.push(row);
            i += 1;
            assert(grid_view(grid@) =~= blank_rows(i as int, cols as int));
        }
        Terminal {
            rows,
            cols,
            grid,
            cursor_row: 0,
            cursor_col: 0,
            saved_cursor_row: 0,
            saved_cursor_col: 0,
            scroll_top: 0,
            scroll_bottom: rows - 1,
            fg_color: Color::Default,
            bg_color: Color::Default,
            bold: false,
            underline: false,
            blink: false,
            reverse: false,
            auto_wrap: true,
            origin_mode: false,
            insert_mode: false,
            line_feed_new_line_mode: false,
            dirty: true,
        }
    }

    /// Blanks every cell and moves the cursor home.
    pub fn clear_all(&mut self)
        requires
            old(self).wf(),
        ensures
            final(self).wf(),
            final(self)@ == spec_clear_all(old(self)@),
    {
        let ghost s0 = self@;
        let mut r: usize = 0;
        assert(s0.grid =~= blank_rows(0, s0.cols) + s0.grid.subrange(0, s0.rows));
        assert(self@ =~= with_grid(s0, blank_rows(0, s0.cols) + s0.grid.subrange(0, s0.rows)));
        while r < self.rows
            invariant
                state_wf(s0),
                r <= s0.rows,
                self.grid@.len() == s0.rows,
                self@ == with_grid(s0, blank_rows(r as int, s0.cols) + s0.grid.subrange(r as int, s0.rows)),
            decreases s0.rows - r,
        {
            let row = new_blank_row(self.cols);
            proof {
                lemma_grid_view_update(self.grid@, r as int, row);
            }
            self.grid[r] = row;
            r += 1;
            assert(grid_view(self.grid@) =~= blank_rows(r as int, s0.cols) + s0.grid.subrange(r as int, s0.rows));
            assert(self@ =~= with_grid(s0, blank_rows(r as int, s0.cols) + s0.grid.subrange(r as int, s0.rows)));
        }
        assert(blank_rows(s0.rows, s0.cols) + s0.grid.subrange(s0.rows, s0.rows) =~= blank_rows(s0.rows, s0.cols));
        self.cursor_row = 0;
        self.cursor_col = 0;
        self.dirty = true;
    }
}


proof fn lemma_shift_up_step(g: Seq<Seq<Cell>>, top: int, bottom: int, i: int, cols: int)
    requires
        0 <= top <= bottom < g.len(),
        0 <= i < bottom - top + 1,
    ensures
        region_shifted_up(g, top, bottom, i, cols).remove(top).insert(bottom, blank_row(cols))
            == region_shifted_up(g, top, bottom, i + 1, cols),
{
    let a = region_shifted_up(g, top, bottom, i, cols).remove(top).insert(bottom, blank_row(cols));
    let b = region_shifted_up(g, top, bottom, i + 1, cols);
    assert(a.len() == b.len());
    assert forall|j: int| 0 <= j < a.len() implies a[j] == b[j] by {
        if j < top {
        } else if j < bottom - i {
        } else if j <= bottom {
        } else {
        }
    }
    assert(a =~= b);
}

proof fn lemma_shift_down_step(g: Seq<Seq<Cell>>, top: int, bottom: int, i: int, cols: int)
    requires
        0 <= top <= bottom < g.len(),
        0 <= i < bottom - top + 1,
    ensures
        region_shifted_down(g, top, bottom, i, cols).remove(bottom).insert(top, blank_row(cols))
            == region_shifted_down(g, top, bottom, i + 1, cols),
{
    let a = region_shifted_down(g, top, bottom, i, cols).remove(bottom).insert(top, blank_row(cols));
    let b = region_shifted_down(g, top, bottom, i + 1, cols);
    assert(a.len() == b.len());
    assert forall|j: int| 0 <= j < a.len() implies a[j] == b[j] by {
        if j < top {
        } else if j <= top + i {
        } else if j <= bottom {
        } else {
        }
    }
    assert(a =~= b);
}

proof fn lemma_shift_zero(g: Seq<Seq<Cell>>, top: int, bottom: int, cols: int)
    requires
        0 <= top <= bottom < g.len(),
    ensures
        region_shifted_up(g, top, bottom, 0, cols) == g,
        region_shifted_down(g, top, bottom, 0, cols) == g,
{
    assert(region_shifted_up(g, top, bottom, 0, cols) =~= g);
    assert(region_shifted_down(g, top, bottom, 0, cols) =~= g);
}

/// Shifting rows within the region keeps the shape of the grid.
proof fn lemma_shift_keeps_shape(s: TermState, top: int, bottom: int, k: int)
    requires
        state_wf(s),
        0 <= top <= bottom < s.rows,
        0 <= k <= bottom - top + 1,
    ensures
        state_wf(with_grid(s, region_shifted_up(s.grid, top, bottom, k, s.cols))),
        state_wf(with_grid(s, region_shifted_down(s.grid, top, bottom, k, s.cols))),
{
    let u = region_shifted_up(s.grid, top, bottom, k, s.cols);
    let d = region_shifted_down(s.grid, top, bottom, k, s.cols);
    assert forall|r: int| 0 <= r < s.rows implies #[trigger] u[r].len() == s.cols by {
        if r < top {
        } else if r < bottom + 1 - k {
            assert(u[r] == s.grid[r + k]);
        } else if r <= bottom {
        } else {
        }
    }
    assert forall|r: int| 0 <= r < s.rows implies #[trigger] d[r].len() == s.cols by {
        if r < top {
        } else if r < top + k {
        } else if r <= bottom {
            assert(d[r] == s.grid[r - k]);
        } else {
        }
    }
}

impl Terminal {
    fn shift_region_up(&mut self, top: usize, bottom: usize, k: usize)
        requires
            old(self).wf(),
            top <= bottom < old(self).rows,
            k <= bottom - top + 1,
        ensures
            final(self).wf(),
            final(self)@ == with_grid(old(self)@, region_shifted_up(old(self)@.grid, top as int, bottom as int, k as int, old(self)@.cols)),
    {
        let ghost s0 = self@;
        proof {
            lemma_shift_zero(s0.grid, top as int, bottom as int, s0.cols);
        }
        assert(self@ =~= with_grid(s0, region_shifted_up(s0.grid, top as int, bottom as int, 0, s0.cols)));
        let mut i: usize = 0;
        while i < k
            invariant
                state_wf(s0),
                top <= bottom < s0.rows,
                k <= bottom - top + 1,
                i <= k,
                self.grid@.len() == s0.rows,
                self.cols == s0.cols,
                self@ == with_grid(s0, region_shifted_up(s0.grid, top as int, bottom as int, i as int, s0.cols)),
            decreases k - i,
        {
            let ghost g = self.grid@;
            proof {
                lemma_grid_view_remove(g, top as int);
            }
            let _removed = self.grid.remove(top);
            let row = new_blank_row(self.cols);
            proof {
                lemma_grid_view_insert(g.remove(top as int), bottom as int, row);
                lemma_shift_up_step(s0.grid, top as int, bottom as int, i as int, s0.cols);
            }
            self.grid.insert(bottom, row);
            i += 1;
            assert(self@ =~= with_grid(s0, region_shifted_up(s0.grid, top as int, bottom as int, i as int, s0.cols)));
        }
        proof {
            lemma_shift_keeps_shape(s0, top as int, bottom as int, k as int);
        }
    }

    fn shift_region_down(&mut self, top: usize, bottom: usize, k: usize)
        requires
            old(self).wf(),
            top <= bottom < old(self).rows,
            k <= bottom - top + 1,
        ensures
            final(self).wf(),
            final(self)@ == with_grid(old(self)@, region_shifted_down(old(self)@.grid, top as int, bottom as int, k as int, old(self)@.cols)),
    {
        let ghost s0 = self@;
        proof {
            lemma_shift_zero(s0.grid, top as int, bottom as int, s0.cols);
        }
        assert(self@ =~= with_grid(s0, region_shifted_down(s0.grid, top as int, bottom as int, 0, s0.cols)));
        let mut i: usize = 0;
        while i < k
            invariant
                state_wf(s0),
                top <= bottom < s0.rows,
                k <= bottom - top + 1,
                i <= k,
                self.grid@.len() == s0.rows,
                self.cols == s0.cols,
                self@ == with_grid(s0, region_shifted_down(s0.grid, top as int, bottom as int, i as int, s0.cols)),
            decreases k - i,
        {
            let ghost g = self.grid@;
            proof {
                lemma_grid_view_remove(g, bottom as int);
            }
            let _removed = self.grid.remove(bottom);
            let row = new_blank_row(self.cols);
            proof {
                lemma_grid_view_insert(g.remove(bottom as int), top as int, row);
                lemma_shift_down_step(s0.grid, top as int, bottom as int, i as int, s0.cols);
            }
            self.grid.insert(top, row);
            i += 1;
            assert(self@ =~= with_grid(s0, region_shifted_down(s0.grid, top as int, bottom as int, i as int, s0.cols)));
        }
        proof {
            lemma_shift_keeps_shape(s0, top as int, bottom as int, k as int);
        }
    }

    /// Scrolls the scroll region up by `n` lines (at most its height), blank
    /// lines entering at its bottom.
    pub fn scroll_up(&mut self, n: usize)
        requires
            old(self).wf(),
        ensures
            keeps_saved_cursor(old(self)@, final(self)@),
            final(self).wf(),
            final(self)@ == spec_scroll_up(old(self)@, n as int),
    {
        let height = self.scroll_bottom - self.scroll_top + 1;
        let k = if n < height { n } else { height };
        self.shift_region_up(self.scroll_top, self.scroll_bottom, k);
        self.dirty = true;
    }

    /// Scrolls the scroll region down by `n` lines (at most its height), blank
    /// lines entering at its top.
    pub fn scroll_down(&mut self, n: usize)
        requires
            old(self).wf(),
        ensures
            keeps_saved_cursor(old(self)@, final(self)@),
            final(self).wf(),
            final(self)@ == spec_scroll_down(old(self)@, n as int),
    {
        let height = self.scroll_bottom - self.scroll_top + 1;
        let k = if n < height { n } else { height };
        self.shift_region_down(self.scroll_top, self.scroll_bottom, k);
        self.dirty = true;
    }

    /// Deletes `n` lines at the cursor row (at most down to the bottom of the
    /// scroll region); the lines below move up and blank lines enter at the
    /// bottom of the region.
    pub fn delete_lines(&mut self, n: usize)
        requires
            old(self).wf(),
            old(self).cursor_row <= old(self).scroll_bottom,
        ensures
            keeps_saved_cursor(old(self)@, final(self)@),
            final(self).wf(),
            final(self)@ == spec_delete_lines(old(self)@, n as int),
    {
        let height = self.scroll_bottom - self.cursor_row + 1;
        let k = if n < height { n } else { height };
        self.shift_region_up(self.cursor_row, self.scroll_bottom, k);
        self.dirty = true;
    }

    /// Inserts `n` blank lines at the cursor row (at most down to the bottom
    /// of the scroll region); the lines from it down move down and those
    /// pushed past the bottom of the region are lost.
    pub fn insert_lines(&mut self, n: usize)
        requires
            old(self).wf(),
            old(self).cursor_row <= old(self).scroll_bottom,
        ensures
            keeps_saved_cursor(old(self)@, final(self)@),
            final(self).wf(),
            final(self)@ == spec_insert_lines(old(self)@, n as int),
    {
        let height = self.scroll_bottom - self.cursor_row + 1;
        let k = if n < height { n } else { height };
        self.shift_region_down(self.cursor_row, self.scroll_bottom, k);
        self.dirty = true;
    }
}

impl Terminal {
    /// Moves the cursor to `(row, col)`, each clamped to the last row and
    /// column.
    pub fn set_cursor(&mut self, row: usize, col: usize)
        requires
            old(self).wf(),
        ensures
            keeps_saved_cursor(old(self)@, final(self)@),
            final(self).wf(),
            final(self)@ == spec_set_cursor(old(self)@, row as int, col as int),
    {
        let mut row = row;
        let mut col = col;
        if col >= self.cols {
            col = self.cols.saturating_sub(1);
        }
        if row >= self.rows {
            row = self.rows.saturating_sub(1);
        }
        self.cursor_row = row;
        self.cursor_col = col;
    }

    pub fn move_cursor_up(&mut self, n: usize)
        requires
            old(self).wf(),
        ensures
            keeps_saved_cursor(old(self)@, final(self)@),
            final(self).wf(),
            final(self)@ == spec_move_cursor_up(old(self)@, n as int),
    {
        if self.origin_mode {
            self.cursor_row = self.cursor_row.saturating_sub(n);
            if self.cursor_row < self.scroll_top {
                self.cursor_row = self.scroll_top;
            }
        } else {
            self.cursor_row = self.cursor_row.saturating_sub(n);
        }
    }

    pub fn move_cursor_down(&mut self, n: usize)
        requires
            old(self).wf(),
        ensures
            keeps_saved_cursor(old(self)@, final(self)@),
            final(self).wf(),
            final(self)@ == spec_move_cursor_down(old(self)@, n as int),
    {
        let target = self.cursor_row.saturating_add(n);
        let limit = if self.origin_mode {
            self.scroll_bottom
        } else {
            self.rows - 1
        };
        self.cursor_row = if target < limit {
            target
        } else {
            limit
        };
    }

    pub fn move_cursor_forward(&mut self, n: usize)
        requires
            old(self).wf(),
            old(self).cols >= 1,
        ensures
            keeps_saved_cursor(old(self)@, final(self)@),
            final(self).wf(),
            final(self)@ == spec_move_cursor_forward(old(self)@, n as int),
    {
        let target = self.cursor_col.saturating_add(n);
        let limit = self.cols - 1;
        self.cursor_col = if target < limit {
            target
        } else {
            limit
        };
    }

    pub fn move_cursor_back(&mut self, n: usize)
        requires
            old(self).wf(),
        ensures
            keeps_saved_cursor(old(self)@, final(self)@),
            final(self).wf(),
            final(self)@ == spec_move_cursor_back(old(self)@, n as int),
    {
        self.cursor_col = self.cursor_col.saturating_sub(n);
    }

    pub fn carriage_return(&mut self)
        requires
            old(self).wf(),
        ensures
            keeps_saved_cursor(old(self)@, final(self)@),
            final(self).wf(),
            final(self)@ == with_cursor(old(self)@, old(self)@.cursor_row, 0),
    {
        self.cursor_col = 0;
    }

    fn next_row(&mut self)
        requires
            old(self).wf(),
        ensures
            final(self).wf(),
            final(self)@ == spec_next_row(old(self)@),
    {
        if self.cursor_row == self.scroll_bottom {
            self.scroll_up(1);
        } else if self.cursor_row < self.rows - 1 {
            self.cursor_row += 1;
        }
    }

    /// Moves to the next line, scrolling the region when the cursor is on its
    /// bottom row; in line-feed/new-line mode also returns to column 0.
    pub fn line_feed(&mut self)
        requires
            old(self).wf(),
        ensures
            keeps_saved_cursor(old(self)@, final(self)@),
            final(self).wf(),
            final(self)@ == spec_line_feed(old(self)@),
    {
        if self.line_feed_new_line_mode {
            self.cursor_col = 0;
        }
        self.next_row();
        self.dirty = true;
    }

    pub fn backspace(&mut self)
        requires
            old(self).wf(),
        ensures
            keeps_saved_cursor(old(self)@, final(self)@),
            final(self).wf(),
            final(self)@ == spec_backspace(old(self)@),
    {
        if self.cursor_col > 0 {
            self.cursor_col -= 1;
        }
    }

    pub fn tab(&mut self)
        requires
            old(self).wf(),
            old(self).cols >= 1,
        ensures
            keeps_saved_cursor(old(self)@, final(self)@),
            final(self).wf(),
            final(self)@ == spec_tab(old(self)@),
    {
        let limit = self.cols - 1;
        let col = self.cursor_col;
        // The next tab stop is `col - col % 8 + 8`; past `limit` it is clamped.
        assert(col / 8 * 8 + col % 8 == col) by (nonlinear_arith);
        let base = col - col % 8;
        if base > limit || limit - base < 8 {
            self.cursor_col = limit;
        } else {
            self.cursor_col = base + 8;
        }
    }

    pub fn save_cursor(&mut self)
        requires
            old(self).wf(),
        ensures
            final(self).wf(),
            final(self)@ == spec_save_cursor(old(self)@),
    {
        self.saved_cursor_row = self.cursor_row;
        self.saved_cursor_col = self.cursor_col;
    }

    pub fn restore_cursor(&mut self)
        requires
            old(self).wf(),
        ensures
            keeps_saved_cursor(old(self)@, final(self)@),
            final(self).wf(),
            final(self)@ == spec_restore_cursor(old(self)@),
    {
        self.cursor_row = self.saved_cursor_row;
        self.cursor_col = self.saved_cursor_col;
    }

    pub fn set_scroll_region(&mut self, top: usize, bottom: usize)
        requires
            old(self).wf(),
        ensures
            keeps_saved_cursor(old(self)@, final(self)@),
            final(self).wf(),
            final(self)@ == spec_set_scroll_region(old(self)@, top as int, bottom as int),
    {
        let last = self.rows - 1;
        self.scroll_top = if top < last {
            top
        } else {
            last
        };
        self.scroll_bottom = if bottom < last {
            bottom
        } else {
            last
        };
        if self.scroll_top >= self.scroll_bottom {
            self.scroll_top = 0;
            self.scroll_bottom = last;
        }
    }

    pub fn reset_attributes(&mut self)
        requires
            old(self).wf(),
        ensures
            keeps_saved_cursor(old(self)@, final(self)@),
            final(self).wf(),
            final(self)@ == spec_reset_attributes(old(self)@),
    {
        self.fg_color = Color::Default;
        self.bg_color = Color::Default;
        self.bold = false;
        self.underline = false;
        self.blink = false;
        self.reverse = false;
    }

    pub fn set_attribute(&mut self, attr: Attribute)
        requires
            old(self).wf(),
        ensures
            keeps_saved_cursor(old(self)@, final(self)@),
            final(self).wf(),
            final(self)@ == spec_set_attribute(old(self)@, attr),
    {
        match attr {
            Attribute::Reset => self.reset_attributes(),
            Attribute::Bold => self.bold = true,
            Attribute::Underline => self.underline = true,
            Attribute::Blink => self.blink = true,
            Attribute::Reverse => self.reverse = true,
            Attribute::Foreground(c) => self.fg_color = c,
            Attribute::Background(c) => self.bg_color = c,
        }
    }
}

/// Updating one row of the grid with a row of the same length keeps the shape.
proof fn lemma_row_update_keeps_shape(s: TermState, r: int, row: Seq<Cell>)
    requires
        state_wf(s),
        0 <= r < s.rows,
        row.len() == s.cols,
    ensures
        state_wf(with_grid(s, s.grid.update(r, row))),
{
    let g = s.grid.update(r, row);
    assert forall|i: int| 0 <= i < s.rows implies #[trigger] g[i].len() == s.cols by {
        if i == r {
        } else {
        }
    }
}

proof fn lemma_sanitize_step(row: Seq<Cell>, cols: int, col: int)
    requires
        0 <= col < cols,
        row.len() == cols,
    ensures
        sanitized_from(row, cols, col) == ({
            let w = row[col].width as int;
            if w == 0 {
                let r2 = if col == 0 || row[col - 1].width <= 1 {
                    row.update(col, blank_cell())
                } else {
                    row
                };
                sanitized_from(r2, cols, col + 1)
            } else if w > 1 {
                if col + w > cols {
                    sanitized_from(row.update(col, blank_cell()), cols, col + 1)
                } else {
                    sanitized_from(row, cols, col + w)
                }
            } else {
                sanitized_from(row, cols, col + 1)
            }
        }),
{
    reveal(sanitized_from);
}

proof fn lemma_sanitize_done(row: Seq<Cell>, cols: int, col: int)
    requires
        col >= cols,
    ensures
        sanitized_from(row, cols, col) == row,
{
    reveal(sanitized_from);
}

proof fn lemma_sanitize_len(row: Seq<Cell>, cols: int, col: int)
    ensures
        sanitized_from(row, cols, col).len() == row.len(),
    decreases cols - col,
{
    reveal(sanitized_from);
    if col < 0 || col >= cols || col >= row.len() {
    } else {
        let w = row[col].width as int;
        if w == 0 {
            let r2 = if col == 0 || row[col - 1].width <= 1 {
                row.update(col, blank_cell())
            } else {
                row
            };
            lemma_sanitize_len(r2, cols, col + 1);
        } else if w > 1 {
            if col + w > cols {
                lemma_sanitize_len(row.update(col, blank_cell()), cols, col + 1);
            } else {
                lemma_sanitize_len(row, cols, col + w);
            }
        } else {
            lemma_sanitize_len(row, cols, col + 1);
        }
    }
}

fn sanitize_cells(cells: &mut Vec<Cell>, cols: usize)
    requires
        old(cells)@.len() == cols,
    ensures
        final(cells)@ == sanitized_from(old(cells)@, cols as int, 0),
{
    let ghost target = sanitized_from(cells@, cols as int, 0);
    let mut col: usize = 0;
    while col < cols
        invariant
            cells@.len() == cols,
            sanitized_from(cells@, cols as int, col as int) == target,
        decreases cols - col,
    {
        proof {
            lemma_sanitize_step(cells@, cols as int, col as int);
        }
        let w = cells[col].width;
        if w == 0 {
            if col == 0 || cells[col - 1].width <= 1 {
                cells.set(col, Cell::default());
            }
            col += 1;
        } else if w > 1 {
            if (w as usize) > cols - col {
                cells.set(col, Cell::default());
                col += 1;
            } else {
                col = col + w as usize;
            }
        } else {
            col += 1;
        }
    }
    proof {
        lemma_sanitize_done(cells@, cols as int, col as int);
    }
}

/// Moves the cells from `col` on right by `w` and blanks the opened cells.
fn shift_cells_right(cells: &mut Vec<Cell>, col: usize, w: usize, blank: Cell)
    requires
        col + w <= old(cells)@.len(),
    ensures
        final(cells)@ == shifted_right(old(cells)@, old(cells)@.len() as int, col as int, w as int, blank),
{
    let ghost old_row = cells@;
    let cols = cells.len();
    let mut c = cols - w;
    while c > col
        invariant
            cells@.len() == old_row.len() == cols,
            col + w <= cols,
            col <= c <= cols - w,
            forall|i: int| 0 <= i < c + w ==> #[trigger] cells@[i] == old_row[i],
            forall|i: int| c + w <= i < cols ==> #[trigger] cells@[i] == old_row[i - w],
        decreases c,
    {
        c -= 1;
        let moved = cells[c];
        cells.set(c + w, moved);
    }
    let mut b = col;
    while b < col + w
        invariant
            cells@.len() == old_row.len() == cols,
            col + w <= cols,
            col <= b <= col + w,
            forall|i: int| 0 <= i < col ==> #[trigger] cells@[i] == old_row[i],
            forall|i: int| col <= i < b ==> #[trigger] cells@[i] == blank,
            forall|i: int| b <= i < col + w ==> #[trigger] cells@[i] == old_row[i],
            forall|i: int| col + w <= i < cols ==> #[trigger] cells@[i] == old_row[i - w],
        decreases col + w - b,
    {
        cells.set(b, blank);
        b += 1;
    }
    assert(cells@ =~= shifted_right(old_row, cols as int, col as int, w as int, blank));
}

/// Moves the cells from `c + k` on left to `c` and puts `blank` in the last
/// `k` cells.
fn shift_cells_left(cells: &mut Vec<Cell>, c: usize, k: usize, blank: Cell)
    requires
        c + k <= old(cells)@.len(),
    ensures
        final(cells)@ == shifted_left(old(cells)@, old(cells)@.len() as int, c as int, k as int, blank),
{
    let ghost old_row = cells@;
    let cols = cells.len();
    let mut i = c;
    while i < cols - k
        invariant
            cells@.len() == old_row.len() == cols,
            c + k <= cols,
            c <= i <= cols - k,
            forall|j: int| 0 <= j < c ==> #[trigger] cells@[j] == old_row[j],
            forall|j: int| c <= j < i ==> #[trigger] cells@[j] == old_row[j + k],
            forall|j: int| i <= j < cols ==> #[trigger] cells@[j] == old_row[j],
        decreases cols - k - i,
    {
        let moved = cells[i + k];
        cells.set(i, moved);
        i += 1;
    }
    let mut b = cols - k;
    while b < cols
        invariant
            cells@.len() == old_row.len() == cols,
            c + k <= cols,
            cols - k <= b <= cols,
            forall|j: int| 0 <= j < c ==> #[trigger] cells@[j] == old_row[j],
            forall|j: int| c <= j < cols - k ==> #[trigger] cells@[j] == old_row[j + k],
            forall|j: int| cols - k <= j < b ==> #[trigger] cells@[j] == blank,
        decreases cols - b,
    {
        cells.set(b, blank);
        b += 1;
    }
    assert(cells@ =~= shifted_left(old_row, cols as int, c as int, k as int, blank));
}

proof fn lemma_full_clear(row: Seq<Cell>, cols: int, bg: Color)
    requires
        row.len() == cols,
        cols >= 0,
    ensures
        cleared_row(row, cols, 0, cols, bg) == blank_row_on(cols, bg),
{
    assert(cleared_row(row, cols, 0, cols, bg) =~= blank_row_on(cols, bg));
}

impl Terminal {
    /// Replaces one cell.
    fn set_cell(&mut self, row: usize, col: usize, c: Cell)
        requires
            old(self).wf(),
            row < old(self).rows,
            col < old(self).cols,
        ensures
            final(self).wf(),
            final(self)@ == with_grid(old(self)@, old(self)@.grid.update(row as int, old(self)@.grid[row as int].update(col as int, c))),
    {
        let ghost s0 = self@;
        let ghost g0 = self.grid@;
        self.grid[row][col] = c;
        proof {
            lemma_grid_view_update(g0, row as int, self.grid@[row as int]);
            assert(self.grid@ == g0.update(row as int, self.grid@[row as int]));
            lemma_row_update_keeps_shape(s0, row as int, s0.grid[row as int].update(col as int, c));
        }
        assert(self@ =~= with_grid(s0, s0.grid.update(row as int, s0.grid[row as int].update(col as int, c))));
    }

    fn expand_range_for_wide_cells(&self, row: usize, start: usize, end: usize) -> (r: (usize, usize))
        requires
            self.wf(),
            row < self.rows,
        ensures
            r.0 as int == expand_range(self@.grid[row as int], self@.cols, start as int, end as int).0,
            r.1 as int == expand_range(self@.grid[row as int], self@.cols, start as int, end as int).1,
            r.0 <= self.cols,
            r.1 <= self.cols,
            start <= end ==> r.0 <= r.1,
    {
        let mut start = if start < self.cols {
            start
        } else {
            self.cols
        };
        let mut end = if end < self.cols {
            end
        } else {
            self.cols
        };
        if start < end && start > 0 && self.grid[row][start].width == 0 {
            start -= 1;
        }
        if start < end && end < self.cols && self.grid[row][end].width == 0 {
            end += 1;
        }
        (start, end)
    }

    fn blank_cell_for_current_background(&self) -> (c: Cell)
        ensures
            c == blank_on(self.bg_color),
    {
        Cell { bg_color: self.bg_color, ..Default::default() }
    }

    /// Blanks cells `start..end` of `row` in the current background, widened
    /// over wide characters.
    fn clear_cell_range(&mut self, row: usize, start: usize, end: usize)
        requires
            old(self).wf(),
            row < old(self).rows,
        ensures
            final(self).wf(),
            final(self)@ == spec_clear_range(old(self)@, row as int, start as int, end as int),
    {
        let ghost s0 = self@;
        let (a, b) = self.expand_range_for_wide_cells(row, start, end);
        let blank = self.blank_cell_for_current_background();
        if a >= b {
            assert(fill_range(s0.grid[row as int], a as int, b as int, blank) =~= s0.grid[row as int]);
            assert(s0.grid.update(row as int, s0.grid[row as int]) =~= s0.grid);
            assert(self@ =~= spec_clear_range(s0, row as int, start as int, end as int));
            return;
        }
        let mut col = a;
        assert(fill_range(s0.grid[row as int], a as int, a as int, blank) =~= s0.grid[row as int]);
        assert(s0.grid.update(row as int, s0.grid[row as int]) =~= s0.grid);
        assert(self@ =~= with_grid(s0, s0.grid.update(row as int, fill_range(s0.grid[row as int], a as int, col as int, blank))));
        while col < b
            invariant
                state_wf(s0),
                row < s0.rows,
                a <= col <= b <= s0.cols,
                blank == blank_on(s0.bg_color),
                self.wf(),
                self@ == with_grid(s0, s0.grid.update(row as int, fill_range(s0.grid[row as int], a as int, col as int, blank))),
            decreases b - col,
        {
            let ghost before = fill_range(s0.grid[row as int], a as int, col as int, blank);
            self.set_cell(row, col, blank);
            col += 1;
            assert(before.update(col - 1, blank) =~= fill_range(s0.grid[row as int], a as int, col as int, blank));
            assert(self@ =~= with_grid(s0, s0.grid.update(row as int, fill_range(s0.grid[row as int], a as int, col as int, blank))));
        }
    }

    /// Draws `ch` with the current attributes at `(row, col)` and marks the
    /// following `width - 1` cells on the screen as its continuation cells.
    fn write_cell(&mut self, row: usize, col: usize, ch: char, width: u8)
        requires
            old(self).wf(),
            row < old(self).rows,
            col < old(self).cols,
        ensures
            final(self).wf(),
            final(self)@ == with_grid(old(self)@, old(self)@.grid.update(row as int, written_row(old(self)@.grid[row as int], old(self)@.cols, col as int, drawn_cell(old(self)@, ch, width), drawn_cell(old(self)@, '\0', 0), width as int))),
    {
        let ghost s0 = self@;
        let lead = Cell {
            ch,
            width,
            fg_color: self.fg_color,
            bg_color: self.bg_color,
            bold: self.bold,
            underline: self.underline,
            blink: self.blink,
            reverse: self.reverse,
        };
        let cont = Cell {
            ch: '\0',
            width: 0,
            fg_color: self.fg_color,
            bg_color: self.bg_color,
            bold: self.bold,
            underline: self.underline,
            blink: self.blink,
            reverse: self.reverse,
        };
        let ghost row0 = s0.grid[row as int];
        self.set_cell(row, col, lead);
        let mut i: usize = 1;
        let w = width as usize;
        assert(row0.update(col as int, lead) =~= written_row(row0, s0.cols, col as int, lead, cont, 1));
        assert(self@ =~= with_grid(s0, s0.grid.update(row as int, written_row(row0, s0.cols, col as int, lead, cont, 1))));
        while i < w
            invariant
                state_wf(s0),
                row < s0.rows,
                col < s0.cols,
                row0 == s0.grid[row as int],
                w == width,
                1 <= i,
                i <= w || w == 0,
                w == 0 ==> i == 1,
                lead == drawn_cell(s0, ch, width),
                cont == drawn_cell(s0, '\0', 0),
                self.wf(),
                self.cols == s0.cols,
                self@ == with_grid(s0, s0.grid.update(row as int, written_row(row0, s0.cols, col as int, lead, cont, i as int))),
            decreases w - i,
        {
            let ghost before = written_row(row0, s0.cols, col as int, lead, cont, i as int);
            if i < self.cols - col {
                self.set_cell(row, col + i, cont);
                assert(before.update(col + i, cont) =~= written_row(row0, s0.cols, col as int, lead, cont, i + 1));
            } else {
                assert(before =~= written_row(row0, s0.cols, col as int, lead, cont, i + 1));
            }
            i += 1;
            assert(self@ =~= with_grid(s0, s0.grid.update(row as int, written_row(row0, s0.cols, col as int, lead, cont, i as int))));
        }
        proof {
            if w == 0 {
                assert(i == 1);
                assert(written_row(row0, s0.cols, col as int, lead, cont, 1) =~= written_row(row0, s0.cols, col as int, lead, cont, 0));
            } else {
                assert(i == w);
            }
        }
    }

    /// Repairs `row` (see [`sanitized_from`]).
    fn sanitize_row(&mut self, row: usize)
        requires
            old(self).wf(),
            row < old(self).rows,
        ensures
            final(self).wf(),
            final(self)@ == with_grid(old(self)@, old(self)@.grid.update(row as int, sanitized_from(old(self)@.grid[row as int], old(self)@.cols, 0))),
    {
        let ghost s0 = self@;
        let ghost g0 = self.grid@;
        let cols = self.cols;
        sanitize_cells(&mut self.grid[row], cols);
        proof {
            lemma_grid_view_update(g0, row as int, self.grid@[row as int]);
            lemma_sanitize_len(s0.grid[row as int], s0.cols, 0);
            lemma_row_update_keeps_shape(s0, row as int, sanitized_from(s0.grid[row as int], s0.cols, 0));
        }
        assert(self@ =~= with_grid(s0, s0.grid.update(row as int, sanitized_from(s0.grid[row as int], s0.cols, 0))));
    }

    /// Inserts `ch` of `width` cells at the cursor, moving the rest of the
    /// line right; does nothing when it would not fit before the right edge.
    pub fn insert_char(&mut self, ch: char, width: u8)
        requires
            old(self).wf(),
            width > 0 || old(self).cursor_col < old(self).cols,
        ensures
            keeps_saved_cursor(old(self)@, final(self)@),
            final(self).wf(),
            final(self)@ == spec_insert_char(old(self)@, ch, width),
    {
        let ghost s0 = self@;
        let row = self.cursor_row;
        let col = self.cursor_col;
        let w = width as usize;
        if w > self.cols - col {
            return;
        }
        let blank = self.blank_cell_for_current_background();
        let ghost g0 = self.grid@;
        let ghost shifted = shifted_right(s0.grid[row as int], s0.cols, col as int, w as int, blank);
        shift_cells_right(&mut self.grid[row], col, w, blank);
        proof {
            lemma_grid_view_update(g0, row as int, self.grid@[row as int]);
            lemma_row_update_keeps_shape(s0, row as int, shifted);
        }
        assert(self@ =~= with_grid(s0, s0.grid.update(row as int, shifted)));
        let ghost s1 = self@;
        self.write_cell(row, col, ch, width);
        let ghost s2 = self@;
        self.sanitize_row(row);
        self.advance_cursor(width);
        proof {
            assert(s1.grid[row as int] == shifted);
            assert(s2.grid[row as int] == written_row(shifted, s0.cols, col as int, drawn_cell(s0, ch, width), drawn_cell(s0, '\0', 0), w as int));
            assert(self@ =~= spec_insert_char(s0, ch, width));
        }
    }

    fn advance_cursor(&mut self, width: u8)
        requires
            old(self).wf(),
        ensures
            final(self).wf(),
            final(self)@ == with_cursor(old(self)@, old(self)@.cursor_row, min_int(old(self)@.cursor_col + width, old(self)@.cols)),
    {
        let w = width as usize;
        if w > self.cols - self.cursor_col {
            self.cursor_col = self.cols;
        } else {
            self.cursor_col += w;
        }
    }
}

impl Terminal {
    /// Draws `ch` at the cursor with the current attributes (see
    /// [`spec_put_char`]).
    pub fn put_char(&mut self, ch: char)
        requires
            old(self).wf(),
            old(self).cols > 0 || char_cell_width(ch) > 0,
        ensures
            keeps_saved_cursor(old(self)@, final(self)@),
            final(self).wf(),
            final(self)@ == spec_put_char(old(self)@, ch),
            (' ' <= ch && ch <= '~') ==> char_cell_width(ch) == 1,
    {
        let width = char_width(ch);
        let w = width as usize;
        if self.cursor_col >= self.cols || w > self.cols - self.cursor_col {
            if !self.auto_wrap {
                self.cursor_col = self.cols.saturating_sub(1);
                return;
            }
            self.cursor_col = 0;
            self.next_row();
        }
        self.draw_char(ch, width);
    }

    fn draw_char(&mut self, ch: char, width: u8)
        requires
            old(self).wf(),
            width == char_cell_width(ch),
            old(self).cols > 0 || width > 0,
            old(self).cursor_col < old(self).cols || (width as int) + old(self).cursor_col > old(self).cols,
        ensures
            final(self).wf(),
            final(self)@ == spec_draw_char(old(self)@, ch),
    {
        let ghost s0 = self@;
        let w = width as usize;
        if w > self.cols - self.cursor_col {
            return;
        }
        if self.insert_mode {
            self.insert_char(ch, width);
        } else {
            let row = self.cursor_row;
            let col = self.cursor_col;
            self.clear_cell_range(row, col, col + w);
            let ghost s1 = self@;
            self.write_cell(row, col, ch, width);
            let ghost s2 = self@;
            self.advance_cursor(width);
            proof {
                let cleared = cleared_row(s0.grid[row as int], s0.cols, col as int, col + w, s0.bg_color);
                assert(s1.grid[row as int] == cleared);
                assert(s2.grid =~= s0.grid.update(row as int, written_row(cleared, s0.cols, col as int, drawn_cell(s0, ch, width), drawn_cell(s0, '\0', 0), w as int)));
            }
        }
        self.dirty = true;
        assert(self@ =~= spec_draw_char(s0, ch));
    }

    /// Blanks `n` cells from the cursor on, in the current background.
    pub fn erase_chars(&mut self, n: usize)
        requires
            old(self).wf(),
        ensures
            keeps_saved_cursor(old(self)@, final(self)@),
            final(self).wf(),
            final(self)@ == spec_erase_chars(old(self)@, n as int),
    {
        let row = self.cursor_row;
        let start = self.cursor_col;
        let end = if n > self.cols - start {
            self.cols
        } else {
            start + n
        };
        self.clear_cell_range(row, start, end);
        self.dirty = true;
    }

    /// Deletes `n` cells at the cursor (see [`spec_delete_chars`]).
    pub fn delete_chars(&mut self, n: usize)
        requires
            old(self).wf(),
        ensures
            keeps_saved_cursor(old(self)@, final(self)@),
            final(self).wf(),
            final(self)@ == spec_delete_chars(old(self)@, n as int),
    {
        let ghost s0 = self@;
        let row = self.cursor_row;
        let col = self.cursor_col;
        let end = if n > self.cols - col {
            self.cols
        } else {
            col + n
        };
        let (c, e) = self.expand_range_for_wide_cells(row, col, end);
        self.shift_row_left(row, c, e - c);
        let ghost s1 = self@;
        self.sanitize_row(row);
        self.dirty = true;
        proof {
            let ex = expand_range(s0.grid[row as int], s0.cols, col as int, min_int(col + n, s0.cols));
            assert(end as int == min_int(col + n, s0.cols));
            assert(c as int == ex.0 && e as int == ex.1);
            let shifted = shifted_left(s0.grid[row as int], s0.cols, ex.0, ex.1 - ex.0, blank_on(s0.bg_color));
            assert(s1.grid[row as int] == shifted);
        }
        assert(self@ =~= spec_delete_chars(s0, n as int));
    }

    /// Moves the cells of `row` from `c + k` on left to `c`, blanks in the
    /// current background entering at the right edge.
    fn shift_row_left(&mut self, row: usize, c: usize, k: usize)
        requires
            old(self).wf(),
            row < old(self).rows,
            c + k <= old(self).cols,
        ensures
            final(self).wf(),
            final(self)@ == with_grid(old(self)@, old(self)@.grid.update(row as int, shifted_left(old(self)@.grid[row as int], old(self)@.cols, c as int, k as int, blank_on(old(self)@.bg_color)))),
    {
        let ghost s0 = self@;
        let blank = self.blank_cell_for_current_background();
        let ghost g0 = self.grid@;
        let ghost shifted = shifted_left(s0.grid[row as int], s0.cols, c as int, k as int, blank);
        shift_cells_left(&mut self.grid[row], c, k, blank);
        proof {
            lemma_grid_view_update(g0, row as int, self.grid@[row as int]);
            lemma_row_update_keeps_shape(s0, row as int, shifted);
        }
        assert(self@ =~= with_grid(s0, s0.grid.update(row as int, shifted)));
    }

    pub fn clear_line(&mut self, mode: ClearLineMode)
        requires
            old(self).wf(),
        ensures
            keeps_saved_cursor(old(self)@, final(self)@),
            final(self).wf(),
            final(self)@ == spec_clear_line(old(self)@, mode),
    {
        let row = self.cursor_row;
        match mode {
            ClearLineMode::FromCursor => {
                self.clear_cell_range(row, self.cursor_col, self.cols);
            },
            ClearLineMode::ToCursor => {
                self.clear_cell_range(row, 0, self.cursor_col.saturating_add(1));
            },
            ClearLineMode::All => {
                self.clear_cell_range(row, 0, self.cols);
            },
        }
        self.dirty = true;
    }

    pub fn clear_screen(&mut self, mode: ClearScreenMode)
        requires
            old(self).wf(),
        ensures
            keeps_saved_cursor(old(self)@, final(self)@),
            final(self).wf(),
            final(self)@ == spec_clear_screen(old(self)@, mode),
    {
        let ghost s0 = self@;
        match mode {
            ClearScreenMode::FromCursor => {
                self.clear_cell_range(self.cursor_row, self.cursor_col, self.cols);
                let from = self.cursor_row + 1;
                let rows = self.rows;
                self.blank_rows(from, rows);
                self.dirty = true;
                assert(self@ =~= spec_clear_screen(s0, mode));
            },
            ClearScreenMode::ToCursor => {
                let upto = self.cursor_row;
                self.blank_rows(0, upto);
                let ghost s1 = self@;
                self.clear_cell_range(self.cursor_row, 0, self.cursor_col.saturating_add(1));
                self.dirty = true;
                proof {
                    assert(s1.grid[s0.cursor_row] == s0.grid[s0.cursor_row]);
                }
                assert(self@ =~= spec_clear_screen(s0, mode));
            },
            ClearScreenMode::All => {
                self.clear_all();
            },
        }
    }

    /// Blanks the rows `from..to` in the current background.
    fn blank_rows(&mut self, from: usize, to: usize)
        requires
            old(self).wf(),
            from <= to <= old(self).rows,
        ensures
            final(self).wf(),
            final(self)@ == with_grid(old(self)@, rows_blanked(old(self)@.grid, from as int, to as int, old(self)@.cols, old(self)@.bg_color)),
    {
        let ghost s0 = self@;
        let mut r = from;
        assert(rows_blanked(s0.grid, from as int, from as int, s0.cols, s0.bg_color) =~= s0.grid);
        assert(self@ =~= with_grid(s0, rows_blanked(s0.grid, from as int, r as int, s0.cols, s0.bg_color)));
        while r < to
            invariant
                state_wf(s0),
                from <= r <= to <= s0.rows,
                self.wf(),
                self@ == with_grid(s0, rows_blanked(s0.grid, from as int, r as int, s0.cols, s0.bg_color)),
            decreases to - r,
        {
            proof {
                lemma_full_clear(self@.grid[r as int], self@.cols, self@.bg_color);
            }
            self.clear_cell_range(r, 0, self.cols);
            r += 1;
            assert(self@ =~= with_grid(s0, rows_blanked(s0.grid, from as int, r as int, s0.cols, s0.bg_color)));
        }
    }
}

} // verus!
