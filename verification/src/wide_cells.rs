//! Wide characters stay whole: every two-cell character is followed by its
//! continuation cell and every continuation cell follows a two-cell
//! character, and the screen operations keep it so.

use vstd::prelude::*;

use crate::cell::{blank_cell, Cell, Color};
use crate::width::char_cell_width;
use crate::terminal::{
    blank_on, blank_row, blank_row_on, blank_rows, cleared_row, drawn_cell, expand_range,
    fill_range, min_int, region_shifted_down, region_shifted_up, rows_blanked, sanitized_from,
    shifted_left, shifted_right, spec_clear_all, spec_clear_line, spec_clear_screen,
    spec_delete_chars, spec_delete_lines, spec_draw_char, spec_next_row, spec_put_char, needs_wrap, spec_erase_chars, spec_insert_char, spec_insert_lines,
    spec_line_feed, spec_scroll_down, spec_scroll_up, state_wf, touched, with_cursor, with_grid,
    written_row, ClearLineMode, ClearScreenMode, TermState,
};

verus! {

/// A row of `cols` cells in which wide characters are whole: no cell is more
/// than two columns wide, a two-column cell is followed on the row by a
/// zero-width `'\0'` continuation cell, and a zero-width cell follows a
/// two-column cell.
pub open spec fn row_wide_ok(row: Seq<Cell>, cols: int) -> bool {
    forall|c: int|
        0 <= c < cols ==> {
            &&& #[trigger] row[c].width <= 2
            &&& (row[c].width == 0 ==> c > 0 && row[c - 1].width == 2)
            &&& (row[c].width == 2 ==> c + 1 < cols && row[c + 1].width == 0 && row[c + 1].ch == '\0')
        }
}

/// Every row of the screen has its wide characters whole.
pub open spec fn grid_wide_ok(s: TermState) -> bool {
    forall|r: int| 0 <= r < s.rows ==> #[trigger] row_wide_ok(s.grid[r], s.cols)
}

/// Whether the cursor stands on the right half of a wide character.
pub open spec fn on_continuation(s: TermState) -> bool {
    s.cursor_col < s.cols && s.grid[s.cursor_row][s.cursor_col].width == 0
}

/// Clearing a range keeps wide characters whole; after it, the range is
/// blank, the cell just after it is not a continuation cell and the cell just
/// before it is not a wide character.
proof fn lemma_cleared_row(row: Seq<Cell>, cols: int, start: int, end: int, bg: Color)
    requires
        row.len() == cols,
        row_wide_ok(row, cols),
        0 <= start,
    ensures
        cleared_row(row, cols, start, end, bg).len() == cols,
        row_wide_ok(cleared_row(row, cols, start, end, bg), cols),
        ({
            let s0 = min_int(start, cols);
            let e0 = min_int(end, cols);
            let cl = cleared_row(row, cols, start, end, bg);
            s0 < e0 ==> {
                &&& forall|i: int| s0 <= i < e0 ==> #[trigger] cl[i] == blank_on(bg)
                &&& (e0 < cols ==> cl[e0].width != 0)
                &&& (s0 > 0 ==> cl[s0 - 1].width != 2)
            }
        }),
{
    let (a, b) = expand_range(row, cols, start, end);
    let cl = cleared_row(row, cols, start, end, bg);
    let s0 = min_int(start, cols);
    let e0 = min_int(end, cols);
    assert(cl == fill_range(row, a, b, blank_on(bg)));
    assert forall|c: int| 0 <= c < cols implies {
        &&& #[trigger] cl[c].width <= 2
        &&& (cl[c].width == 0 ==> c > 0 && cl[c - 1].width == 2)
        &&& (cl[c].width == 2 ==> c + 1 < cols && cl[c + 1].width == 0 && cl[c + 1].ch == '\0')
    } by {
        assert(row[c].width <= 2);
        if a <= c && c < b {
        } else {
            assert(cl[c] == row[c]);
            if row[c].width == 0 {
                assert(row[c - 1].width == 2);
                if a <= c - 1 && c - 1 < b {
                    assert(c == b);
                    assert(false);
                }
            }
            if row[c].width == 2 {
                assert(row[c + 1].width == 0);
                if a <= c + 1 && c + 1 < b {
                    assert(c + 1 == a);
                    assert(false);
                }
            }
        }
    }
    if s0 < e0 {
        if e0 < cols {
            if b == e0 {
                assert(row[e0].width != 0);
            }
        }
        if s0 > 0 {
            if a == s0 {
                assert(row[s0].width != 0);
                assert(row[s0].width <= 2);
            }
        }
    }
}

/// Writing a character of one or two cells over cells whose neighbours do
/// not reach into them keeps wide characters whole.
proof fn lemma_written_row(row: Seq<Cell>, cols: int, col: int, lead: Cell, cont: Cell, w: int)
    requires
        row.len() == cols,
        row_wide_ok(row, cols),
        0 <= col,
        1 <= w <= 2,
        col + w <= cols,
        lead.width == w,
        cont.width == 0,
        cont.ch == '\0',
        col + w < cols ==> row[col + w].width != 0,
        col > 0 ==> row[col - 1].width != 2,
    ensures
        written_row(row, cols, col, lead, cont, w).len() == cols,
        row_wide_ok(written_row(row, cols, col, lead, cont, w), cols),
{
    let wr = written_row(row, cols, col, lead, cont, w);
    assert forall|c: int| 0 <= c < cols implies {
        &&& #[trigger] wr[c].width <= 2
        &&& (wr[c].width == 0 ==> c > 0 && wr[c - 1].width == 2)
        &&& (wr[c].width == 2 ==> c + 1 < cols && wr[c + 1].width == 0 && wr[c + 1].ch == '\0')
    } by {
        assert(row[c].width <= 2);
        if c == col {
        } else if col < c && c < col + w {
        } else {
            assert(wr[c] == row[c]);
            if row[c].width == 0 {
                assert(row[c - 1].width == 2);
            }
            if row[c].width == 2 {
                assert(row[c + 1].width == 0);
            }
        }
    }
}

/// A row that keeps wide characters whole except that its last cell may be
/// a two-column character cut off by the right edge.
spec fn row_wide_ok_but_last(row: Seq<Cell>, cols: int) -> bool {
    forall|c: int|
        0 <= c < cols ==> {
            &&& #[trigger] row[c].width <= 2
            &&& (row[c].width == 0 ==> c > 0 && row[c - 1].width == 2)
            &&& (row[c].width == 2 && c + 1 < cols ==> row[c + 1].width == 0 && row[c + 1].ch == '\0')
        }
}

/// Such a row with a cut-off last character blanked.
spec fn last_wide_blanked(row: Seq<Cell>, cols: int) -> Seq<Cell> {
    if cols > 0 && row[cols - 1].width == 2 {
        row.update(cols - 1, blank_cell())
    } else {
        row
    }
}

/// Repairing such a row from a character boundary on only blanks a cut-off
/// last character.
proof fn lemma_sanitize_nearly_whole(row: Seq<Cell>, cols: int, col: int)
    requires
        row.len() == cols,
        row_wide_ok_but_last(row, cols),
        0 <= col <= cols,
    ensures
        sanitized_from(row, cols, col) == (if col < cols { last_wide_blanked(row, cols) } else { row }),
    decreases cols - col,
{
    reveal(sanitized_from);
    if col < cols {
        let w = row[col].width as int;
        assert(row[col].width <= 2);
        if w == 0 {
            assert(row[col - 1].width == 2);
            lemma_sanitize_nearly_whole(row, cols, col + 1);
        } else if w > 1 {
            if col + w > cols {
                assert(col == cols - 1);
                let r2 = row.update(col, blank_cell());
                assert(sanitized_from(r2, cols, col + 1) == r2);
            } else {
                assert(row[col + 1].width == 0);
                lemma_sanitize_nearly_whole(row, cols, col + 2);
            }
        } else {
            lemma_sanitize_nearly_whole(row, cols, col + 1);
        }
    }
}

/// Repairing a row with whole wide characters changes nothing, and blanking a
/// cut-off last character makes the nearly whole row whole.
proof fn lemma_sanitize_whole(row: Seq<Cell>, cols: int)
    requires
        row.len() == cols,
        row_wide_ok_but_last(row, cols),
    ensures
        sanitized_from(row, cols, 0) == last_wide_blanked(row, cols),
        row_wide_ok(last_wide_blanked(row, cols), cols),
        row_wide_ok(row, cols) ==> sanitized_from(row, cols, 0) == row,
{
    lemma_sanitize_nearly_whole(row, cols, 0);
    if cols <= 0 {
        reveal(sanitized_from);
    }
    let f = last_wide_blanked(row, cols);
    assert forall|c: int| 0 <= c < cols implies {
        &&& #[trigger] f[c].width <= 2
        &&& (f[c].width == 0 ==> c > 0 && f[c - 1].width == 2)
        &&& (f[c].width == 2 ==> c + 1 < cols && f[c + 1].width == 0 && f[c + 1].ch == '\0')
    } by {
        assert(row[c].width <= 2);
        if cols > 0 && row[cols - 1].width == 2 {
            if c == cols - 1 {
            } else {
                assert(f[c] == row[c]);
                if row[c].width == 2 {
                    assert(row[c + 1].width == 0);
                }
            }
        }
    }
    if row_wide_ok(row, cols) && cols > 0 {
        assert(row[cols - 1].width <= 2);
    }
}

/// Inserting a character of one or two cells at a column that is not the
/// right half of a wide character leaves the row nearly whole.
proof fn lemma_inserted_row(row: Seq<Cell>, cols: int, col: int, w: int, blank: Cell, lead: Cell, cont: Cell)
    requires
        row.len() == cols,
        row_wide_ok(row, cols),
        0 <= col,
        1 <= w <= 2,
        col + w <= cols,
        row[col].width != 0,
        lead.width == w,
        cont.width == 0,
        cont.ch == '\0',
    ensures
        written_row(shifted_right(row, cols, col, w, blank), cols, col, lead, cont, w).len() == cols,
        row_wide_ok_but_last(written_row(shifted_right(row, cols, col, w, blank), cols, col, lead, cont, w), cols),
{
    let sh = shifted_right(row, cols, col, w, blank);
    let wr = written_row(sh, cols, col, lead, cont, w);
    assert forall|c: int| 0 <= c < cols implies {
        &&& #[trigger] wr[c].width <= 2
        &&& (wr[c].width == 0 ==> c > 0 && wr[c - 1].width == 2)
        &&& (wr[c].width == 2 && c + 1 < cols ==> wr[c + 1].width == 0 && wr[c + 1].ch == '\0')
    } by {
        if c < col {
            assert(wr[c] == row[c]);
            assert(row[c].width <= 2);
            if row[c].width == 0 {
                assert(row[c - 1].width == 2);
            }
            if row[c].width == 2 {
                assert(row[c + 1].width == 0);
            }
        } else if c == col {
        } else if c < col + w {
        } else {
            let j = c - w;
            assert(wr[c] == row[j]);
            assert(row[j].width <= 2);
            if row[j].width == 0 {
                assert(row[j - 1].width == 2);
                assert(wr[c - 1] == row[j - 1]);
            }
            if row[j].width == 2 && c + 1 < cols {
                assert(row[j + 1].width == 0);
                assert(wr[c + 1] == row[j + 1]);
            }
        }
    }
}

/// Deleting a range that starts and ends on character boundaries keeps wide
/// characters whole.
proof fn lemma_shifted_left_row(row: Seq<Cell>, cols: int, a: int, b: int, blank: Cell)
    requires
        row.len() == cols,
        row_wide_ok(row, cols),
        0 <= a <= b <= cols,
        a < cols ==> row[a].width != 0,
        b < cols ==> row[b].width != 0,
        blank.width == 1,
    ensures
        shifted_left(row, cols, a, b - a, blank).len() == cols,
        row_wide_ok(shifted_left(row, cols, a, b - a, blank), cols),
{
    let k = b - a;
    let sl = shifted_left(row, cols, a, k, blank);
    assert forall|c: int| 0 <= c < cols implies {
        &&& #[trigger] sl[c].width <= 2
        &&& (sl[c].width == 0 ==> c > 0 && sl[c - 1].width == 2)
        &&& (sl[c].width == 2 ==> c + 1 < cols && sl[c + 1].width == 0 && sl[c + 1].ch == '\0')
    } by {
        if c >= cols - k {
        } else if c >= a {
            let j = c + k;
            assert(sl[c] == row[j]);
            assert(row[j].width <= 2);
            if row[j].width == 0 {
                assert(row[j - 1].width == 2);
                assert(c > a);
                assert(sl[c - 1] == row[j - 1]);
            }
            if row[j].width == 2 {
                assert(row[j + 1].width == 0);
                assert(sl[c + 1] == row[j + 1]);
            }
        } else {
            assert(sl[c] == row[c]);
            assert(row[c].width <= 2);
            if row[c].width == 0 {
                assert(row[c - 1].width == 2);
            }
            if row[c].width == 2 {
                assert(row[c + 1].width == 0);
                assert(c + 1 < a);
                assert(sl[c + 1] == row[c + 1]);
            }
        }
    }
}

proof fn lemma_whole_is_nearly_whole(row: Seq<Cell>, cols: int)
    requires
        row_wide_ok(row, cols),
    ensures
        row_wide_ok_but_last(row, cols),
{
    assert forall|c: int| 0 <= c < cols implies {
        &&& #[trigger] row[c].width <= 2
        &&& (row[c].width == 0 ==> c > 0 && row[c - 1].width == 2)
        &&& (row[c].width == 2 && c + 1 < cols ==> row[c + 1].width == 0 && row[c + 1].ch == '\0')
    } by {
        assert(row[c].width <= 2);
    }
}

proof fn lemma_blank_rows_whole(cols: int, bg: Color)
    ensures
        row_wide_ok(blank_row(cols), cols),
        row_wide_ok(blank_row_on(cols, bg), cols),
{
    let b1 = blank_row(cols);
    let b2 = blank_row_on(cols, bg);
    assert forall|c: int| 0 <= c < cols implies {
        &&& #[trigger] b1[c].width <= 2
        &&& (b1[c].width == 0 ==> c > 0 && b1[c - 1].width == 2)
        &&& (b1[c].width == 2 ==> c + 1 < cols && b1[c + 1].width == 0 && b1[c + 1].ch == '\0')
    } by {
        assert(b1[c] == blank_cell());
    }
    assert forall|c: int| 0 <= c < cols implies {
        &&& #[trigger] b2[c].width <= 2
        &&& (b2[c].width == 0 ==> c > 0 && b2[c - 1].width == 2)
        &&& (b2[c].width == 2 ==> c + 1 < cols && b2[c + 1].width == 0 && b2[c + 1].ch == '\0')
    } by {
        assert(b2[c] == blank_on(bg));
    }
}

/// Every row of `g` has `cols` cells and whole wide characters.
spec fn rows_whole(g: Seq<Seq<Cell>>, cols: int) -> bool {
    forall|r: int| 0 <= r < g.len() ==> #[trigger] g[r].len() == cols && row_wide_ok(g[r], cols)
}

/// Moving rows up or down within a region, with blank rows entering, keeps
/// every row whole.
proof fn lemma_region_shifts(g: Seq<Seq<Cell>>, top: int, bottom: int, k: int, cols: int)
    requires
        0 <= top <= bottom < g.len(),
        0 <= k <= bottom - top + 1,
        cols >= 0,
        rows_whole(g, cols),
    ensures
        region_shifted_up(g, top, bottom, k, cols).len() == g.len(),
        region_shifted_down(g, top, bottom, k, cols).len() == g.len(),
        rows_whole(region_shifted_up(g, top, bottom, k, cols), cols),
        rows_whole(region_shifted_down(g, top, bottom, k, cols), cols),
{
    lemma_blank_rows_whole(cols, Color::Default);
    let u = region_shifted_up(g, top, bottom, k, cols);
    let d = region_shifted_down(g, top, bottom, k, cols);
    assert forall|r: int| 0 <= r < u.len() implies #[trigger] u[r].len() == cols && row_wide_ok(u[r], cols) by {
        if r < top {
            assert(u[r] == g[r]);
        } else if r < bottom + 1 - k {
            assert(u[r] == g[r + k]);
        } else if r <= bottom {
            assert(u[r] == blank_row(cols));
        } else {
            assert(u[r] == g[r]);
        }
    }
    assert forall|r: int| 0 <= r < d.len() implies #[trigger] d[r].len() == cols && row_wide_ok(d[r], cols) by {
        if r < top {
            assert(d[r] == g[r]);
        } else if r < top + k {
            assert(d[r] == blank_row(cols));
        } else if r <= bottom {
            assert(d[r] == g[r - k]);
        } else {
            assert(d[r] == g[r]);
        }
    }
}

proof fn lemma_state_rows_whole(s: TermState)
    requires
        state_wf(s),
        grid_wide_ok(s),
    ensures
        rows_whole(s.grid, s.cols),
{
    assert forall|r: int| 0 <= r < s.grid.len() implies #[trigger] s.grid[r].len() == s.cols && row_wide_ok(s.grid[r], s.cols) by {
        assert(row_wide_ok(s.grid[r], s.cols));
    }
}

/// Replacing one row by a whole row of the right length keeps the screen
/// whole.
proof fn lemma_row_replaced(s: TermState, r: int, row: Seq<Cell>)
    requires
        state_wf(s),
        grid_wide_ok(s),
        0 <= r < s.rows,
        row.len() == s.cols,
        row_wide_ok(row, s.cols),
    ensures
        state_wf(with_grid(s, s.grid.update(r, row))),
        grid_wide_ok(with_grid(s, s.grid.update(r, row))),
{
    let t = with_grid(s, s.grid.update(r, row));
    assert forall|i: int| 0 <= i < t.rows implies #[trigger] t.grid[i].len() == t.cols by {
        if i != r {
            assert(t.grid[i] == s.grid[i]);
        }
    }
    assert forall|i: int| 0 <= i < t.rows implies #[trigger] row_wide_ok(t.grid[i], t.cols) by {
        if i != r {
            assert(t.grid[i] == s.grid[i]);
        }
    }
}

/// A blank screen, such as a new terminal's, has its wide characters whole.
pub proof fn lemma_blank_screen_whole(s: TermState)
    requires
        s.grid == blank_rows(s.rows, s.cols),
    ensures
        grid_wide_ok(s),
{
    lemma_blank_rows_whole(s.cols, Color::Default);
    assert forall|r: int| 0 <= r < s.rows implies #[trigger] row_wide_ok(s.grid[r], s.cols) by {
        assert(s.grid[r] == blank_row(s.cols));
    }
}

/// Inserting a character of one or two cells at the cursor keeps every
/// wide character on the screen whole, provided the cursor is not on the
/// right half of one (there the left half would stay behind, followed by the
/// inserted character): a wide character pushed past the right edge is
/// blanked. Only the cursor row changes, and the cursor moves past the
/// character, unless it does not fit, in which case nothing changes.
pub proof fn lemma_insert_char_keeps_wide_chars_whole(s: TermState, ch: char, width: u8)
    requires
        state_wf(s),
        grid_wide_ok(s),
        1 <= width <= 2,
        s.cursor_col + width <= s.cols ==> !on_continuation(s),
    ensures
        state_wf(spec_insert_char(s, ch, width)),
        grid_wide_ok(spec_insert_char(s, ch, width)),
        forall|r: int| 0 <= r < s.rows && r != s.cursor_row ==> #[trigger] spec_insert_char(s, ch, width).grid[r] == s.grid[r],
        s.cursor_col + width > s.cols ==> spec_insert_char(s, ch, width) == s,
        s.cursor_col + width <= s.cols ==> spec_insert_char(s, ch, width).cursor_col == s.cursor_col + width,
{
    let w = width as int;
    let col = s.cursor_col;
    let r = s.cursor_row;
    if col + w <= s.cols {
        let row = s.grid[r];
        assert(row_wide_ok(row, s.cols));
        let lead = drawn_cell(s, ch, width);
        let cont = drawn_cell(s, '\0', 0);
        lemma_inserted_row(row, s.cols, col, w, blank_on(s.bg_color), lead, cont);
        let wr = written_row(shifted_right(row, s.cols, col, w, blank_on(s.bg_color)), s.cols, col, lead, cont, w);
        lemma_sanitize_whole(wr, s.cols);
        let fixed = sanitized_from(wr, s.cols, 0);
        lemma_row_replaced(s, r, fixed);
        let t = spec_insert_char(s, ch, width);
        assert(t == with_cursor(with_grid(s, s.grid.update(r, fixed)), r, col + w));
    }
}

/// Deleting characters at the cursor keeps every wide character on the
/// screen whole: the deleted range is widened to whole characters first.
pub proof fn lemma_delete_chars_keeps_wide_chars_whole(s: TermState, n: int)
    requires
        state_wf(s),
        grid_wide_ok(s),
        n >= 0,
    ensures
        state_wf(spec_delete_chars(s, n)),
        grid_wide_ok(spec_delete_chars(s, n)),
{
    let r = s.cursor_row;
    let row = s.grid[r];
    assert(row_wide_ok(row, s.cols));
    let col = s.cursor_col;
    let ex = expand_range(row, s.cols, col, min_int(col + n, s.cols));
    let a = ex.0;
    let b = ex.1;
    let blank = blank_on(s.bg_color);
    let sl = shifted_left(row, s.cols, a, b - a, blank);
    if a == b {
        assert(sl =~= row);
    } else {
        if a < s.cols {
            assert(row[a].width <= 2);
        }
        if b < s.cols {
            assert(row[b].width <= 2);
        }
        lemma_shifted_left_row(row, s.cols, a, b, blank);
    }
    lemma_whole_is_nearly_whole(sl, s.cols);
    lemma_sanitize_whole(sl, s.cols);
    lemma_row_replaced(s, r, sl);
}

/// Erasing characters, clearing (part of) a line, and clearing (part of) the
/// screen keep every wide character on the screen whole: a wide character
/// the cleared range cuts into is cleared entirely.
pub proof fn lemma_clearing_keeps_wide_chars_whole(s: TermState, n: int, line: ClearLineMode, screen: ClearScreenMode)
    requires
        state_wf(s),
        grid_wide_ok(s),
        n >= 0,
    ensures
        grid_wide_ok(spec_erase_chars(s, n)),
        grid_wide_ok(spec_clear_line(s, line)),
        grid_wide_ok(spec_clear_screen(s, screen)),
        grid_wide_ok(spec_clear_all(s)),
{
    let r = s.cursor_row;
    let row = s.grid[r];
    let col = s.cursor_col;
    let bg = s.bg_color;
    assert(row_wide_ok(row, s.cols));
    lemma_cleared_row(row, s.cols, col, min_int(col + n, s.cols), bg);
    lemma_row_replaced(s, r, cleared_row(row, s.cols, col, min_int(col + n, s.cols), bg));
    lemma_cleared_row(row, s.cols, col, s.cols, bg);
    lemma_row_replaced(s, r, cleared_row(row, s.cols, col, s.cols, bg));
    lemma_cleared_row(row, s.cols, 0, col + 1, bg);
    lemma_row_replaced(s, r, cleared_row(row, s.cols, 0, col + 1, bg));
    lemma_cleared_row(row, s.cols, 0, s.cols, bg);
    lemma_row_replaced(s, r, cleared_row(row, s.cols, 0, s.cols, bg));
    lemma_blank_rows_whole(s.cols, bg);
    let g1 = rows_blanked(s.grid.update(r, cleared_row(row, s.cols, col, s.cols, bg)), r + 1, s.rows, s.cols, bg);
    let t1 = with_grid(s, s.grid.update(r, cleared_row(row, s.cols, col, s.cols, bg)));
    assert forall|i: int| 0 <= i < s.rows implies #[trigger] row_wide_ok(g1[i], s.cols) by {
        assert(row_wide_ok(t1.grid[i], t1.cols));
    }
    let g2 = rows_blanked(s.grid, 0, r, s.cols, bg).update(r, cleared_row(row, s.cols, 0, col + 1, bg));
    assert forall|i: int| 0 <= i < s.rows implies #[trigger] row_wide_ok(g2[i], s.cols) by {
        if i != r && i >= r {
            assert(row_wide_ok(s.grid[i], s.cols));
        }
    }
    let g3 = blank_rows(s.rows, s.cols);
    assert forall|i: int| 0 <= i < s.rows implies #[trigger] row_wide_ok(g3[i], s.cols) by {
        assert(g3[i] == blank_row(s.cols));
    }
    let t2 = spec_clear_screen(s, screen);
    assert(grid_wide_ok(t2)) by {
        match screen {
            ClearScreenMode::FromCursor => {
                assert(t2.grid == g1);
            },
            ClearScreenMode::ToCursor => {
                assert(t2.grid == g2);
            },
            ClearScreenMode::All => {
                assert(t2.grid == g3);
            },
        }
    }
}

/// The screen with rows `top..=bottom` moved up or down by `k` keeps its
/// wide characters whole.
proof fn lemma_region_moved(s: TermState, top: int, bottom: int, k: int)
    requires
        state_wf(s),
        grid_wide_ok(s),
        0 <= top <= bottom < s.rows,
        0 <= k <= bottom - top + 1,
    ensures
        grid_wide_ok(touched(with_grid(s, region_shifted_up(s.grid, top, bottom, k, s.cols)))),
        grid_wide_ok(touched(with_grid(s, region_shifted_down(s.grid, top, bottom, k, s.cols)))),
{
    lemma_state_rows_whole(s);
    lemma_region_shifts(s.grid, top, bottom, k, s.cols);
    let u = region_shifted_up(s.grid, top, bottom, k, s.cols);
    let d = region_shifted_down(s.grid, top, bottom, k, s.cols);
    assert forall|r: int| 0 <= r < s.rows implies #[trigger] row_wide_ok(u[r], s.cols) by {}
    assert forall|r: int| 0 <= r < s.rows implies #[trigger] row_wide_ok(d[r], s.cols) by {}
}

/// Scrolling the region, inserting and deleting lines (with the cursor in or
/// above the region, where they apply), and line feeds move whole rows, so
/// they keep every wide character on the screen whole.
pub proof fn lemma_line_moves_keep_wide_chars_whole(s: TermState, n: int)
    requires
        state_wf(s),
        grid_wide_ok(s),
        n >= 0,
    ensures
        grid_wide_ok(spec_scroll_up(s, n)),
        grid_wide_ok(spec_scroll_down(s, n)),
        s.cursor_row <= s.scroll_bottom ==> grid_wide_ok(spec_insert_lines(s, n)),
        s.cursor_row <= s.scroll_bottom ==> grid_wide_ok(spec_delete_lines(s, n)),
        grid_wide_ok(spec_line_feed(s)),
{
    lemma_region_moved(s, s.scroll_top, s.scroll_bottom, min_int(n, s.scroll_bottom - s.scroll_top + 1));
    if s.cursor_row <= s.scroll_bottom {
        lemma_region_moved(s, s.cursor_row, s.scroll_bottom, min_int(n, s.scroll_bottom - s.cursor_row + 1));
    }
    let s1 = if s.line_feed_new_line_mode {
        with_cursor(s, s.cursor_row, 0)
    } else {
        s
    };
    lemma_region_moved(s1, s1.scroll_top, s1.scroll_bottom, min_int(1, s1.scroll_bottom - s1.scroll_top + 1));
}

/// Drawing a character of one or two cells at the cursor, once any wrapping
/// is done, keeps the screen's wide characters whole.
proof fn lemma_draw_char_whole(s1: TermState, ch: char)
    requires
        state_wf(s1),
        grid_wide_ok(s1),
        1 <= char_cell_width(ch) <= 2,
        s1.insert_mode && s1.cursor_col + char_cell_width(ch) <= s1.cols ==> !on_continuation(s1),
    ensures
        grid_wide_ok(spec_draw_char(s1, ch)),
{
    let w = char_cell_width(ch) as int;
    let col = s1.cursor_col;
    let r = s1.cursor_row;
    if col + w > s1.cols {
    } else if s1.insert_mode {
        lemma_insert_char_keeps_wide_chars_whole(s1, ch, char_cell_width(ch));
        let t = spec_insert_char(s1, ch, char_cell_width(ch));
        assert(spec_draw_char(s1, ch).grid == t.grid);
    } else {
        let row = s1.grid[r];
        assert(row_wide_ok(row, s1.cols));
        lemma_cleared_row(row, s1.cols, col, col + w, s1.bg_color);
        let cleared = cleared_row(row, s1.cols, col, col + w, s1.bg_color);
        let lead = drawn_cell(s1, ch, char_cell_width(ch));
        let cont = drawn_cell(s1, '\0', 0);
        lemma_written_row(cleared, s1.cols, col, lead, cont, w);
        let written = written_row(cleared, s1.cols, col, lead, cont, w);
        lemma_row_replaced(s1, r, written);
        assert(spec_draw_char(s1, ch).grid == s1.grid.update(r, written));
    }
}

/// Writing a character of one or two cells keeps every wide character on the
/// screen whole: a wide character it overwrites in part is cleared entirely,
/// a wide character that does not fit before the right edge wraps or is not
/// drawn, and in insert mode the cursor must not stand on the right half of
/// a wide character (see [`lemma_insert_char_keeps_wide_chars_whole`]).
/// Characters the width table counts three columns wide are left out.
pub proof fn lemma_put_char_keeps_wide_chars_whole(s: TermState, ch: char)
    requires
        state_wf(s),
        grid_wide_ok(s),
        1 <= char_cell_width(ch) <= 2,
        s.insert_mode && !needs_wrap(s, char_cell_width(ch) as int) ==> !on_continuation(s),
    ensures
        grid_wide_ok(spec_put_char(s, ch)),
{
    let w = char_cell_width(ch) as int;
    if needs_wrap(s, w) && !s.auto_wrap {
        assert(spec_put_char(s, ch).grid == s.grid);
    } else if needs_wrap(s, w) {
        let t = with_cursor(s, s.cursor_row, 0);
        let s1 = spec_next_row(t);
        if t.cursor_row == t.scroll_bottom {
            let k = min_int(1, t.scroll_bottom - t.scroll_top + 1);
            lemma_state_rows_whole(t);
            lemma_region_shifts(t.grid, t.scroll_top, t.scroll_bottom, k, t.cols);
            lemma_region_moved(t, t.scroll_top, t.scroll_bottom, k);
            let u = region_shifted_up(t.grid, t.scroll_top, t.scroll_bottom, k, t.cols);
            assert(s1.grid == u);
            assert forall|r: int| 0 <= r < s1.rows implies #[trigger] s1.grid[r].len() == s1.cols by {
                assert(u[r].len() == t.cols);
            }
        }
        assert(state_wf(s1));
        if s1.cols > 0 {
            assert(row_wide_ok(s1.grid[s1.cursor_row], s1.cols));
            assert(s1.grid[s1.cursor_row][0].width <= 2);
        }
        lemma_draw_char_whole(s1, ch);
    } else {
        lemma_draw_char_whole(s, ch);
    }
}

/// Whether every cell of row `r` of `s` is one column wide.
pub open spec fn narrow_row(s: TermState, r: int) -> bool {
    forall|c: int| 0 <= c < s.cols ==> (#[trigger] s.grid[r][c]).width == 1
}

/// Whether `u` differs from `s` only in cells `start..end` of row `r`.
pub open spec fn only_cells_changed(s: TermState, u: TermState, r: int, start: int, end: int) -> bool {
    &&& u.grid.len() == s.grid.len()
    &&& forall|i: int| 0 <= i < s.rows ==> (#[trigger] u.grid[i]).len() == s.cols
    &&& forall|i: int, c: int|
        #![trigger u.grid[i][c]]
        0 <= i < s.rows && 0 <= c < s.cols && !(i == r && start <= c < end) ==> u.grid[i][c] == s.grid[i][c]
}

/// Writing a one-column character over a one-column cell (outside insert
/// mode, where it fits) puts the character there in the current colors and
/// attributes, changes no other cell, and moves the cursor one column right.
pub proof fn lemma_put_char_writes_at_cursor(s: TermState, ch: char)
    requires
        state_wf(s),
        grid_wide_ok(s),
        !s.insert_mode,
        char_cell_width(ch) == 1,
        s.cursor_col < s.cols,
        s.grid[s.cursor_row][s.cursor_col].width == 1,
    ensures
        ({
            let u = spec_put_char(s, ch);
            let cell = u.grid[s.cursor_row][s.cursor_col];
            &&& only_cells_changed(s, u, s.cursor_row, s.cursor_col, s.cursor_col + 1)
            &&& cell.ch == ch && cell.width == 1
            &&& cell.fg_color == s.fg_color && cell.bg_color == s.bg_color
            &&& cell.bold == s.bold && cell.underline == s.underline && cell.blink == s.blink
                && cell.reverse == s.reverse
            &&& u.cursor_row == s.cursor_row && u.cursor_col == s.cursor_col + 1
        }),
{
    lemma_draw_at_cursor(s, ch);
}

/// Writing a two-column character over two one-column cells (outside insert
/// mode, where it fits) puts the character in the first and its `'\0'`
/// continuation in the second, changes no other cell, and moves the cursor
/// two columns right.
pub proof fn lemma_put_wide_char_writes_at_cursor(s: TermState, ch: char)
    requires
        state_wf(s),
        grid_wide_ok(s),
        !s.insert_mode,
        char_cell_width(ch) == 2,
        s.cursor_col + 2 <= s.cols,
        s.grid[s.cursor_row][s.cursor_col].width == 1,
        s.grid[s.cursor_row][s.cursor_col + 1].width == 1,
    ensures
        ({
            let u = spec_put_char(s, ch);
            let lead = u.grid[s.cursor_row][s.cursor_col];
            let cont = u.grid[s.cursor_row][s.cursor_col + 1];
            &&& only_cells_changed(s, u, s.cursor_row, s.cursor_col, s.cursor_col + 2)
            &&& lead.ch == ch && lead.width == 2 && lead.fg_color == s.fg_color && lead.bg_color
                == s.bg_color
            &&& cont.ch == '\0' && cont.width == 0
            &&& u.cursor_row == s.cursor_row && u.cursor_col == s.cursor_col + 2
        }),
{
    lemma_draw_at_cursor(s, ch);
}

/// Drawing a character of one or two columns over one-column cells.
proof fn lemma_draw_at_cursor(s: TermState, ch: char)
    requires
        state_wf(s),
        grid_wide_ok(s),
        !s.insert_mode,
        1 <= char_cell_width(ch) <= 2,
        s.cursor_col + char_cell_width(ch) <= s.cols,
        s.grid[s.cursor_row][s.cursor_col].width == 1,
        char_cell_width(ch) == 2 ==> s.grid[s.cursor_row][s.cursor_col + 1].width == 1,
    ensures
        ({
            let w = char_cell_width(ch) as int;
            let u = spec_put_char(s, ch);
            let r = s.cursor_row;
            let col = s.cursor_col;
            &&& u.grid == s.grid.update(r, written_row(fill_range(s.grid[r], col, col + w, blank_on(s.bg_color)), s.cols, col, drawn_cell(s, ch, char_cell_width(ch)), drawn_cell(s, '\0', 0), w))
            &&& only_cells_changed(s, u, r, col, col + w)
            &&& u.cursor_row == r && u.cursor_col == col + w
        }),
{
    let w = char_cell_width(ch) as int;
    let r = s.cursor_row;
    let col = s.cursor_col;
    let row = s.grid[r];
    assert(row_wide_ok(row, s.cols));
    if col + w < s.cols {
        assert(row[col + w].width <= 2);
        assert(row[col + w].width != 0);
    }
    assert(expand_range(row, s.cols, col, col + w) == (col, col + w));
    let u = spec_put_char(s, ch);
    let wr = written_row(fill_range(row, col, col + w, blank_on(s.bg_color)), s.cols, col, drawn_cell(s, ch, char_cell_width(ch)), drawn_cell(s, '\0', 0), w);
    assert(u.grid == s.grid.update(r, wr));
    assert forall|i: int| 0 <= i < s.rows implies (#[trigger] u.grid[i]).len() == s.cols by {}
}

/// Deleting `n` characters on a line of one-column cells moves the cells
/// after them left by `n` (at most to the end of the line), blanks in the
/// current background entering at the right edge; no other line and not the
/// cursor move.
pub proof fn lemma_delete_chars_shifts_left(s: TermState, n: int)
    requires
        state_wf(s),
        narrow_row(s, s.cursor_row),
        n >= 0,
        s.cursor_col < s.cols,
    ensures
        ({
            let u = spec_delete_chars(s, n);
            let r = s.cursor_row;
            let col = s.cursor_col;
            let k = if n < s.cols - col { n } else { s.cols - col };
            &&& only_cells_changed(s, u, r, col, s.cols)
            &&& forall|c: int| col <= c < s.cols - k ==> #[trigger] u.grid[r][c] == s.grid[r][c + k]
            &&& forall|c: int| s.cols - k <= c < s.cols ==> #[trigger] u.grid[r][c] == blank_on(s.bg_color)
            &&& u.cursor_row == s.cursor_row && u.cursor_col == s.cursor_col
        }),
{
    let r = s.cursor_row;
    let row = s.grid[r];
    let col = s.cursor_col;
    let k = min_int(n, s.cols - col);
    assert(expand_range(row, s.cols, col, min_int(col + n, s.cols)) == (col, col + k));
    let sl = shifted_left(row, s.cols, col, k, blank_on(s.bg_color));
    assert forall|c: int| 0 <= c < s.cols implies {
        &&& #[trigger] sl[c].width <= 2
        &&& (sl[c].width == 0 ==> c > 0 && sl[c - 1].width == 2)
        &&& (sl[c].width == 2 ==> c + 1 < s.cols && sl[c + 1].width == 0 && sl[c + 1].ch == '\0')
    } by {
        if c < s.cols - k && c >= col {
            assert(row[c + k].width == 1);
        } else if c < col {
            assert(row[c].width == 1);
        }
    }
    lemma_whole_is_nearly_whole(sl, s.cols);
    lemma_sanitize_whole(sl, s.cols);
    let u = spec_delete_chars(s, n);
    assert(u.grid == s.grid.update(r, sl));
    assert forall|i: int| 0 <= i < s.rows implies (#[trigger] u.grid[i]).len() == s.cols by {}
}

/// Inserting a one-column character on a line of one-column cells moves the
/// cells from the cursor on right by one (the last one is lost), puts the
/// character at the cursor in the current colors, and moves the cursor one
/// column right; no other line changes.
pub proof fn lemma_insert_char_shifts_right(s: TermState, ch: char)
    requires
        state_wf(s),
        narrow_row(s, s.cursor_row),
        s.cursor_col < s.cols,
    ensures
        ({
            let u = spec_insert_char(s, ch, 1);
            let r = s.cursor_row;
            let col = s.cursor_col;
            &&& only_cells_changed(s, u, r, col, s.cols)
            &&& u.grid[r][col].ch == ch && u.grid[r][col].width == 1
            &&& u.grid[r][col].fg_color == s.fg_color && u.grid[r][col].bg_color == s.bg_color
            &&& forall|c: int| col < c < s.cols ==> #[trigger] u.grid[r][c] == s.grid[r][c - 1]
            &&& u.cursor_row == s.cursor_row && u.cursor_col == s.cursor_col + 1
        }),
{
    let r = s.cursor_row;
    let row = s.grid[r];
    let col = s.cursor_col;
    let sh = shifted_right(row, s.cols, col, 1, blank_on(s.bg_color));
    let wr = written_row(sh, s.cols, col, drawn_cell(s, ch, 1), drawn_cell(s, '\0', 0), 1);
    assert forall|c: int| 0 <= c < s.cols implies {
        &&& #[trigger] wr[c].width <= 2
        &&& (wr[c].width == 0 ==> c > 0 && wr[c - 1].width == 2)
        &&& (wr[c].width == 2 ==> c + 1 < s.cols && wr[c + 1].width == 0 && wr[c + 1].ch == '\0')
    } by {
        if c > col {
            assert(row[c - 1].width == 1);
        } else if c < col {
            assert(row[c].width == 1);
        }
    }
    lemma_whole_is_nearly_whole(wr, s.cols);
    lemma_sanitize_whole(wr, s.cols);
    let u = spec_insert_char(s, ch, 1);
    assert(u.grid == s.grid.update(r, wr));
    assert forall|i: int| 0 <= i < s.rows implies (#[trigger] u.grid[i]).len() == s.cols by {}
}

/// Erasing `n` characters blanks, in the current background, the `n` cells
/// from the cursor on a line of one-column cells (as far as the line goes)
/// and changes nothing else, the cursor included.
pub proof fn lemma_erase_chars_blanks_cells(s: TermState, n: int)
    requires
        state_wf(s),
        narrow_row(s, s.cursor_row),
        n >= 0,
    ensures
        ({
            let u = spec_erase_chars(s, n);
            let r = s.cursor_row;
            let end = if s.cursor_col + n < s.cols { s.cursor_col + n } else { s.cols };
            &&& only_cells_changed(s, u, r, s.cursor_col, end)
            &&& forall|c: int| s.cursor_col <= c < end ==> #[trigger] u.grid[r][c] == blank_on(s.bg_color)
            &&& u.cursor_row == s.cursor_row && u.cursor_col == s.cursor_col
        }),
{
    let r = s.cursor_row;
    let row = s.grid[r];
    let col = s.cursor_col;
    let end = min_int(col + n, s.cols);
    if col < end {
        assert(row[col].width == 1);
        if end < s.cols {
            assert(row[end].width == 1);
        }
    }
    let u = spec_erase_chars(s, n);
    assert(u.grid == s.grid.update(r, cleared_row(row, s.cols, col, end, s.bg_color)));
    assert(cleared_row(row, s.cols, col, end, s.bg_color) == fill_range(row, col, end, blank_on(s.bg_color)));
    assert forall|i: int| 0 <= i < s.rows implies (#[trigger] u.grid[i]).len() == s.cols by {}
}

/// A one-column character written when the cursor is past the last column
/// goes to the start of the next line with auto-wrap on (when that line is
/// inside the scroll region, so nothing scrolls), and with auto-wrap off is
/// not drawn, the cursor going back to the last column.
pub proof fn lemma_put_char_wraps_to_next_line(s: TermState, ch: char)
    requires
        state_wf(s),
        grid_wide_ok(s),
        !s.insert_mode,
        char_cell_width(ch) == 1,
        s.cols >= 1,
        s.cursor_col == s.cols,
        s.cursor_row < s.scroll_bottom,
        s.grid[s.cursor_row + 1][0].width == 1,
    ensures
        ({
            let u = spec_put_char(s, ch);
            s.auto_wrap ==> {
                &&& only_cells_changed(s, u, s.cursor_row + 1, 0, 1)
                &&& u.grid[s.cursor_row + 1][0].ch == ch
                &&& u.cursor_row == s.cursor_row + 1 && u.cursor_col == 1
            }
        }),
        !s.auto_wrap ==> spec_put_char(s, ch).grid == s.grid,
        !s.auto_wrap ==> spec_put_char(s, ch).cursor_row == s.cursor_row,
        !s.auto_wrap ==> spec_put_char(s, ch).cursor_col == s.cols - 1,
{
    if s.auto_wrap {
        let s1 = with_cursor(s, s.cursor_row + 1, 0);
        assert(spec_next_row(with_cursor(s, s.cursor_row, 0)) == s1);
        assert(spec_put_char(s, ch) == spec_put_char(s1, ch));
        assert(grid_wide_ok(s1));
        lemma_draw_at_cursor(s1, ch);
    }
}

} // verus!
