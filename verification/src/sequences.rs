//! What the erase sequences do to the screen, stated cell by cell.

use vstd::prelude::*;

use crate::cell::{blank_cell, named_color, Cell, Color};
use crate::ansi_parser::{cleared_params, lemma_run_concat, sgr_from, spec_run, spec_step, with_state, ParserModel, ParserState};
use crate::terminal::{
    blank_on, blank_row, cleared_row, expand_range, fill_range, min_int, spec_clear_line, spec_clear_screen,
    spec_put_char, spec_restore_cursor, spec_save_cursor, moved_down, moved_up,
    lemma_scroll_up_moves_lines_up, lemma_scroll_down_moves_lines_down,
    lemma_insert_lines_moves_lines_down, lemma_delete_lines_moves_lines_up,
    state_wf, ClearLineMode, ClearScreenMode, TermState,
};

verus! {

/// Whether `(r, c)` comes before the cursor of `t` in reading order.
pub open spec fn before_cursor(t: TermState, r: int, c: int) -> bool {
    r < t.cursor_row || (r == t.cursor_row && c < t.cursor_col)
}

/// Whether `(r, c)` is the left half of a wide character whose right half is
/// under the cursor: erasing from the cursor takes the whole character.
pub open spec fn cut_by_cursor(t: TermState, r: int, c: int) -> bool {
    r == t.cursor_row && c == t.cursor_col - 1 && t.cursor_col < t.cols
        && t.grid[r][t.cursor_col].width == 0
}

/// Whether `(r, c)` is the right half of a wide character whose left half is
/// under the cursor: erasing through the cursor takes the whole character.
pub open spec fn cut_after_cursor(t: TermState, r: int, c: int) -> bool {
    r == t.cursor_row && c == t.cursor_col + 1 && c < t.cols && t.grid[r][c].width == 0
}

/// `u` is `t` erased from the cursor to the end of the screen: every cell
/// before the cursor (but the left half of a wide character the cursor cuts)
/// is kept, every cell from the cursor on is blank in the current
/// background, and the cursor stays.
pub open spec fn erased_below(t: TermState, u: TermState) -> bool {
    &&& u.cursor_row == t.cursor_row && u.cursor_col == t.cursor_col
    &&& u.grid.len() == t.grid.len()
    &&& forall|r: int, c: int|
        #![trigger u.grid[r][c]]
        0 <= r < t.rows && 0 <= c < t.cols ==> {
            &&& (before_cursor(t, r, c) && !cut_by_cursor(t, r, c) ==> u.grid[r][c] == t.grid[r][c])
            &&& (!before_cursor(t, r, c) ==> u.grid[r][c] == blank_on(t.bg_color))
        }
}

/// `u` is `t` erased from the start of the screen through the cursor: every
/// cell up to and including the cursor is blank in the current background,
/// every cell after it (but the right half of a wide character the cursor
/// cuts) is kept, and the cursor stays.
pub open spec fn erased_above(t: TermState, u: TermState) -> bool {
    &&& u.cursor_row == t.cursor_row && u.cursor_col == t.cursor_col
    &&& u.grid.len() == t.grid.len()
    &&& forall|r: int, c: int|
        #![trigger u.grid[r][c]]
        0 <= r < t.rows && 0 <= c < t.cols ==> {
            &&& (before_cursor(t, r, c) || (r == t.cursor_row && c == t.cursor_col) ==> u.grid[r][c]
                == blank_on(t.bg_color))
            &&& (!before_cursor(t, r, c) && !(r == t.cursor_row && c == t.cursor_col) && !cut_after_cursor(
                t,
                r,
                c,
            ) ==> u.grid[r][c] == t.grid[r][c])
        }
}

/// `u` is `t` with the cursor line erased from the cursor to its end: the
/// cells before the cursor on that line (but a cut wide character's left
/// half) and every other line are kept, the rest of the line is blank.
pub open spec fn line_erased_right(t: TermState, u: TermState) -> bool {
    &&& u.cursor_row == t.cursor_row && u.cursor_col == t.cursor_col
    &&& u.grid.len() == t.grid.len()
    &&& forall|r: int, c: int|
        #![trigger u.grid[r][c]]
        0 <= r < t.rows && 0 <= c < t.cols ==> {
            &&& (r != t.cursor_row ==> u.grid[r][c] == t.grid[r][c])
            &&& (r == t.cursor_row && c < t.cursor_col && !cut_by_cursor(t, r, c) ==> u.grid[r][c]
                == t.grid[r][c])
            &&& (r == t.cursor_row && c >= t.cursor_col ==> u.grid[r][c] == blank_on(t.bg_color))
        }
}

/// `u` is `t` with the cursor line erased from its start through the cursor:
/// every other line is kept, the cells up to and including the cursor are
/// blank, the cells after it (but a cut wide character's right half) kept.
pub open spec fn line_erased_left(t: TermState, u: TermState) -> bool {
    &&& u.cursor_row == t.cursor_row && u.cursor_col == t.cursor_col
    &&& u.grid.len() == t.grid.len()
    &&& forall|r: int, c: int|
        #![trigger u.grid[r][c]]
        0 <= r < t.rows && 0 <= c < t.cols ==> {
            &&& (r != t.cursor_row ==> u.grid[r][c] == t.grid[r][c])
            &&& (r == t.cursor_row && c <= t.cursor_col ==> u.grid[r][c] == blank_on(t.bg_color))
            &&& (r == t.cursor_row && c > t.cursor_col && !cut_after_cursor(t, r, c) ==> u.grid[r][c]
                == t.grid[r][c])
        }
}

/// `u` is `t` with the whole cursor line blank and every other line kept.
pub open spec fn line_erased(t: TermState, u: TermState) -> bool {
    &&& u.cursor_row == t.cursor_row && u.cursor_col == t.cursor_col
    &&& u.grid.len() == t.grid.len()
    &&& forall|r: int, c: int|
        #![trigger u.grid[r][c]]
        0 <= r < t.rows && 0 <= c < t.cols ==> {
            &&& (r != t.cursor_row ==> u.grid[r][c] == t.grid[r][c])
            &&& (r == t.cursor_row ==> u.grid[r][c] == blank_on(t.bg_color))
        }
}

/// `u` is `t` with every cell blank and the cursor home.
pub open spec fn screen_erased(t: TermState, u: TermState) -> bool {
    &&& u.cursor_row == 0 && u.cursor_col == 0
    &&& u.grid.len() == t.grid.len()
    &&& forall|r: int, c: int|
        #![trigger u.grid[r][c]]
        0 <= r < t.rows && 0 <= c < t.cols ==> u.grid[r][c] == blank_cell()
}

proof fn lemma_cleared_row_cells(row: Seq<Cell>, cols: int, start: int, end: int, bg: Color)
    requires
        row.len() == cols,
        0 <= start,
    ensures
        ({
            let s0 = min_int(start, cols);
            let e0 = min_int(end, cols);
            let cl = cleared_row(row, cols, start, end, bg);
            &&& cl.len() == cols
            &&& forall|c: int| 0 <= c < cols && s0 <= c < e0 ==> #[trigger] cl[c] == blank_on(bg)
            &&& forall|c: int|
                0 <= c < cols && (c < s0 - 1 || c >= e0 + 1) ==> #[trigger] cl[c] == row[c]
            &&& (0 < s0 < e0 && row[s0].width != 0 ==> cl[s0 - 1] == row[s0 - 1])
            &&& (s0 < e0 < cols && row[e0].width != 0 ==> cl[e0] == row[e0])
            &&& (s0 >= e0 ==> cl == row)
        }),
{
    let (a, b) = expand_range(row, cols, start, end);
    let cl = cleared_row(row, cols, start, end, bg);
    assert(cl == fill_range(row, a, b, blank_on(bg)));
    if min_int(start, cols) >= min_int(end, cols) {
        assert(cl =~= row);
    }
}

/// Erasing the screen from the cursor, cell by cell.
proof fn lemma_clear_from_cursor_cells(t: TermState)
    requires
        state_wf(t),
    ensures
        erased_below(t, spec_clear_screen(t, ClearScreenMode::FromCursor)),
{
    let u = spec_clear_screen(t, ClearScreenMode::FromCursor);
    let cr = t.cursor_row;
    let row = t.grid[cr];
    lemma_cleared_row_cells(row, t.cols, t.cursor_col, t.cols, t.bg_color);
    assert forall|r: int, c: int| 0 <= r < t.rows && 0 <= c < t.cols implies {
        &&& (before_cursor(t, r, c) && !cut_by_cursor(t, r, c) ==> #[trigger] u.grid[r][c] == t.grid[r][c])
        &&& (!before_cursor(t, r, c) ==> u.grid[r][c] == blank_on(t.bg_color))
    } by {
        if r == cr {
            assert(u.grid[r] == cleared_row(row, t.cols, t.cursor_col, t.cols, t.bg_color));
        }
    }
}

/// Erasing the screen through the cursor, cell by cell.
proof fn lemma_clear_to_cursor_cells(t: TermState)
    requires
        state_wf(t),
    ensures
        erased_above(t, spec_clear_screen(t, ClearScreenMode::ToCursor)),
{
    let u = spec_clear_screen(t, ClearScreenMode::ToCursor);
    let cr = t.cursor_row;
    let row = t.grid[cr];
    lemma_cleared_row_cells(row, t.cols, 0, t.cursor_col + 1, t.bg_color);
    assert forall|r: int, c: int| 0 <= r < t.rows && 0 <= c < t.cols implies {
        &&& (before_cursor(t, r, c) || (r == t.cursor_row && c == t.cursor_col) ==> #[trigger] u.grid[r][c]
            == blank_on(t.bg_color))
        &&& (!before_cursor(t, r, c) && !(r == t.cursor_row && c == t.cursor_col) && !cut_after_cursor(t, r, c)
            ==> u.grid[r][c] == t.grid[r][c])
    } by {
        if r == cr {
            assert(u.grid[r] == cleared_row(row, t.cols, 0, t.cursor_col + 1, t.bg_color));
        }
    }
}

/// Erasing the cursor line from the cursor, cell by cell.
proof fn lemma_clear_line_right_cells(t: TermState)
    requires
        state_wf(t),
    ensures
        line_erased_right(t, spec_clear_line(t, ClearLineMode::FromCursor)),
{
    let u = spec_clear_line(t, ClearLineMode::FromCursor);
    let cr = t.cursor_row;
    let row = t.grid[cr];
    lemma_cleared_row_cells(row, t.cols, t.cursor_col, t.cols, t.bg_color);
    assert forall|r: int, c: int| 0 <= r < t.rows && 0 <= c < t.cols implies {
        &&& (r != t.cursor_row ==> #[trigger] u.grid[r][c] == t.grid[r][c])
        &&& (r == t.cursor_row && c < t.cursor_col && !cut_by_cursor(t, r, c) ==> u.grid[r][c] == t.grid[r][c])
        &&& (r == t.cursor_row && c >= t.cursor_col ==> u.grid[r][c] == blank_on(t.bg_color))
    } by {
        if r == cr {
            assert(u.grid[r] == cleared_row(row, t.cols, t.cursor_col, t.cols, t.bg_color));
        }
    }
}

/// One more character through the parser.
pub(crate) proof fn lemma_run_push(p: ParserModel, t: TermState, s: Seq<char>, c: char)
    ensures
        spec_run(p, t, s.push(c)) == spec_step(spec_run(p, t, s).0, spec_run(p, t, s).1, c),
{
    assert(s.push(c).drop_last() =~= s);
}

/// `ESC [` followed by `body`, run from the normal state.
pub(crate) proof fn lemma_run_csi(p: ParserModel, t: TermState, body: Seq<char>)
    requires
        p.state == ParserState::Normal,
    ensures
        spec_run(p, t, seq!['\u{1b}', '['] + body) == spec_run(
            with_state(cleared_params(p), ParserState::Csi),
            t,
            body,
        ),
    decreases body.len(),
{
    if body.len() == 0 {
        let e = Seq::<char>::empty();
        lemma_run_push(p, t, e, '\u{1b}');
        lemma_run_push(p, t, seq!['\u{1b}'], '[');
        assert(e.push('\u{1b}') =~= seq!['\u{1b}']);
        assert(seq!['\u{1b}'].push('[') =~= seq!['\u{1b}', '[']);
        assert(seq!['\u{1b}', '['] + body =~= seq!['\u{1b}', '[']);
        assert(spec_run(p, t, e) == (p, t));
    } else {
        let front = body.drop_last();
        lemma_run_csi(p, t, front);
        lemma_run_push(p, t, seq!['\u{1b}', '['] + front, body.last());
        assert((seq!['\u{1b}', '['] + front).push(body.last()) =~= seq!['\u{1b}', '['] + body);
        lemma_run_push(with_state(cleared_params(p), ParserState::Csi), t, front, body.last());
        assert(front.push(body.last()) =~= body);
    }
}

/// `ESC [ J` and `ESC [ 0 J` erase from the cursor to the end of the screen.
pub proof fn lemma_erase_below_sequence(p: ParserModel, t: TermState)
    requires
        p.state == ParserState::Normal,
        state_wf(t),
    ensures
        erased_below(t, spec_run(p, t, seq!['\u{1b}', '[', 'J']).1),
        erased_below(t, spec_run(p, t, seq!['\u{1b}', '[', '0', 'J']).1),
{
    let q = with_state(cleared_params(p), ParserState::Csi);
    lemma_clear_from_cursor_cells(t);
    lemma_run_csi(p, t, seq!['J']);
    assert(seq!['\u{1b}', '['] + seq!['J'] =~= seq!['\u{1b}', '[', 'J']);
    lemma_run_push(q, t, Seq::empty(), 'J');
    assert(Seq::<char>::empty().push('J') =~= seq!['J']);
    lemma_run_csi(p, t, seq!['0', 'J']);
    assert(seq!['\u{1b}', '['] + seq!['0', 'J'] =~= seq!['\u{1b}', '[', '0', 'J']);
    lemma_run_push(q, t, Seq::empty(), '0');
    assert(Seq::<char>::empty().push('0') =~= seq!['0']);
    lemma_run_push(q, t, seq!['0'], 'J');
    assert(seq!['0'].push('J') =~= seq!['0', 'J']);
}

/// `ESC [ 1 J` erases from the start of the screen through the cursor.
pub proof fn lemma_erase_above_sequence(p: ParserModel, t: TermState)
    requires
        p.state == ParserState::Normal,
        state_wf(t),
    ensures
        erased_above(t, spec_run(p, t, seq!['\u{1b}', '[', '1', 'J']).1),
{
    let q = with_state(cleared_params(p), ParserState::Csi);
    lemma_clear_to_cursor_cells(t);
    lemma_run_csi(p, t, seq!['1', 'J']);
    assert(seq!['\u{1b}', '['] + seq!['1', 'J'] =~= seq!['\u{1b}', '[', '1', 'J']);
    lemma_run_push(q, t, Seq::empty(), '1');
    assert(Seq::<char>::empty().push('1') =~= seq!['1']);
    lemma_run_push(q, t, seq!['1'], 'J');
    assert(seq!['1'].push('J') =~= seq!['1', 'J']);
}

/// `ESC [ K` and `ESC [ 0 K` erase the cursor line from the cursor to its end.
pub proof fn lemma_erase_line_right_sequence(p: ParserModel, t: TermState)
    requires
        p.state == ParserState::Normal,
        state_wf(t),
    ensures
        line_erased_right(t, spec_run(p, t, seq!['\u{1b}', '[', 'K']).1),
        line_erased_right(t, spec_run(p, t, seq!['\u{1b}', '[', '0', 'K']).1),
{
    let q = with_state(cleared_params(p), ParserState::Csi);
    lemma_clear_line_right_cells(t);
    lemma_run_csi(p, t, seq!['K']);
    assert(seq!['\u{1b}', '['] + seq!['K'] =~= seq!['\u{1b}', '[', 'K']);
    lemma_run_push(q, t, Seq::empty(), 'K');
    assert(Seq::<char>::empty().push('K') =~= seq!['K']);
    lemma_run_csi(p, t, seq!['0', 'K']);
    assert(seq!['\u{1b}', '['] + seq!['0', 'K'] =~= seq!['\u{1b}', '[', '0', 'K']);
    lemma_run_push(q, t, Seq::empty(), '0');
    assert(Seq::<char>::empty().push('0') =~= seq!['0']);
    lemma_run_push(q, t, seq!['0'], 'K');
    assert(seq!['0'].push('K') =~= seq!['0', 'K']);
}

/// `ESC [ 2 J` blanks the whole screen and sends the cursor home.
pub proof fn lemma_erase_screen_sequence(p: ParserModel, t: TermState)
    requires
        p.state == ParserState::Normal,
        state_wf(t),
    ensures
        screen_erased(t, spec_run(p, t, seq!['\u{1b}', '[', '2', 'J']).1),
{
    let q = with_state(cleared_params(p), ParserState::Csi);
    lemma_run_csi(p, t, seq!['2', 'J']);
    assert(seq!['\u{1b}', '['] + seq!['2', 'J'] =~= seq!['\u{1b}', '[', '2', 'J']);
    lemma_run_push(q, t, Seq::empty(), '2');
    assert(Seq::<char>::empty().push('2') =~= seq!['2']);
    lemma_run_push(q, t, seq!['2'], 'J');
    assert(seq!['2'].push('J') =~= seq!['2', 'J']);
    let u = spec_clear_screen(t, ClearScreenMode::All);
    assert forall|r: int, c: int| 0 <= r < t.rows && 0 <= c < t.cols implies #[trigger] u.grid[r][c] == blank_cell() by {
        assert(u.grid[r] == blank_row(t.cols));
    }
}

/// `ESC [ 1 K` erases the cursor line from its start through the cursor.
pub proof fn lemma_erase_line_left_sequence(p: ParserModel, t: TermState)
    requires
        p.state == ParserState::Normal,
        state_wf(t),
    ensures
        line_erased_left(t, spec_run(p, t, seq!['\u{1b}', '[', '1', 'K']).1),
{
    let q = with_state(cleared_params(p), ParserState::Csi);
    lemma_run_csi(p, t, seq!['1', 'K']);
    assert(seq!['\u{1b}', '['] + seq!['1', 'K'] =~= seq!['\u{1b}', '[', '1', 'K']);
    lemma_run_push(q, t, Seq::empty(), '1');
    assert(Seq::<char>::empty().push('1') =~= seq!['1']);
    lemma_run_push(q, t, seq!['1'], 'K');
    assert(seq!['1'].push('K') =~= seq!['1', 'K']);
    let u = spec_clear_line(t, ClearLineMode::ToCursor);
    let cr = t.cursor_row;
    let row = t.grid[cr];
    lemma_cleared_row_cells(row, t.cols, 0, t.cursor_col + 1, t.bg_color);
    assert forall|r: int, c: int| 0 <= r < t.rows && 0 <= c < t.cols implies {
        &&& (r != t.cursor_row ==> #[trigger] u.grid[r][c] == t.grid[r][c])
        &&& (r == t.cursor_row && c <= t.cursor_col ==> u.grid[r][c] == blank_on(t.bg_color))
        &&& (r == t.cursor_row && c > t.cursor_col && !cut_after_cursor(t, r, c) ==> u.grid[r][c] == t.grid[r][c])
    } by {
        if r == cr {
            assert(u.grid[r] == cleared_row(row, t.cols, 0, t.cursor_col + 1, t.bg_color));
        }
    }
}

/// `ESC [ 2 K` blanks the whole cursor line.
pub proof fn lemma_erase_line_sequence(p: ParserModel, t: TermState)
    requires
        p.state == ParserState::Normal,
        state_wf(t),
    ensures
        line_erased(t, spec_run(p, t, seq!['\u{1b}', '[', '2', 'K']).1),
{
    let q = with_state(cleared_params(p), ParserState::Csi);
    lemma_run_csi(p, t, seq!['2', 'K']);
    assert(seq!['\u{1b}', '['] + seq!['2', 'K'] =~= seq!['\u{1b}', '[', '2', 'K']);
    lemma_run_push(q, t, Seq::empty(), '2');
    assert(Seq::<char>::empty().push('2') =~= seq!['2']);
    lemma_run_push(q, t, seq!['2'], 'K');
    assert(seq!['2'].push('K') =~= seq!['2', 'K']);
    let u = spec_clear_line(t, ClearLineMode::All);
    let cr = t.cursor_row;
    let row = t.grid[cr];
    lemma_cleared_row_cells(row, t.cols, 0, t.cols, t.bg_color);
    assert forall|r: int, c: int| 0 <= r < t.rows && 0 <= c < t.cols implies {
        &&& (r != t.cursor_row ==> #[trigger] u.grid[r][c] == t.grid[r][c])
        &&& (r == t.cursor_row ==> u.grid[r][c] == blank_on(t.bg_color))
    } by {
        if r == cr {
            assert(u.grid[r] == cleared_row(row, t.cols, 0, t.cols, t.bg_color));
        }
    }
}

/// `ESC [ r ; c H`, with one-digit row and column numbers counted from 1,
/// puts the cursor on row `r` and column `c` (outside origin mode, on the
/// screen), leaving the screen as it is.
pub proof fn lemma_cursor_position_sequence(p: ParserModel, t: TermState, r: char, c: char)
    requires
        p.state == ParserState::Normal,
        state_wf(t),
        !t.origin_mode,
        '1' <= r <= '9',
        '1' <= c <= '9',
        (r as int - '1' as int) < t.rows,
        (c as int - '1' as int) < t.cols,
    ensures
        ({
            let run = spec_run(p, t, seq!['\u{1b}', '[', r, ';', c, 'H']);
            let u = run.1;
            &&& u.grid == t.grid
            &&& u.cursor_row == r as int - '1' as int
            &&& u.cursor_col == c as int - '1' as int
            &&& u.saved_cursor_row == t.saved_cursor_row && u.saved_cursor_col == t.saved_cursor_col
            &&& run.0.state == ParserState::Normal
        }),
{
    let q = with_state(cleared_params(p), ParserState::Csi);
    let body = seq![r, ';', c, 'H'];
    lemma_run_csi(p, t, body);
    assert(seq!['\u{1b}', '['] + body =~= seq!['\u{1b}', '[', r, ';', c, 'H']);
    let e = Seq::<char>::empty();
    lemma_run_push(q, t, e, r);
    assert(e.push(r) =~= seq![r]);
    lemma_run_push(q, t, seq![r], ';');
    assert(seq![r].push(';') =~= seq![r, ';']);
    lemma_run_push(q, t, seq![r, ';'], c);
    assert(seq![r, ';'].push(c) =~= seq![r, ';', c]);
    lemma_run_push(q, t, seq![r, ';', c], 'H');
    assert(seq![r, ';', c].push('H') =~= body);
}

/// One character run from the start.
proof fn lemma_run_one(p: ParserModel, t: TermState, c: char)
    ensures
        spec_run(p, t, seq![c]) == spec_step(p, t, c),
{
    lemma_run_push(p, t, Seq::empty(), c);
    assert(Seq::<char>::empty().push(c) =~= seq![c]);
}

/// With any character set but the DEC graphics set (`0`), a character that
/// is not a control character is drawn as itself at the cursor.
pub proof fn lemma_printable_char_is_drawn(p: ParserModel, t: TermState, c: char)
    requires
        p.state == ParserState::Normal,
        p.charset != 48,
        !(c <= '\u{1f}' || ('\u{7f}' <= c && c <= '\u{9f}')),
    ensures
        spec_run(p, t, seq![c]) == (p, spec_put_char(t, c)),
{
    lemma_run_one(p, t, c);
}

/// Carriage return sends the cursor to column 0 of its row, backspace moves
/// it one column left (staying at column 0), and line feed moves it one row
/// down (above the bottom of the scroll region and outside line-feed/new-line
/// mode), keeping its column; none of them changes the screen's cells.
pub proof fn lemma_format_effectors_move_the_cursor(p: ParserModel, t: TermState)
    requires
        p.state == ParserState::Normal,
        state_wf(t),
    ensures
        spec_run(p, t, seq!['\r']).1.grid == t.grid,
        spec_run(p, t, seq!['\r']).1.cursor_row == t.cursor_row,
        spec_run(p, t, seq!['\r']).1.cursor_col == 0,
        spec_run(p, t, seq!['\u{8}']).1.grid == t.grid,
        spec_run(p, t, seq!['\u{8}']).1.cursor_row == t.cursor_row,
        spec_run(p, t, seq!['\u{8}']).1.cursor_col == if t.cursor_col > 0 { t.cursor_col - 1 } else { 0 },
        t.cursor_row < t.scroll_bottom && !t.line_feed_new_line_mode ==> {
            &&& spec_run(p, t, seq!['\n']).1.grid == t.grid
            &&& spec_run(p, t, seq!['\n']).1.cursor_row == t.cursor_row + 1
            &&& spec_run(p, t, seq!['\n']).1.cursor_col == t.cursor_col
        },
{
    lemma_run_one(p, t, '\r');
    lemma_run_one(p, t, '\u{8}');
    lemma_run_one(p, t, '\n');
}

/// `ESC [ 3 d m` sets the foreground and `ESC [ 4 d m` the background to
/// the `d`-th of the eight named colors, changing nothing else.
pub proof fn lemma_color_sequences(p: ParserModel, t: TermState, d: char)
    requires
        p.state == ParserState::Normal,
        '0' <= d <= '7',
    ensures
        ({
            let f = spec_run(p, t, seq!['\u{1b}', '[', '3', d, 'm']).1;
            let b = spec_run(p, t, seq!['\u{1b}', '[', '4', d, 'm']).1;
            &&& f == (TermState { fg_color: named_color(d as int - '0' as int), ..t })
            &&& b == (TermState { bg_color: named_color(d as int - '0' as int), ..t })
        }),
{
    let q = with_state(cleared_params(p), ParserState::Csi);
    let e = Seq::<char>::empty();
    lemma_run_csi(p, t, seq!['3', d, 'm']);
    assert(seq!['\u{1b}', '['] + seq!['3', d, 'm'] =~= seq!['\u{1b}', '[', '3', d, 'm']);
    lemma_run_push(q, t, e, '3');
    assert(e.push('3') =~= seq!['3']);
    lemma_run_push(q, t, seq!['3'], d);
    assert(seq!['3'].push(d) =~= seq!['3', d]);
    lemma_run_push(q, t, seq!['3', d], 'm');
    assert(seq!['3', d].push('m') =~= seq!['3', d, 'm']);
    lemma_run_csi(p, t, seq!['4', d, 'm']);
    assert(seq!['\u{1b}', '['] + seq!['4', d, 'm'] =~= seq!['\u{1b}', '[', '4', d, 'm']);
    lemma_run_push(q, t, e, '4');
    assert(e.push('4') =~= seq!['4']);
    lemma_run_push(q, t, seq!['4'], d);
    assert(seq!['4'].push(d) =~= seq!['4', d]);
    lemma_run_push(q, t, seq!['4', d], 'm');
    assert(seq!['4', d].push('m') =~= seq!['4', d, 'm']);
    let v = d as int - '0' as int;
    assert(seq![30 + v as usize].len() == 1);
    reveal_with_fuel(sgr_from, 2);
}

/// `ESC [ m` and `ESC [ 0 m` reset the drawing attributes to the default
/// colors with no emphasis, and `ESC [ 1 m` turns bold on, changing nothing
/// else.
pub proof fn lemma_attribute_sequences(p: ParserModel, t: TermState)
    requires
        p.state == ParserState::Normal,
    ensures
        spec_run(p, t, seq!['\u{1b}', '[', 'm']).1 == (TermState {
            fg_color: Color::Default,
            bg_color: Color::Default,
            bold: false,
            underline: false,
            blink: false,
            reverse: false,
            ..t
        }),
        spec_run(p, t, seq!['\u{1b}', '[', '0', 'm']).1 == spec_run(p, t, seq!['\u{1b}', '[', 'm']).1,
        spec_run(p, t, seq!['\u{1b}', '[', '1', 'm']).1 == (TermState { bold: true, ..t }),
{
    let q = with_state(cleared_params(p), ParserState::Csi);
    let e = Seq::<char>::empty();
    lemma_run_csi(p, t, seq!['m']);
    assert(seq!['\u{1b}', '['] + seq!['m'] =~= seq!['\u{1b}', '[', 'm']);
    lemma_run_push(q, t, e, 'm');
    assert(e.push('m') =~= seq!['m']);
    lemma_run_push(q, t, e, '0');
    assert(e.push('0') =~= seq!['0']);
    lemma_run_push(q, t, e, '1');
    assert(e.push('1') =~= seq!['1']);
    lemma_run_csi(p, t, seq!['0', 'm']);
    assert(seq!['\u{1b}', '['] + seq!['0', 'm'] =~= seq!['\u{1b}', '[', '0', 'm']);
    lemma_run_push(q, t, seq!['0'], 'm');
    assert(seq!['0'].push('m') =~= seq!['0', 'm']);
    lemma_run_csi(p, t, seq!['1', 'm']);
    assert(seq!['\u{1b}', '['] + seq!['1', 'm'] =~= seq!['\u{1b}', '[', '1', 'm']);
    lemma_run_push(q, t, seq!['1'], 'm');
    assert(seq!['1'].push('m') =~= seq!['1', 'm']);
    reveal_with_fuel(sgr_from, 2);
}

/// `ESC [ 4 h` and `ESC [ 4 l` turn insert mode on and off, changing
/// nothing else.
pub proof fn lemma_insert_mode_sequences(p: ParserModel, t: TermState)
    requires
        p.state == ParserState::Normal,
    ensures
        spec_run(p, t, seq!['\u{1b}', '[', '4', 'h']).1 == (TermState { insert_mode: true, ..t }),
        spec_run(p, t, seq!['\u{1b}', '[', '4', 'l']).1 == (TermState { insert_mode: false, ..t }),
{
    let q = with_state(cleared_params(p), ParserState::Csi);
    let e = Seq::<char>::empty();
    lemma_run_push(q, t, e, '4');
    assert(e.push('4') =~= seq!['4']);
    assert(seq![4usize][0] == 4);
    assert(seq![4usize].contains(4));
    assert(!seq![4usize].contains(20));
    lemma_run_csi(p, t, seq!['4', 'h']);
    assert(seq!['\u{1b}', '['] + seq!['4', 'h'] =~= seq!['\u{1b}', '[', '4', 'h']);
    lemma_run_push(q, t, seq!['4'], 'h');
    assert(seq!['4'].push('h') =~= seq!['4', 'h']);
    lemma_run_csi(p, t, seq!['4', 'l']);
    assert(seq!['\u{1b}', '['] + seq!['4', 'l'] =~= seq!['\u{1b}', '[', '4', 'l']);
    lemma_run_push(q, t, seq!['4'], 'l');
    assert(seq!['4'].push('l') =~= seq!['4', 'l']);
}

/// `ESC [ ? 7 h` and `ESC [ ? 7 l` turn auto-wrap on and off, changing
/// nothing else.
pub proof fn lemma_auto_wrap_sequences(p: ParserModel, t: TermState)
    requires
        p.state == ParserState::Normal,
    ensures
        spec_run(p, t, seq!['\u{1b}', '[', '?', '7', 'h']).1 == (TermState { auto_wrap: true, ..t }),
        spec_run(p, t, seq!['\u{1b}', '[', '?', '7', 'l']).1 == (TermState { auto_wrap: false, ..t }),
{
    let q = with_state(cleared_params(p), ParserState::Csi);
    let e = Seq::<char>::empty();
    lemma_run_push(q, t, e, '?');
    assert(e.push('?') =~= seq!['?']);
    lemma_run_push(q, t, seq!['?'], '7');
    assert(seq!['?'].push('7') =~= seq!['?', '7']);
    assert(seq![7usize][0] == 7);
    assert(seq![7usize].contains(7));
    assert(!seq![7usize].contains(6));
    lemma_run_csi(p, t, seq!['?', '7', 'h']);
    assert(seq!['\u{1b}', '['] + seq!['?', '7', 'h'] =~= seq!['\u{1b}', '[', '?', '7', 'h']);
    lemma_run_push(q, t, seq!['?', '7'], 'h');
    assert(seq!['?', '7'].push('h') =~= seq!['?', '7', 'h']);
    lemma_run_csi(p, t, seq!['?', '7', 'l']);
    assert(seq!['\u{1b}', '['] + seq!['?', '7', 'l'] =~= seq!['\u{1b}', '[', '?', '7', 'l']);
    lemma_run_push(q, t, seq!['?', '7'], 'l');
    assert(seq!['?', '7'].push('l') =~= seq!['?', '7', 'l']);
}

/// `ESC 7` saves the cursor and `ESC 8` restores it: after `ESC 7`, moving
/// the cursor with `ESC [ r ; c H`, then `ESC 8`, the cursor is back where it
/// was and the screen is as it was.
pub proof fn lemma_save_restore_sequences(p: ParserModel, t: TermState, r: char, c: char)
    requires
        p.state == ParserState::Normal,
        state_wf(t),
        !t.origin_mode,
        '1' <= r <= '9',
        '1' <= c <= '9',
        (r as int - '1' as int) < t.rows,
        (c as int - '1' as int) < t.cols,
    ensures
        ({
            let s = seq!['\u{1b}', '7', '\u{1b}', '[', r, ';', c, 'H', '\u{1b}', '8'];
            let u = spec_run(p, t, s).1;
            &&& u.grid == t.grid
            &&& u.cursor_row == t.cursor_row
            &&& u.cursor_col == t.cursor_col
        }),
{
    let e = Seq::<char>::empty();
    let a = seq!['\u{1b}', '7'];
    lemma_run_push(p, t, e, '\u{1b}');
    assert(e.push('\u{1b}') =~= seq!['\u{1b}']);
    lemma_run_push(p, t, seq!['\u{1b}'], '7');
    assert(seq!['\u{1b}'].push('7') =~= a);
    let p1 = spec_run(p, t, a).0;
    let t1 = spec_run(p, t, a).1;
    assert(p1.state == ParserState::Normal);
    assert(t1 == spec_save_cursor(t));
    let b = seq!['\u{1b}', '[', r, ';', c, 'H'];
    lemma_cursor_position_sequence(p1, t1, r, c);
    lemma_run_concat(p, t, a, b);
    let ab = a + b;
    let p2 = spec_run(p, t, ab).0;
    let t2 = spec_run(p, t, ab).1;
    assert(p2 == spec_run(p1, t1, b).0);
    assert(t2 == spec_run(p1, t1, b).1);
    lemma_run_push(p, t, ab, '\u{1b}');
    let p3 = spec_run(p, t, ab.push('\u{1b}')).0;
    let t3 = spec_run(p, t, ab.push('\u{1b}')).1;
    assert(t3 == t2);
    assert(p3.state == ParserState::Escape);
    lemma_run_push(p, t, ab.push('\u{1b}'), '8');
    assert(spec_run(p, t, ab.push('\u{1b}').push('8')).1 == spec_restore_cursor(t2));
    assert(ab.push('\u{1b}').push('8') =~= seq!['\u{1b}', '7', '\u{1b}', '[', r, ';', c, 'H', '\u{1b}', '8']);
}

/// `ESC [ F` for a final byte `F`, run from the normal state.
proof fn lemma_run_bare_csi(p: ParserModel, t: TermState, f: char)
    requires
        p.state == ParserState::Normal,
    ensures
        spec_run(p, t, seq!['\u{1b}', '[', f]) == spec_step(with_state(cleared_params(p), ParserState::Csi), t, f),
{
    let q = with_state(cleared_params(p), ParserState::Csi);
    lemma_run_csi(p, t, seq![f]);
    assert(seq!['\u{1b}', '['] + seq![f] =~= seq!['\u{1b}', '[', f]);
    lemma_run_push(q, t, Seq::<char>::empty(), f);
    assert(Seq::<char>::empty().push(f) =~= seq![f]);
}

/// `ESC [ S` scrolls the region up one line and `ESC [ T` down one line;
/// with the cursor in or above the region, `ESC [ L` inserts a blank line at
/// the cursor (the lines below move down) and `ESC [ M` deletes the cursor
/// line (the lines below move up).
pub proof fn lemma_line_sequences(p: ParserModel, t: TermState)
    requires
        p.state == ParserState::Normal,
        state_wf(t),
    ensures
        moved_up(t, spec_run(p, t, seq!['\u{1b}', '[', 'S']).1, t.scroll_top, t.scroll_bottom, 1),
        moved_down(t, spec_run(p, t, seq!['\u{1b}', '[', 'T']).1, t.scroll_top, t.scroll_bottom, 1),
        t.cursor_row <= t.scroll_bottom ==> moved_down(
            t,
            spec_run(p, t, seq!['\u{1b}', '[', 'L']).1,
            t.cursor_row,
            t.scroll_bottom,
            1,
        ),
        t.cursor_row <= t.scroll_bottom ==> moved_up(
            t,
            spec_run(p, t, seq!['\u{1b}', '[', 'M']).1,
            t.cursor_row,
            t.scroll_bottom,
            1,
        ),
{
    lemma_run_bare_csi(p, t, 'S');
    lemma_run_bare_csi(p, t, 'T');
    lemma_run_bare_csi(p, t, 'L');
    lemma_run_bare_csi(p, t, 'M');
    lemma_scroll_up_moves_lines_up(t, 1);
    lemma_scroll_down_moves_lines_down(t, 1);
    if t.cursor_row <= t.scroll_bottom {
        lemma_insert_lines_moves_lines_down(t, 1);
        lemma_delete_lines_moves_lines_up(t, 1);
    }
}

} // verus!
