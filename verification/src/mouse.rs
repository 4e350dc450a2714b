//! Mouse to byte-stream helpers for Welly-style BBS navigation.

use vstd::prelude::*;

use crate::cell::Cell;
use crate::input::{GridPoint, WheelDir};
use crate::input::{Key, KeyEvent};
use crate::keys::{arrow_dir, csi_key, key_bytes, tilde_key, unmodified};
use crate::terminal::Terminal;

verus! {

/// The fixed screen height the BBS navigation areas are laid out for.
pub const TERMINAL_ROWS: usize = 24;

/// The wheel scrolls as the arrow keys do.
pub open spec fn wheel_bytes(dir: WheelDir) -> Seq<u8> {
    match dir {
        WheelDir::Up => csi_key(0x41),
        WheelDir::Down => csi_key(0x42),
        WheelDir::Left => csi_key(0x44),
        WheelDir::Right => csi_key(0x43),
    }
}

/// `s` repeated `n` times.
pub open spec fn repeated(s: Seq<u8>, n: nat) -> Seq<u8>
    decreases n,
{
    if n == 0 {
        Seq::empty()
    } else {
        repeated(s, (n - 1) as nat) + s
    }
}

/// Moving the BBS cursor from `cursor_row` to `target_row` one arrow key per
/// row, then Enter.
pub open spec fn entry_click_bytes(cursor_row: int, target_row: int) -> Seq<u8> {
    if target_row > cursor_row {
        repeated(csi_key(0x42), (target_row - cursor_row) as nat) + seq![0x0du8]
    } else {
        repeated(csi_key(0x41), (cursor_row - target_row) as nat) + seq![0x0du8]
    }
}

/// A click on the background navigates: the left edge of the list rows goes
/// back, the right side pages up (upper half) or down (lower half).
pub open spec fn background_bytes(point: GridPoint) -> Option<Seq<u8>> {
    if point.col == 0 && 3 <= point.row < TERMINAL_ROWS - 1 {
        Some(csi_key(0x44))
    } else if point.col >= 20 {
        if point.row < TERMINAL_ROWS / 2 {
            Some(tilde_key(0x35))
        } else {
            Some(tilde_key(0x36))
        }
    } else {
        None
    }
}

/// A cell showing text: neither a continuation cell nor a space.
pub open spec fn shows_text(c: Cell) -> bool {
    c.width != 0 && c.ch != ' '
}

/// A cell ending visible text: showing text and not NUL.
pub open spec fn ends_text(c: Cell) -> bool {
    c.width != 0 && c.ch != ' ' && c.ch != '\0'
}

/// The first column at or after `from` that shows text.
pub open spec fn first_text_col(row: Seq<Cell>, from: int) -> Option<int>
    decreases row.len() - from,
{
    if from < 0 || from >= row.len() {
        None
    } else if shows_text(row[from]) {
        Some(from)
    } else {
        first_text_col(row, from + 1)
    }
}

/// The last column before `end` that ends text.
pub open spec fn last_text_col(row: Seq<Cell>, end: int) -> Option<int>
    decreases end,
{
    if end <= 0 || end > row.len() {
        None
    } else if ends_text(row[end - 1]) {
        Some(end - 1)
    } else {
        last_text_col(row, end - 1)
    }
}

/// Whether `point` lies on a visible BBS entry: on one of the list rows (from
/// row 3 to the one before the last), at column 2 or later, between the first
/// text column from column 2 and the last text column of the row, the span
/// reaching at least 30 columns but not past the last column of the screen.
pub open spec fn entry_click_spec(rows: int, cols: int, row: Seq<Cell>, point: GridPoint) -> bool {
    if !(3 <= point.row && point.row < sat_sub_int(rows, 1)) || point.col < 2 {
        false
    } else {
        match first_text_col(row, 2) {
            None => false,
            Some(start) => match last_text_col(row, row.len() as int) {
                None => false,
                Some(end) => {
                    let reach = if end > start + 29 {
                        end
                    } else {
                        start + 29
                    };
                    let click_end = if reach < sat_sub_int(cols, 1) {
                        reach
                    } else {
                        sat_sub_int(cols, 1)
                    };
                    start <= point.col && point.col <= click_end
                },
            },
        }
    }
}

pub open spec fn sat_sub_int(a: int, b: int) -> int {
    if a >= b {
        a - b
    } else {
        0
    }
}

fn push_csi_key(bytes: &mut Vec<u8>, c: u8)
    ensures
        final(bytes)@ == old(bytes)@ + csi_key(c),
{
    bytes.push(0x1b);
    bytes.push(0x5b);
    bytes.push(c);
    assert(final(bytes)@ =~= old(bytes)@ + csi_key(c));
}

pub fn bytes_for_wheel(dir: WheelDir) -> (r: Vec<u8>)
    ensures
        r@ == wheel_bytes(dir),
{
    let mut bytes = Vec::new();
    match dir {
        WheelDir::Up => push_csi_key(&mut bytes, 0x41),
        WheelDir::Down => push_csi_key(&mut bytes, 0x42),
        WheelDir::Left => push_csi_key(&mut bytes, 0x44),
        WheelDir::Right => push_csi_key(&mut bytes, 0x43),
    }
    assert(bytes@ =~= wheel_bytes(dir));
    bytes
}

/// The keys that move the BBS cursor to the clicked entry row and open it.
pub fn bytes_for_entry_click(cursor_row: usize, target_row: usize) -> (r: Vec<u8>)
    ensures
        r@ == entry_click_bytes(cursor_row as int, target_row as int),
{
    let mut bytes: Vec<u8> = Vec::new();
    let (from, to, key) = if target_row > cursor_row {
        (cursor_row, target_row, 0x42u8)
    } else {
        (target_row, cursor_row, 0x41u8)
    };
    let mut i = from;
    assert(bytes@ =~= repeated(csi_key(key), 0));
    while i < to
        invariant
            from <= i <= to,
            bytes@ == repeated(csi_key(key), (i - from) as nat),
        decreases to - i,
    {
        push_csi_key(&mut bytes, key);
        i += 1;
    }
    bytes.push(0x0d);
    bytes
}

pub fn bytes_for_background_navigation(point: GridPoint) -> (r: Option<Vec<u8>>)
    ensures
        crate::keys::opt_bytes_view(r) == background_bytes(point),
{
    if point.col == 0 && 3 <= point.row && point.row < TERMINAL_ROWS - 1 {
        let mut bytes = Vec::new();
        push_csi_key(&mut bytes, 0x44);
        assert(bytes@ =~= csi_key(0x44));
        return Some(bytes);
    }
    if point.col >= 20 {
        let d: u8 = if point.row < TERMINAL_ROWS / 2 {
            0x35
        } else {
            0x36
        };
        let v = vec![0x1bu8, 0x5bu8, d, 0x7eu8];
        assert(v@ =~= tilde_key(d));
        return Some(v);
    }
    None
}

/// True if `point` lies on a visible BBS entry row (see
/// [`entry_click_spec`]).
pub fn is_entry_click_point(term: &Terminal, point: GridPoint) -> (r: bool)
    requires
        term.wf(),
    ensures
        r == entry_click_spec(term.rows as int, term.cols as int, term@.grid[point.row as int], point),
{
    if !(3 <= point.row && point.row < term.rows.saturating_sub(1)) || point.col < 2 {
        return false;
    }
    let row = &term.grid[point.row];
    let ghost cells = row@;
    assert(cells == term@.grid[point.row as int]);
    let mut c: usize = 2;
    while c < row.len()
        invariant
            2 <= c,
            cells == row@,
            first_text_col(cells, 2) == first_text_col(cells, c as int),
        ensures
            first_text_col(cells, 2) == first_text_col(cells, c as int),
            c < row@.len() ==> shows_text(cells[c as int]),
        decreases row.len() - c,
    {
        if row[c].width != 0 && row[c].ch != ' ' {
            break;
        }
        c += 1;
    }
    if c >= row.len() {
        return false;
    }
    let start = c;
    let mut e: usize = row.len();
    while e > 0
        invariant
            e <= row@.len(),
            cells == row@,
            last_text_col(cells, cells.len() as int) == last_text_col(cells, e as int),
        ensures
            e <= row@.len(),
            last_text_col(cells, cells.len() as int) == last_text_col(cells, e as int),
            e > 0 ==> ends_text(cells[e - 1]),
        decreases e,
    {
        if row[e - 1].width != 0 && row[e - 1].ch != ' ' && row[e - 1].ch != '\0' {
            break;
        }
        e -= 1;
    }
    if e == 0 {
        return false;
    }
    let end = e - 1;
    let reach = if end > start.saturating_add(29) {
        end
    } else {
        start.saturating_add(29)
    };
    let last = term.cols.saturating_sub(1);
    let click_end = if reach < last {
        reach
    } else {
        last
    };
    start <= point.col && point.col <= click_end
}

/// The entry-click keys are one arrow key per row between the two rows
/// followed by Enter.
pub proof fn lemma_entry_click_length(cursor_row: int, target_row: int)
    ensures
        entry_click_bytes(cursor_row, target_row).len() == 3 * (if target_row > cursor_row {
            target_row - cursor_row
        } else {
            cursor_row - target_row
        }) + 1,
        entry_click_bytes(cursor_row, target_row).last() == 0x0du8,
{
    let n = if target_row > cursor_row {
        target_row - cursor_row
    } else {
        cursor_row - target_row
    };
    let key: u8 = if target_row > cursor_row {
        0x42
    } else {
        0x41
    };
    lemma_repeated_len(csi_key(key), n as nat);
    assert(csi_key(key).len() == 3);
    assert(repeated(csi_key(key), n as nat).len() == n * 3);
    assert(entry_click_bytes(cursor_row, target_row) == repeated(csi_key(key), n as nat) + seq![0x0du8]);
}

proof fn lemma_repeated_len(s: Seq<u8>, n: nat)
    ensures
        repeated(s, n).len() == n * s.len(),
    decreases n,
{
    if n == 0 {
        assert(n * s.len() == 0) by (nonlinear_arith)
            requires
                n == 0,
        ;
    } else {
        let m = (n - 1) as nat;
        lemma_repeated_len(s, m);
        assert(repeated(s, n) == repeated(s, m) + s);
        assert(n * s.len() == m * s.len() + s.len()) by (nonlinear_arith)
            requires
                n == m + 1,
        ;
    }
}

/// The keys a click on an entry row sends, as the program's click handler
/// names them: the same as [`bytes_for_entry_click`].
pub fn mouse_entry_click_to_bytes(cursor_row: usize, target_row: usize) -> (r: Vec<u8>)
    ensures
        r@ == entry_click_bytes(cursor_row as int, target_row as int),
{
    bytes_for_entry_click(cursor_row, target_row)
}

/// Whether a click lands on an entry row, as the program's click handler
/// names it: the same as [`is_entry_click_point`].
pub fn is_mouse_entry_click_point(term: &Terminal, point: GridPoint) -> (r: bool)
    requires
        term.wf(),
    ensures
        r == entry_click_spec(term.rows as int, term.cols as int, term@.grid[point.row as int], point),
{
    is_entry_click_point(term, point)
}

/// The navigation keys of a click beside the entries, as the program's
/// click handler names them: the same as [`bytes_for_background_navigation`].
pub fn mouse_background_navigation_bytes(point: GridPoint) -> (r: Option<Vec<u8>>)
    ensures
        crate::keys::opt_bytes_view(r) == background_bytes(point),
{
    bytes_for_background_navigation(point)
}

/// The first text column from `from` on is the first column, from `from`
/// on, that shows text.
proof fn lemma_first_text_col(row: Seq<Cell>, from: int)
    requires
        0 <= from,
    ensures
        match first_text_col(row, from) {
            Some(s) => from <= s < row.len() && shows_text(row[s]) && forall|j: int|
                from <= j < s ==> !shows_text(#[trigger] row[j]),
            None => forall|j: int| from <= j < row.len() ==> !shows_text(#[trigger] row[j]),
        },
    decreases row.len() - from,
{
    if from < row.len() && !shows_text(row[from]) {
        lemma_first_text_col(row, from + 1);
    }
}

/// The last text column before `end` is the last column before `end` that
/// ends text.
proof fn lemma_last_text_col(row: Seq<Cell>, end: int)
    requires
        end <= row.len(),
    ensures
        match last_text_col(row, end) {
            Some(x) => 0 <= x < end && ends_text(row[x]) && forall|j: int|
                x < j < end ==> !ends_text(#[trigger] row[j]),
            None => forall|j: int| 0 <= j < end ==> !ends_text(#[trigger] row[j]),
        },
    decreases end,
{
    if 0 < end && !ends_text(row[end - 1]) {
        lemma_last_text_col(row, end - 1);
    }
}

/// A click on a list row (from row 3 to the one before the last) opens the
/// entry wherever it lands on the row's visible text: every column from a
/// cell showing text (at column 2 or later) through a cell ending text
/// further right is a click point.
pub proof fn lemma_entry_click_covers_visible_text(rows: int, cols: int, row: Seq<Cell>, point: GridPoint, a: int, e: int)
    requires
        row.len() == cols,
        3 <= point.row && point.row + 1 < rows,
        2 <= a <= point.col <= e < cols,
        row[a].width != 0 && row[a].ch != ' ',
        row[e].width != 0 && row[e].ch != ' ' && row[e].ch != '\0',
    ensures
        entry_click_spec(rows, cols, row, point),
{
    lemma_first_text_col(row, 2);
    lemma_last_text_col(row, cols);
}

/// The click span of an entry reaches at least 30 columns from the row's
/// first text column (at column 2 or later), as far as the screen goes, as
/// long as some text ends on the row.
pub proof fn lemma_entry_click_spans_thirty_columns(rows: int, cols: int, row: Seq<Cell>, point: GridPoint, a: int, e: int)
    requires
        row.len() == cols,
        3 <= point.row && point.row + 1 < rows,
        2 <= a <= point.col <= a + 29,
        point.col < cols,
        row[a].width != 0 && row[a].ch != ' ',
        forall|j: int| 2 <= j < a ==> !(#[trigger] row[j].width != 0 && row[j].ch != ' '),
        0 <= e < cols,
        row[e].width != 0 && row[e].ch != ' ' && row[e].ch != '\0',
    ensures
        entry_click_spec(rows, cols, row, point),
{
    lemma_first_text_col(row, 2);
    lemma_last_text_col(row, cols);
    assert forall|j: int| 2 <= j < a implies !shows_text(#[trigger] row[j]) by {
        assert(!(row[j].width != 0 && row[j].ch != ' '));
    }
}

/// A click opens no entry off the list rows, left of column 2, or left of
/// the row's first text column.
pub proof fn lemma_entry_click_needs_text_at_or_left(rows: int, cols: int, row: Seq<Cell>, point: GridPoint)
    requires
        row.len() == cols,
        !(3 <= point.row && point.row + 1 < rows) || point.col < 2 || forall|j: int|
            2 <= j <= point.col && j < cols ==> !(#[trigger] row[j].width != 0 && row[j].ch != ' '),
    ensures
        !entry_click_spec(rows, cols, row, point),
{
    lemma_first_text_col(row, 2);
    if 3 <= point.row && point.row + 1 < rows && point.col >= 2 {
        match first_text_col(row, 2) {
            Some(s) => {
                if s <= point.col {
                    assert(!(row[s].width != 0 && row[s].ch != ' '));
                }
            },
            None => {},
        }
    }
}

/// A click on an entry presses the arrow key toward the entry's row once per
/// row between the BBS cursor and the entry (Down when the entry is below,
/// Up otherwise), then Enter, exactly as those key presses send.
pub proof fn lemma_entry_click_presses_arrows_then_enter(
    cursor_row: int,
    target_row: int,
    down: KeyEvent,
    up: KeyEvent,
    enter: KeyEvent,
)
    requires
        unmodified(down) && down.key == Key::ArrowDown,
        unmodified(up) && up.key == Key::ArrowUp,
        unmodified(enter) && enter.key == Key::Enter,
    ensures
        entry_click_bytes(cursor_row, target_row) == if target_row > cursor_row {
            repeated(key_bytes(down)->0, (target_row - cursor_row) as nat) + key_bytes(enter)->0
        } else {
            repeated(key_bytes(up)->0, (cursor_row - target_row) as nat) + key_bytes(enter)->0
        },
{
}

/// A click beside the entries navigates as keys do: on the left edge of a
/// list row it goes back as Left does, on the right side it pages up in the
/// upper half of the screen and down in the lower half as PageUp and
/// PageDown do.
pub proof fn lemma_background_click_presses_navigation_keys(point: GridPoint, left: KeyEvent, page_up: KeyEvent, page_down: KeyEvent)
    requires
        unmodified(left) && left.key == Key::ArrowLeft,
        unmodified(page_up) && page_up.key == Key::PageUp,
        unmodified(page_down) && page_down.key == Key::PageDown,
    ensures
        point.col == 0 && 3 <= point.row < TERMINAL_ROWS - 1 ==> background_bytes(point) == key_bytes(left),
        point.col >= 20 && point.row < TERMINAL_ROWS / 2 ==> background_bytes(point) == key_bytes(page_up),
        point.col >= 20 && point.row >= TERMINAL_ROWS / 2 ==> background_bytes(point) == key_bytes(page_down),
        0 < point.col < 20 ==> background_bytes(point) is None,
{
}

/// The wheel turns as the arrow keys press.
pub proof fn lemma_wheel_presses_arrows(dir: WheelDir, event: KeyEvent)
    requires
        unmodified(event),
        arrow_dir(event.key) == Some(dir),
    ensures
        key_bytes(event) == Some(wheel_bytes(dir)),
{
}

} // verus!
