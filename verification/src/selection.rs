//! Text selection on the terminal grid, the text of the screen, and the URLs
//! shown on it.

use vstd::prelude::*;

use crate::cell::Cell;
use crate::snapshot::TerminalSnapshot;
use crate::text::{
    contains_class, find_first, first_in, has_char_in, has_prefix, has_suffix, is_http_line,
    is_http_url, is_white_space, pieces, http_scheme, https_scheme, class_has, split_pieces, starts_with_at, str_chars,
    string_from_chars, string_push, trim, trim_bounds, trim_end, trim_end_bound, CharClass,
};

pub use crate::input::GridPoint;

verus! {

broadcast use vstd::string::group_string_axioms;

/// The width of the terminal grid that selections are ordered on.
pub const TERMINAL_COLS: usize = 80;

/// A selection from the cell where the drag started to the cell under the
/// pointer; either end may come first on the screen.
#[derive(Clone, Copy, Debug, PartialEq, Eq, Structural)]
pub struct Selection {
    pub start: GridPoint,
    pub end: GridPoint,
}

/// The reading-order position of a grid point on an 80-column grid.
pub open spec fn grid_order(point: GridPoint) -> int {
    point.row * 80 + point.col
}

/// A grid point whose reading-order position fits in a `usize`.
pub open spec fn orderable(point: GridPoint) -> bool {
    grid_order(point) <= usize::MAX
}

/// The selection's ends in reading order.
pub open spec fn ordered_ends(sel: Selection) -> (GridPoint, GridPoint) {
    if grid_order(sel.start) <= grid_order(sel.end) {
        (sel.start, sel.end)
    } else {
        (sel.end, sel.start)
    }
}

impl Selection {
    /// A selection of the single cell `point`.
    pub fn new(point: GridPoint) -> (s: Self)
        ensures
            s.start == point,
            s.end == point,
    {
        Selection { start: point, end: point }
    }

    /// The two ends, the one first in reading order first.
    pub fn normalized(self) -> (r: (GridPoint, GridPoint))
        requires
            orderable(self.start),
            orderable(self.end),
        ensures
            r == ordered_ends(self),
    {
        if grid_index(self.start) <= grid_index(self.end) {
            (self.start, self.end)
        } else {
            (self.end, self.start)
        }
    }
}

/// The reading-order position of `point` on the 80-column grid.
pub fn grid_index(point: GridPoint) -> (i: usize)
    requires
        orderable(point),
    ensures
        i == grid_order(point),
{
    point.row * TERMINAL_COLS + point.col
}

/// The ends of a selection come out in reading order, and they are the
/// selection's own two ends.
pub proof fn lemma_ordered_ends_in_reading_order(sel: Selection)
    ensures
        grid_order(ordered_ends(sel).0) <= grid_order(ordered_ends(sel).1),
        ordered_ends(sel) == (sel.start, sel.end) || ordered_ends(sel) == (sel.end, sel.start),
{
}

/// Dragging a selection either way selects the same text, unless both ends
/// sit at the same reading-order position.
pub proof fn lemma_reversed_selection_same_text(rows: Seq<Vec<Cell>>, cols: int, sel: Selection)
    requires
        grid_order(sel.start) != grid_order(sel.end),
    ensures
        selection_text(rows, cols, Selection { start: sel.end, end: sel.start })
            == selection_text(rows, cols, sel),
{
    assert(ordered_ends(Selection { start: sel.end, end: sel.start }) == ordered_ends(sel));
}

/// The characters a run of cells shows: continuation cells of wide
/// characters show nothing.
pub open spec fn visible_chars(cells: Seq<Cell>) -> Seq<char>
    decreases cells.len(),
{
    if cells.len() == 0 {
        Seq::empty()
    } else {
        let before = visible_chars(cells.drop_last());
        if cells.last().width != 0 {
            before.push(cells.last().ch)
        } else {
            before
        }
    }
}

/// The last column a selection can reach on a screen `cols` wide.
pub open spec fn last_col(cols: int) -> int {
    if cols >= 1 {
        cols - 1
    } else {
        0
    }
}

/// The first column selected on row `r`.
pub open spec fn line_first_col(s: GridPoint, r: int) -> int {
    if r == s.row {
        s.col as int
    } else {
        0
    }
}

/// The last column selected on row `r` (inclusive).
pub open spec fn line_last_col(e: GridPoint, cols: int, r: int) -> int {
    let end_col = if r == e.row {
        e.col as int
    } else {
        last_col(cols)
    };
    if end_col < last_col(cols) {
        end_col
    } else {
        last_col(cols)
    }
}

/// The selected cells of row `r`.
pub open spec fn line_cells(row: Seq<Cell>, s: GridPoint, e: GridPoint, cols: int, r: int) -> Seq<
    Cell,
> {
    let lo = line_first_col(s, r);
    let hi = line_last_col(e, cols, r);
    if lo <= hi {
        row.subrange(lo, hi + 1)
    } else {
        Seq::empty()
    }
}

/// The text of one selected row, without trailing white space.
pub open spec fn line_text(row: Seq<Cell>, s: GridPoint, e: GridPoint, cols: int, r: int) -> Seq<
    char,
> {
    trim_end(visible_chars(line_cells(row, s, e, cols, r)))
}

/// Lines joined with line feeds between them.
pub open spec fn join_lines(lines: Seq<Seq<char>>) -> Seq<char>
    decreases lines.len(),
{
    if lines.len() == 0 {
        Seq::empty()
    } else if lines.len() == 1 {
        lines[0]
    } else {
        join_lines(lines.drop_last()) + seq!['\n'] + lines.last()
    }
}

/// The lines of a selection whose ends are `s` then `e`.
pub open spec fn selection_lines(rows: Seq<Vec<Cell>>, cols: int, s: GridPoint, e: GridPoint) -> Seq<
    Seq<char>,
> {
    let n: nat = if s.row <= e.row {
        (e.row - s.row + 1) as nat
    } else {
        0
    };
    Seq::new(n, |i: int| line_text(rows[s.row + i]@, s, e, cols, s.row + i))
}

/// The selected text: the selected cells of each row from the first end to
/// the last, each row's text without trailing white space, joined with line
/// feeds.
pub open spec fn selection_text(rows: Seq<Vec<Cell>>, cols: int, sel: Selection) -> Seq<char> {
    let (s, e) = ordered_ends(sel);
    join_lines(selection_lines(rows, cols, s, e))
}

/// Every row from `s` to `e` exists, and the selected columns of each lie
/// within it.
pub open spec fn rows_in_bounds(rows: Seq<Vec<Cell>>, cols: int, s: GridPoint, e: GridPoint) -> bool {
    forall|r: int|
        #![trigger rows[r]]
        s.row <= r <= e.row ==> r < rows.len() && (line_first_col(s, r) > line_last_col(e, cols, r)
            || line_last_col(e, cols, r) < rows[r]@.len())
}

/// Every row of the selection exists, and the selected columns of each lie
/// within it.
pub open spec fn selection_in_bounds(rows: Seq<Vec<Cell>>, cols: int, sel: Selection) -> bool {
    rows_in_bounds(rows, cols, ordered_ends(sel).0, ordered_ends(sel).1)
}

/// The text of the selected cells, one line per row.
pub fn selected_text(snap: &TerminalSnapshot<'_>, selection: Selection) -> (t: String)
    requires
        orderable(selection.start),
        orderable(selection.end),
        selection_in_bounds(snap.rows@, snap.cols as int, selection),
    ensures
        t@ == selection_text(snap.rows@, snap.cols as int, selection),
{
    let (start, end) = selection.normalized();
    let last = if snap.cols >= 1 {
        snap.cols - 1
    } else {
        0
    };
    let ghost lines = selection_lines(snap.rows@, snap.cols as int, start, end);
    let mut text = String::new();
    if start.row > end.row {
        assert(lines =~= Seq::<Seq<char>>::empty());
        return text;
    }
    let nrows = snap.rows.len();
    assert(rows_in_bounds(snap.rows@, snap.cols as int, start, end));
    proof {
        let r = end.row as int;
        let cells = snap.rows@[r];
        assert(r < snap.rows@.len());
    }
    let mut row = start.row;
    while row <= end.row
        invariant
            (start, end) == ordered_ends(selection),
            rows_in_bounds(snap.rows@, snap.cols as int, start, end),
            lines == selection_lines(snap.rows@, snap.cols as int, start, end),
            last == last_col(snap.cols as int),
            start.row <= row <= end.row + 1,
            end.row < snap.rows@.len(),
            nrows == snap.rows@.len(),
            text@ == join_lines(lines.take(row - start.row)),
        decreases end.row + 1 - row,
    {
        assert(snap.rows@[row as int] == snap.rows@[row as int]);
        let line = row_selection_text(snap, start, end, last, row);
        assert(line@ == lines[row - start.row]);
        if row > start.row {
            string_push(&mut text, '\n');
        }
        let mut i: usize = 0;
        let ghost before = text@;
        while i < line.len()
            invariant
                i <= line@.len(),
                text@ == before + line@.take(i as int),
            decreases line@.len() - i,
        {
            string_push(&mut text, line[i]);
            assert(line@.take(i + 1) =~= line@.take(i as int).push(line@[i as int]));
            i += 1;
        }
        proof {
            let k = row - start.row;
            let taken = lines.take(k + 1);
            assert(taken.drop_last() =~= lines.take(k));
            assert(line@.take(line@.len() as int) =~= line@);
            if k == 0 {
                assert(before =~= Seq::<char>::empty());
            }
        }
        row += 1;
    }
    assert(lines.take(end.row + 1 - start.row) =~= lines);
    text
}

/// Whether `point`'s reading-order position fits in a `usize`.
fn point_orderable(point: GridPoint) -> (b: bool)
    ensures
        b == orderable(point),
{
    match point.row.checked_mul(80) {
        Some(m) => m.checked_add(point.col).is_some(),
        None => false,
    }
}

/// Whether [`selected_text`] can read `selection` from the snapshot: both
/// ends have a reading-order position and every selected cell lies on a row
/// of the snapshot.
pub fn selection_fits(snap: &TerminalSnapshot<'_>, selection: Selection) -> (b: bool)
    ensures
        b == (orderable(selection.start) && orderable(selection.end) && selection_in_bounds(
            snap.rows@,
            snap.cols as int,
            selection,
        )),
{
    if !point_orderable(selection.start) || !point_orderable(selection.end) {
        return false;
    }
    let (start, end) = selection.normalized();
    if start.row > end.row {
        return true;
    }
    let n = snap.rows.len();
    if end.row >= n {
        proof {
            if rows_in_bounds(snap.rows@, snap.cols as int, start, end) {
                assert(snap.rows@[end.row as int]@.len() >= 0);
            }
        }
        return false;
    }
    let last = if snap.cols >= 1 {
        snap.cols - 1
    } else {
        0
    };
    let mut row = start.row;
    while row <= end.row
        invariant
            (start, end) == ordered_ends(selection),
            last == last_col(snap.cols as int),
            start.row <= row <= end.row + 1,
            end.row < n,
            n == snap.rows@.len(),
            forall|r: int|
                #![trigger snap.rows@[r]]
                start.row <= r < row ==> r < snap.rows@.len() && (line_first_col(start, r)
                    > line_last_col(end, snap.cols as int, r) || line_last_col(end, snap.cols as int, r)
                    < snap.rows@[r]@.len()),
        decreases end.row + 1 - row,
    {
        let lo = if row == start.row {
            start.col
        } else {
            0
        };
        let end_col = if row == end.row {
            end.col
        } else {
            last
        };
        let hi = if end_col < last {
            end_col
        } else {
            last
        };
        if !(lo > hi || hi < snap.rows[row].len()) {
            assert(snap.rows@[row as int]@.len() >= 0);
            return false;
        }
        row += 1;
    }
    true
}

/// The text of row `row` of a selection with ends `start` then `end`.
fn row_selection_text(
    snap: &TerminalSnapshot<'_>,
    start: GridPoint,
    end: GridPoint,
    last: usize,
    row: usize,
) -> (line: Vec<char>)
    requires
        last == last_col(snap.cols as int),
        start.row <= row <= end.row,
        row < snap.rows@.len(),
        line_first_col(start, row as int) > line_last_col(end, snap.cols as int, row as int)
            || line_last_col(end, snap.cols as int, row as int) < snap.rows@[row as int]@.len(),
    ensures
        line@ == line_text(snap.rows@[row as int]@, start, end, snap.cols as int, row as int),
{
    let cells = &snap.rows[row];
    let lo = if row == start.row {
        start.col
    } else {
        0
    };
    let end_col = if row == end.row {
        end.col
    } else {
        last
    };
    let hi = if end_col < last {
        end_col
    } else {
        last
    };
    let mut chars: Vec<char> = Vec::new();
    if lo <= hi {
        let mut col = lo;
        while col <= hi
            invariant
                lo <= col <= hi + 1,
                hi < cells@.len(),
                hi < usize::MAX,
                chars@ == visible_chars(cells@.subrange(lo as int, col as int)),
            decreases hi + 1 - col,
        {
            assert(cells@.subrange(lo as int, col + 1).drop_last() =~= cells@.subrange(
                lo as int,
                col as int,
            ));
            if cells[col].width != 0 {
                chars.push(cells[col].ch);
            }
            col += 1;
        }
    } else {
        assert(visible_chars(Seq::<Cell>::empty()) =~= Seq::<char>::empty());
    }
    let n = chars.len();
    let j = trim_end_bound(&chars, 0, n);
    assert(chars@.subrange(0, n as int) =~= chars@);
    let mut line: Vec<char> = Vec::new();
    let mut i: usize = 0;
    while i < j
        invariant
            i <= j <= chars@.len(),
            line@ == chars@.subrange(0, i as int),
        decreases j - i,
    {
        line.push(chars[i]);
        assert(chars@.subrange(0, i + 1) =~= chars@.subrange(0, i as int).push(chars@[i as int]));
        i += 1;
    }
    line
}

/// The selection that covers the whole screen.
pub open spec fn whole_screen(snap: TerminalSnapshot<'_>) -> Selection {
    Selection {
        start: GridPoint { row: 0, col: 0 },
        end: GridPoint {
            row: if snap.row_count >= 1 {
                (snap.row_count - 1) as usize
            } else {
                0
            },
            col: if snap.cols >= 1 {
                (snap.cols - 1) as usize
            } else {
                0
            },
        },
    }
}

/// The text of the whole screen, one line per row.
pub fn terminal_screen_text(snap: &TerminalSnapshot<'_>) -> (t: String)
    requires
        orderable(whole_screen(*snap).end),
        selection_in_bounds(snap.rows@, snap.cols as int, whole_screen(*snap)),
    ensures
        t@ == selection_text(snap.rows@, snap.cols as int, whole_screen(*snap)),
{
    let selection = Selection {
        start: GridPoint { row: 0, col: 0 },
        end: GridPoint {
            row: if snap.row_count >= 1 {
                snap.row_count - 1
            } else {
                0
            },
            col: if snap.cols >= 1 {
                snap.cols - 1
            } else {
                0
            },
        },
    };
    selected_text(snap, selection)
}

/// The characters a URL does not end with when it closes a sentence or a
/// bracket: ASCII and full-width punctuation, closing brackets and quotes.
pub open spec fn is_url_trailing_punct(c: char) -> bool {
    ||| c == '.'
    ||| c == ','
    ||| c == ';'
    ||| c == ':'
    ||| c == '!'
    ||| c == '?'
    ||| c == ')'
    ||| c == ']'
    ||| c == '}'
    ||| c == '>'
    ||| c == '"'
    ||| c == '\''
    ||| c == '\u{3002}'
    ||| c == '\u{ff0c}'
    ||| c == '\u{ff1b}'
    ||| c == '\u{ff1a}'
    ||| c == '\u{ff01}'
    ||| c == '\u{ff1f}'
    ||| c == '\u{ff09}'
    ||| c == '\u{3011}'
    ||| c == '\u{300b}'
    ||| c == '\u{201d}'
    ||| c == '\u{2019}'
}

fn is_trailing_url_punctuation(c: char) -> (b: bool)
    ensures
        b == is_url_trailing_punct(c),
{
    c == '.' || c == ',' || c == ';' || c == ':' || c == '!' || c == '?' || c == ')' || c == ']'
        || c == '}' || c == '>' || c == '"' || c == '\'' || c == '\u{3002}' || c == '\u{ff0c}'
        || c == '\u{ff1b}' || c == '\u{ff1a}' || c == '\u{ff01}' || c == '\u{ff1f}' || c
        == '\u{ff09}' || c == '\u{3011}' || c == '\u{300b}' || c == '\u{201d}' || c == '\u{2019}'
}

/// `e`, moved back over trailing punctuation but not before `s`.
pub open spec fn punct_trimmed_end(t: Seq<char>, s: int, e: int) -> int
    decreases e - s,
{
    if e > s && is_url_trailing_punct(t[e - 1]) {
        punct_trimmed_end(t, s, e - 1)
    } else {
        e
    }
}

/// Where the URL starting at `s` ends: at the next white space or the end of
/// the text, less trailing punctuation.
pub open spec fn url_end(t: Seq<char>, s: int) -> int {
    punct_trimmed_end(t, s, s + first_in(t.subrange(s, t.len() as int), CharClass::WhiteSpace))
}

/// The visible characters of a row, each with the first and last column of
/// its cells.
pub open spec fn visible_cells(cells: Seq<Cell>) -> Seq<(char, int, int)>
    decreases cells.len(),
{
    if cells.len() == 0 {
        Seq::empty()
    } else {
        let before = visible_cells(cells.drop_last());
        let c = cells.last();
        let col = cells.len() - 1;
        if c.width != 0 {
            before.push((c.ch, col, col + c.width - 1))
        } else {
            before
        }
    }
}

pub open spec fn cells_text(vis: Seq<(char, int, int)>) -> Seq<char> {
    vis.map_values(|v: (char, int, int)| v.0)
}

/// The first URL, from position `s` of the row's text on, whose cells
/// cover column `col`.
pub open spec fn url_search(vis: Seq<(char, int, int)>, col: int, s: int) -> Option<Seq<char>>
    decreases vis.len() - s,
{
    if s < 0 || s >= vis.len() {
        None
    } else {
        let t = cells_text(vis);
        let e = url_end(t, s);
        if is_http_url(t.subrange(s, t.len() as int)) && s < e && vis[s].1 <= col <= vis[e - 1].2 {
            Some(t.subrange(s, e))
        } else {
            url_search(vis, col, s + 1)
        }
    }
}

/// The http(s) URL shown at `point`: the first one on the point's row whose
/// cells, from its first character to its last, cover the point's column.
pub open spec fn url_at(rows: Seq<Vec<Cell>>, row_count: int, cols: int, point: GridPoint) -> Option<
    Seq<char>,
> {
    if point.row >= row_count || point.col >= cols {
        None
    } else {
        url_search(visible_cells(rows[point.row as int]@), point.col as int, 0)
    }
}

/// The http(s) URL under a grid point, if any.
pub fn url_at_grid_point(snap: &TerminalSnapshot<'_>, point: GridPoint) -> (u: Option<String>)
    requires
        point.row < snap.row_count ==> point.row < snap.rows@.len(),
    ensures
        match u {
            Some(s) => url_at(snap.rows@, snap.row_count as int, snap.cols as int, point) == Some(
                s@,
            ),
            None => url_at(snap.rows@, snap.row_count as int, snap.cols as int, point) is None,
        },
{
    if point.row >= snap.row_count || point.col >= snap.cols {
        return None;
    }
    let cells = &snap.rows[point.row];
    let (text, starts, widths) = visible_cells_of(cells);
    let ghost vis = visible_cells(cells@);
    let ghost t = cells_text(vis);
    assert(text@ =~= t);
    let n = text.len();
    let col = point.col;
    assert(url_at(snap.rows@, snap.row_count as int, snap.cols as int, point) == url_search(
        vis,
        col as int,
        0,
    ));
    let mut s: usize = 0;
    while s < n
        invariant
            s <= n,
            n == vis.len(),
            text@ == t,
            t == cells_text(vis),
            starts@.len() == n,
            widths@.len() == n,
            forall|q: int|
                0 <= q < n ==> #[trigger] starts@[q] == vis[q].1 && vis[q].2 == starts@[q]
                    + widths@[q] - 1 && widths@[q] >= 1,
            url_search(vis, col as int, 0) == url_search(vis, col as int, s as int),
            url_at(snap.rows@, snap.row_count as int, snap.cols as int, point) == url_search(
                vis,
                col as int,
                0,
            ),
        decreases n - s,
    {
        if is_http_line(&text, s, n) {
            let stop = find_first(&text, s, n, CharClass::WhiteSpace);
            let mut e = stop;
            while e > s && is_trailing_url_punctuation(text[e - 1])
                invariant
                    s <= e <= stop <= n,
                    text@ == t,
                    n == t.len(),
                    punct_trimmed_end(t, s as int, stop as int) == punct_trimmed_end(
                        t,
                        s as int,
                        e as int,
                    ),
                decreases e - s,
            {
                e -= 1;
            }
            assert(url_end(t, s as int) == e);
            if s < e {
                let c0 = starts[s];
                let c1 = starts[e - 1];
                let w1 = widths[e - 1];
                let covered = c0 <= col && (col < c1 || col - c1 < w1 as usize);
                assert(covered == (vis[s as int].1 <= col && col <= vis[e - 1].2));
                assert(0 <= s < vis.len());
                assert(is_http_url(t.subrange(s as int, t.len() as int)));
                if covered {
                    assert(url_search(vis, col as int, s as int) == Some(t.subrange(s as int, e as int)));
                    return Some(string_from_chars(&text, s, e));
                }
            }
        }
        s += 1;
    }
    None
}

/// The visible characters of a row with the first column and the width of
/// each.
fn visible_cells_of(cells: &Vec<Cell>) -> (r: (Vec<char>, Vec<usize>, Vec<u8>))
    ensures
        r.0@ == cells_text(visible_cells(cells@)),
        r.1@.len() == visible_cells(cells@).len(),
        r.2@.len() == visible_cells(cells@).len(),
        forall|q: int|
            0 <= q < r.1@.len() ==> #[trigger] r.1@[q] == visible_cells(cells@)[q].1
                && visible_cells(cells@)[q].2 == r.1@[q] + r.2@[q] - 1 && r.2@[q] >= 1,
{
    let mut text: Vec<char> = Vec::new();
    let mut starts: Vec<usize> = Vec::new();
    let mut widths: Vec<u8> = Vec::new();
    let mut i: usize = 0;
    while i < cells.len()
        invariant
            i <= cells@.len(),
            text@ == cells_text(visible_cells(cells@.take(i as int))),
            starts@.len() == visible_cells(cells@.take(i as int)).len(),
            widths@.len() == visible_cells(cells@.take(i as int)).len(),
            forall|q: int|
                0 <= q < starts@.len() ==> #[trigger] starts@[q] == visible_cells(
                    cells@.take(i as int),
                )[q].1 && visible_cells(cells@.take(i as int))[q].2 == starts@[q] + widths@[q] - 1
                    && widths@[q] >= 1,
        decreases cells@.len() - i,
    {
        let ghost prev = visible_cells(cells@.take(i as int));
        assert(cells@.take(i + 1).drop_last() =~= cells@.take(i as int));
        let c = cells[i];
        if c.width != 0 {
            text.push(c.ch);
            starts.push(i);
            widths.push(c.width);
            assert(cells_text(prev.push((c.ch, i as int, i + c.width - 1))) =~= cells_text(
                prev,
            ).push(c.ch));
        }
        i += 1;
    }
    assert(cells@.take(cells@.len() as int) =~= cells@);
    (text, starts, widths)
}

/// Whether `label` is a domain label: letters, digits and hyphens, not empty,
/// neither starting nor ending with a hyphen.
pub open spec fn is_domain_label(label: Seq<char>) -> bool {
    &&& label.len() > 0
    &&& forall|i: int|
        0 <= i < label.len() ==> {
            let c = #[trigger] label[i];
            ('a' <= c && c <= 'z') || ('A' <= c && c <= 'Z') || ('0' <= c && c <= '9') || c == '-'
        }
    &&& label[0] != '-'
    &&& label.last() != '-'
}

/// The host part of a URL without scheme: what stands before the first `/`,
/// `?` or `#`.
pub open spec fn url_host(t: Seq<char>) -> Seq<char> {
    t.subrange(0, first_in(t, CharClass::HostEnd))
}

/// A text that reads as a URL without its scheme: no `@`, no leading or
/// trailing dot, and a host of two or more dot-separated domain labels.
pub open spec fn looks_like_url_without_scheme(t: Seq<char>) -> bool {
    let host = url_host(t);
    &&& !has_char_in(t, CharClass::Is('@'))
    &&& !has_prefix(t, seq!['.'])
    &&& !has_suffix(t, seq!['.'])
    &&& has_char_in(host, CharClass::Is('.'))
    &&& forall|i: int|
        0 <= i < pieces(host, CharClass::Is('.')).len() ==> is_domain_label(
            #[trigger] pieces(host, CharClass::Is('.'))[i],
        )
}

/// The length of `t` without the trailing punctuation.
pub open spec fn punct_trimmed_len(t: Seq<char>) -> int {
    punct_trimmed_end(t, 0, t.len() as int)
}

/// What a selection opens as a URL: the selection trimmed, refused if empty
/// or holding white space; trailing punctuation removed; then kept if it
/// starts with `http://` or `https://`, given `https://` if it looks like a
/// URL without a scheme, and refused otherwise.
pub open spec fn url_for_open(text: Seq<char>) -> Option<Seq<char>> {
    let trimmed = trim(text);
    if trimmed.len() == 0 || has_char_in(trimmed, CharClass::WhiteSpace) {
        None
    } else {
        let t = trimmed.subrange(0, punct_trimmed_len(trimmed));
        if is_http_url(t) {
            Some(t)
        } else if looks_like_url_without_scheme(t) {
            Some(seq!['h', 't', 't', 'p', 's', ':', '/', '/'] + t)
        } else {
            None
        }
    }
}

pub proof fn lemma_punct_trimmed_end_bounds(t: Seq<char>, s: int, e: int)
    requires
        s <= e,
    ensures
        s <= punct_trimmed_end(t, s, e) <= e,
    decreases e - s,
{
    if e > s && is_url_trailing_punct(t[e - 1]) {
        lemma_punct_trimmed_end_bounds(t, s, e - 1);
    }
}

/// A selected text as a URL to open, if it is one.
pub fn normalize_selected_url_for_open(text: &str) -> (u: Option<String>)
    ensures
        match u {
            Some(s) => url_for_open(text@) == Some(s@),
            None => url_for_open(text@) is None,
        },
{
    let chars = str_chars(text);
    let n = chars.len();
    assert(chars@.subrange(0, n as int) =~= chars@);
    let (a, b) = trim_bounds(&chars, 0, n);
    if a == b || contains_class(&chars, a, b, CharClass::WhiteSpace) {
        return None;
    }
    let e = punct_trimmed_bound(&chars, a, b);
    if is_http_line(&chars, a, e) {
        return Some(string_from_chars(&chars, a, e));
    }
    if looks_like_scheme_less_url(&chars, a, e) {
        return Some(with_https_scheme(&chars, a, e));
    }
    None
}

/// The end of `t[a..b]` without its trailing punctuation.
fn punct_trimmed_bound(t: &Vec<char>, a: usize, b: usize) -> (e: usize)
    requires
        a <= b <= t@.len(),
    ensures
        a <= e <= b,
        t@.subrange(a as int, e as int) == t@.subrange(a as int, b as int).subrange(
            0,
            punct_trimmed_len(t@.subrange(a as int, b as int)),
        ),
{
    let ghost trimmed = t@.subrange(a as int, b as int);
    let mut e = b;
    while e > a && is_trailing_url_punctuation(t[e - 1])
        invariant
            a <= e <= b <= t@.len(),
            t@.subrange(a as int, b as int) == trimmed,
            punct_trimmed_len(trimmed) == punct_trimmed_end(trimmed, 0, e - a),
        decreases e - a,
    {
        assert(trimmed[e - a - 1] == t@[e - 1]);
        e -= 1;
    }
    assert(trimmed.subrange(0, e - a) =~= t@.subrange(a as int, e as int));
    e
}

/// `https://` followed by `t[a..e]`.
fn with_https_scheme(t: &Vec<char>, a: usize, e: usize) -> (s: String)
    requires
        a <= e <= t@.len(),
    ensures
        s@ == seq!['h', 't', 't', 'p', 's', ':', '/', '/'] + t@.subrange(a as int, e as int),
{
    let mut s = String::new();
    string_push(&mut s, 'h');
    string_push(&mut s, 't');
    string_push(&mut s, 't');
    string_push(&mut s, 'p');
    string_push(&mut s, 's');
    string_push(&mut s, ':');
    string_push(&mut s, '/');
    string_push(&mut s, '/');
    let mut i = a;
    while i < e
        invariant
            a <= i <= e <= t@.len(),
            s@ == seq!['h', 't', 't', 'p', 's', ':', '/', '/'] + t@.subrange(a as int, i as int),
        decreases e - i,
    {
        string_push(&mut s, t[i]);
        assert(t@.subrange(a as int, i + 1) =~= t@.subrange(a as int, i as int).push(t@[i as int]));
        i += 1;
    }
    s
}

/// Whether `t[lo..hi]` reads as a URL without scheme.
fn looks_like_scheme_less_url(t: &Vec<char>, lo: usize, hi: usize) -> (b: bool)
    requires
        lo <= hi <= t@.len(),
    ensures
        b == looks_like_url_without_scheme(t@.subrange(lo as int, hi as int)),
{
    let ghost s = t@.subrange(lo as int, hi as int);
    let dot: Vec<char> = vec!['.'];
    assert(dot@ =~= seq!['.']);
    if contains_class(t, lo, hi, CharClass::Is('@')) || starts_with_at(t, lo, hi, &dot)
        || ends_with_at_dot(t, lo, hi) {
        return false;
    }
    let host_end = find_first(t, lo, hi, CharClass::HostEnd);
    assert(t@.subrange(lo as int, host_end as int) =~= s.subrange(0, host_end - lo));
    if !contains_class(t, lo, host_end, CharClass::Is('.')) {
        return false;
    }
    let labels = split_pieces(t, lo, host_end, CharClass::Is('.'));
    let ghost ps = pieces(t@.subrange(lo as int, host_end as int), CharClass::Is('.'));
    assert(url_host(s) =~= t@.subrange(lo as int, host_end as int));
    let mut i: usize = 0;
    while i < labels.len()
        invariant
            i <= labels@.len(),
            labels@.len() == ps.len(),
            forall|q: int| 0 <= q < labels@.len() ==> #[trigger] labels@[q]@ == ps[q],
            forall|q: int| 0 <= q < i ==> is_domain_label(#[trigger] ps[q]),
            ps == pieces(url_host(s), CharClass::Is('.')),
            s == t@.subrange(lo as int, hi as int),
        decreases labels@.len() - i,
    {
        if !is_domain_label_chars(&labels[i]) {
            assert(!is_domain_label(pieces(url_host(s), CharClass::Is('.'))[i as int]));
            return false;
        }
        i += 1;
    }
    true
}

fn ends_with_at_dot(t: &Vec<char>, lo: usize, hi: usize) -> (b: bool)
    requires
        lo <= hi <= t@.len(),
    ensures
        b == has_suffix(t@.subrange(lo as int, hi as int), seq!['.']),
{
    let dot: Vec<char> = vec!['.'];
    assert(dot@ =~= seq!['.']);
    crate::text::ends_with_at(t, lo, hi, &dot)
}

fn is_domain_label_chars(label: &Vec<char>) -> (b: bool)
    ensures
        b == is_domain_label(label@),
{
    let n = label.len();
    if n == 0 {
        return false;
    }
    let mut i: usize = 0;
    while i < n
        invariant
            i <= n,
            n == label@.len(),
            forall|q: int|
                0 <= q < i ==> {
                    let c = #[trigger] label@[q];
                    ('a' <= c && c <= 'z') || ('A' <= c && c <= 'Z') || ('0' <= c && c <= '9')
                        || c == '-'
                },
        decreases n - i,
    {
        let c = label[i];
        if !(('a' <= c && c <= 'z') || ('A' <= c && c <= 'Z') || ('0' <= c && c <= '9') || c
            == '-') {
            return false;
        }
        i += 1;
    }
    label[0] != '-' && label[n - 1] != '-'
}

pub proof fn lemma_first_in_at_least(s: Seq<char>, k: CharClass, n: int)
    requires
        0 <= n <= s.len(),
        forall|i: int| 0 <= i < n ==> !class_has(k, #[trigger] s[i]),
    ensures
        first_in(s, k) >= n,
    decreases n,
{
    if n > 0 {
        assert forall|i: int| 0 <= i < n - 1 implies !class_has(k, #[trigger] s.drop_first()[i]) by {
            assert(s.drop_first()[i] == s[i + 1]);
        }
        assert(!class_has(k, s[0]));
        lemma_first_in_at_least(s.drop_first(), k, n - 1);
        assert(first_in(s, k) == 1 + first_in(s.drop_first(), k));
    } else {
        crate::text::lemma_first_in_bounds(s, k);
    }
}

pub proof fn lemma_punct_trimmed_end_keeps(t: Seq<char>, s: int, e: int, m: int)
    requires
        s <= m < e,
        !is_url_trailing_punct(t[m]),
    ensures
        punct_trimmed_end(t, s, e) > m,
    decreases e - s,
{
    if e > s && is_url_trailing_punct(t[e - 1]) {
        lemma_punct_trimmed_end_keeps(t, s, e - 1, m);
    }
}

/// The URL starting at `s` keeps its whole scheme: it ends after the
/// scheme's last slash.
pub proof fn lemma_url_keeps_scheme(t: Seq<char>, s: int)
    requires
        0 <= s < t.len(),
        is_http_url(t.subrange(s, t.len() as int)),
    ensures
        is_http_url(t.subrange(s, url_end(t, s))),
{
    let rest = t.subrange(s, t.len() as int);
    let n: int = if has_prefix(rest, https_scheme()) {
        8
    } else {
        7
    };
    assert(rest.subrange(0, n) == if n == 8 {
        https_scheme()
    } else {
        http_scheme()
    });
    assert forall|i: int| 0 <= i < n implies !class_has(CharClass::WhiteSpace, #[trigger] rest[i]) by {
        assert(rest[i] == rest.subrange(0, n)[i]);
    }
    lemma_first_in_at_least(rest, CharClass::WhiteSpace, n);
    assert(t[s + n - 1] == rest.subrange(0, n)[n - 1]);
    lemma_punct_trimmed_end_keeps(t, s, s + first_in(rest, CharClass::WhiteSpace), s + n - 1);
    let e = url_end(t, s);
    lemma_punct_trimmed_end_bounds(t, s, s + first_in(rest, CharClass::WhiteSpace));
    crate::text::lemma_first_in_bounds(rest, CharClass::WhiteSpace);
    assert(t.subrange(s, e).subrange(0, n) =~= rest.subrange(0, n));
}

/// Every URL found under a grid point starts with `http://` or `https://`.
pub proof fn lemma_url_search_is_http(vis: Seq<(char, int, int)>, col: int, s: int)
    ensures
        url_search(vis, col, s) matches Some(u) ==> is_http_url(u),
    decreases vis.len() - s,
{
    if 0 <= s < vis.len() {
        let t = cells_text(vis);
        let e = url_end(t, s);
        if is_http_url(t.subrange(s, t.len() as int)) && s < e && vis[s].1 <= col <= vis[e - 1].2 {
            lemma_url_keeps_scheme(t, s);
        } else {
            lemma_url_search_is_http(vis, col, s + 1);
        }
    }
}

/// The URL found under a grid point, if any, starts with `http://` or
/// `https://`.
pub proof fn lemma_url_at_is_http(rows: Seq<Vec<Cell>>, row_count: int, cols: int, point: GridPoint)
    ensures
        url_at(rows, row_count, cols, point) matches Some(u) ==> is_http_url(u),
{
    if !(point.row >= row_count || point.col >= cols) {
        lemma_url_search_is_http(visible_cells(rows[point.row as int]@), point.col as int, 0);
    }
}

/// A selection opens only as a URL that starts with `http://` or
/// `https://`.
pub proof fn lemma_url_for_open_is_http(text: Seq<char>)
    ensures
        url_for_open(text) matches Some(u) ==> is_http_url(u),
{
    let trimmed = trim(text);
    if !(trimmed.len() == 0 || has_char_in(trimmed, CharClass::WhiteSpace)) {
        let t = trimmed.subrange(0, punct_trimmed_len(trimmed));
        if !is_http_url(t) && looks_like_url_without_scheme(t) {
            let u = https_scheme() + t;
            assert(u.subrange(0, 8) =~= https_scheme());
        }
    }
}

pub proof fn lemma_punct_trimmed_end_stops(t: Seq<char>, s: int, e: int)
    requires
        s <= e,
    ensures
        punct_trimmed_end(t, s, e) > s ==> !is_url_trailing_punct(t[punct_trimmed_end(t, s, e) - 1]),
    decreases e - s,
{
    if e > s && is_url_trailing_punct(t[e - 1]) {
        lemma_punct_trimmed_end_stops(t, s, e - 1);
    }
}

/// A text whose ends are not white space is its own trim.
pub proof fn lemma_trim_of_untrimmable(s: Seq<char>)
    requires
        s.len() > 0,
        !is_white_space(s[0]),
        !is_white_space(s.last()),
    ensures
        trim(s) == s,
{
    assert(crate::text::trim_start(s) == s);
    assert(crate::text::trim_end(s) == s);
}

/// What a selection opens is a URL without white space that does not end in
/// trailing punctuation, and opening it again gives it back unchanged.
pub proof fn lemma_url_for_open_idempotent(text: Seq<char>)
    ensures
        url_for_open(text) matches Some(u) ==> {
            &&& url_for_open(u) == Some(u)
            &&& is_http_url(u)
            &&& !has_char_in(u, CharClass::WhiteSpace)
            &&& u.len() > 0
            &&& !is_url_trailing_punct(u.last())
        },
{
    let trimmed = trim(text);
    if !(trimmed.len() == 0 || has_char_in(trimmed, CharClass::WhiteSpace)) {
        let l = punct_trimmed_len(trimmed);
        lemma_punct_trimmed_end_bounds(trimmed, 0, trimmed.len() as int);
        lemma_punct_trimmed_end_stops(trimmed, 0, trimmed.len() as int);
        let t = trimmed.subrange(0, l);
        assert(!has_char_in(t, CharClass::WhiteSpace)) by {
            assert forall|i: int| 0 <= i < t.len() implies !class_has(
                CharClass::WhiteSpace,
                #[trigger] t[i],
            ) by {
                assert(t[i] == trimmed[i]);
            }
        }
        lemma_url_for_open_is_http(text);
        if is_http_url(t) || looks_like_url_without_scheme(t) {
            let u = if is_http_url(t) {
                t
            } else {
                https_scheme() + t
            };
            if is_http_url(t) {
                assert(t.subrange(0, 7)[0] == t[0]);
            } else {
                assert(has_char_in(url_host(t), CharClass::Is('.')));
                let k = choose|k: int|
                    0 <= k < url_host(t).len() && class_has(CharClass::Is('.'), #[trigger] url_host(t)[k]);
                crate::text::lemma_first_in_bounds(t, CharClass::HostEnd);
                assert(t.len() > 0);
                assert(u.subrange(0, 8) =~= https_scheme());
            }
            assert(t.len() > 0) by {
                if is_http_url(t) {
                    assert(t.len() >= 7);
                }
            }
            assert(u.last() == t.last());
            assert(t.last() == trimmed[l - 1]);
            assert(u[0] == 'h');
            assert(!has_char_in(u, CharClass::WhiteSpace)) by {
                assert forall|i: int| 0 <= i < u.len() implies !class_has(
                    CharClass::WhiteSpace,
                    #[trigger] u[i],
                ) by {
                    if !is_http_url(t) && i < 8 {
                        assert(u[i] == https_scheme()[i]);
                    } else if !is_http_url(t) {
                        assert(u[i] == t[i - 8]);
                    }
                }
            }
            assert(!is_white_space(u.last())) by {
                assert(!class_has(CharClass::WhiteSpace, u[u.len() - 1]));
            }
            lemma_trim_of_untrimmable(u);
            assert(punct_trimmed_len(u) == u.len());
            assert(u.subrange(0, u.len() as int) =~= u);
            lemma_url_keeps_scheme_prefix(t);
        }
    }
}

proof fn lemma_url_keeps_scheme_prefix(t: Seq<char>)
    ensures
        is_http_url(https_scheme() + t),
{
    assert((https_scheme() + t).subrange(0, 8) =~= https_scheme());
}

} // verus!
