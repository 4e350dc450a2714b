//! The ANSI/CSI stream parser: decodes GB18030 bytes from the server and
//! drives a [`Terminal`] with the characters and control sequences found.

use vstd::prelude::*;

use crate::gb18030::{
    decode_to_utf8, gb18030_stream_text, max_utf8_buffer_length, newly_decoded, stream_text_extends,
    utf8_text, Gb18030Stream,
};
use crate::cell::Color;
use crate::terminal::{
    min_int, sat_sub, spec_backspace, spec_clear_all, spec_clear_line, spec_clear_screen,
    spec_delete_chars, spec_delete_lines, spec_erase_chars, spec_insert_char, spec_insert_lines,
    spec_line_feed, spec_move_cursor_back, spec_move_cursor_down, spec_move_cursor_forward,
    spec_move_cursor_up, spec_put_char, spec_reset_attributes, spec_restore_cursor,
    spec_save_cursor, spec_scroll_down, spec_scroll_up, spec_set_cursor, spec_set_scroll_region,
    spec_tab, state_wf, with_cursor, Attribute, ClearLineMode, ClearScreenMode, TermState,
    Terminal,
};

verus! {

/// Where the parser is inside a control sequence.
#[derive(Clone, Copy, Debug, PartialEq, Eq, Structural)]
pub enum ParserState {
    Normal,
    Escape,
    Csi,
    Osc,
    OscEnd,
    Charset,
}

/// The mathematical state of the parser (everything but the text decoder).
#[verifier::ext_equal]
pub struct ParserModel {
    pub state: ParserState,
    pub params: Seq<usize>,
    pub current_param: usize,
    pub param_has_value: bool,
    pub private_mode: bool,
    pub osc: Seq<char>,
    pub charset: u8,
}

/// A fresh parser: normal state, no parameters, the ASCII character set.
pub open spec fn initial_model() -> ParserModel {
    ParserModel {
        state: ParserState::Normal,
        params: Seq::empty(),
        current_param: 0,
        param_has_value: false,
        private_mode: false,
        osc: Seq::empty(),
        charset: 66,
    }
}

pub open spec fn with_state(p: ParserModel, st: ParserState) -> ParserModel {
    ParserModel { state: st, ..p }
}

pub open spec fn cleared_params(p: ParserModel) -> ParserModel {
    ParserModel {
        params: Seq::empty(),
        current_param: 0,
        param_has_value: false,
        private_mode: false,
        ..p
    }
}

/// The parameter being read is complete (an empty one counts as 0).
pub open spec fn pushed_param(p: ParserModel) -> ParserModel {
    ParserModel {
        params: p.params.push(
            if p.param_has_value {
                p.current_param
            } else {
                0
            },
        ),
        current_param: 0,
        param_has_value: false,
        ..p
    }
}

/// At the final byte of a sequence the pending parameter, if any parameter was
/// written at all, is completed.
pub open spec fn finished_params(p: ParserModel) -> ParserModel {
    if p.param_has_value || p.params.len() > 0 {
        pushed_param(p)
    } else {
        p
    }
}

/// Parameter `i`, or `default` when it is missing or zero.
pub open spec fn param_or(p: ParserModel, i: int, default: usize) -> usize {
    if 0 <= i < p.params.len() && p.params[i] > 0 {
        p.params[i]
    } else {
        default
    }
}

/// A decimal digit appended to the parameter being read, saturating at the
/// largest `usize`.
pub open spec fn appended_digit(current: usize, digit: int) -> usize {
    if current * 10 + digit <= usize::MAX {
        (current * 10 + digit) as usize
    } else {
        usize::MAX
    }
}

/// The C0 and C1 control characters (general category Cc).
pub open spec fn is_control(c: char) -> bool {
    c <= '\u{1f}' || ('\u{7f}' <= c && c <= '\u{9f}')
}

pub open spec fn is_ascii_alpha(c: char) -> bool {
    ('A' <= c && c <= 'Z') || ('a' <= c && c <= 'z')
}

/// The final bytes of a control sequence, `@` through `~`.
pub open spec fn is_final_byte(c: char) -> bool {
    '\u{40}' <= c && c <= '\u{7e}'
}

/// The DEC special graphics character set: line-drawing and symbol glyphs in
/// place of the lower-case letters and a few punctuation marks.
pub open spec fn dec_graphic(c: char) -> char {
    if c == '`' {
        '\u{25c6}'
    } else if c == 'a' {
        '\u{2592}'
    } else if c == 'b' {
        '\u{2409}'
    } else if c == 'c' {
        '\u{240c}'
    } else if c == 'd' {
        '\u{240d}'
    } else if c == 'e' {
        '\u{240a}'
    } else if c == 'f' {
        '\u{b0}'
    } else if c == 'g' {
        '\u{b1}'
    } else if c == 'h' {
        '\u{2424}'
    } else if c == 'i' {
        '\u{240b}'
    } else if c == 'j' {
        '\u{2518}'
    } else if c == 'k' {
        '\u{2510}'
    } else if c == 'l' {
        '\u{250c}'
    } else if c == 'm' {
        '\u{2514}'
    } else if c == 'n' {
        '\u{253c}'
    } else if c == 'o' {
        '\u{23ba}'
    } else if c == 'p' {
        '\u{23bb}'
    } else if c == 'q' {
        '\u{2500}'
    } else if c == 'r' {
        '\u{23bc}'
    } else if c == 's' {
        '\u{23bd}'
    } else if c == 't' {
        '\u{251c}'
    } else if c == 'u' {
        '\u{2524}'
    } else if c == 'v' {
        '\u{2534}'
    } else if c == 'w' {
        '\u{252c}'
    } else if c == 'x' {
        '\u{2502}'
    } else if c == 'y' {
        '\u{2264}'
    } else if c == 'z' {
        '\u{2265}'
    } else if c == '{' {
        '\u{3c0}'
    } else if c == '|' {
        '\u{2260}'
    } else if c == '}' {
        '\u{a3}'
    } else if c == '~' {
        '\u{b7}'
    } else {
        c
    }
}

/// The character to draw for `c` under the designated character set: the DEC
/// special graphics set is `0`, everything else draws `c` itself.
pub open spec fn charset_mapped(charset: u8, c: char) -> char {
    if charset != 48 {
        c
    } else {
        dec_graphic(c)
    }
}

// ---------------------------------------------------------------------------
// Terminal actions of the sequences.
// ---------------------------------------------------------------------------

/// Reverse index: the cursor moves up a row, or at the top of the scroll
/// region the region scrolls down.
pub open spec fn spec_reverse_index(t: TermState) -> TermState {
    if t.cursor_row > t.scroll_top {
        with_cursor(t, t.cursor_row - 1, t.cursor_col)
    } else {
        spec_scroll_down(t, 1)
    }
}

/// Full reset: blank screen, cursor home, default attributes, scroll region
/// spanning the screen.
pub open spec fn spec_full_reset(t: TermState) -> TermState {
    TermState { scroll_top: 0, scroll_bottom: t.rows - 1, ..spec_reset_attributes(spec_clear_all(t)) }
}

pub open spec fn spec_tabs(t: TermState, n: nat) -> TermState
    decreases n,
{
    if n == 0 {
        t
    } else {
        spec_tab(spec_tabs(t, (n - 1) as nat))
    }
}

/// One backwards tab: to the previous multiple of eight before the cursor's
/// tab stop, or column 0.
pub open spec fn spec_back_tab(t: TermState) -> TermState {
    with_cursor(t, t.cursor_row, sat_sub(t.cursor_col / 8, 1) * 8)
}

pub open spec fn spec_back_tabs(t: TermState, n: nat) -> TermState
    decreases n,
{
    if n == 0 {
        t
    } else {
        spec_back_tab(spec_back_tabs(t, (n - 1) as nat))
    }
}

pub open spec fn spec_insert_blanks(t: TermState, n: nat) -> TermState
    decreases n,
{
    if n == 0 {
        t
    } else {
        spec_insert_char(spec_insert_blanks(t, (n - 1) as nat), ' ', 1)
    }
}

/// Set (`enabled`) or reset mode: with `?`, 6 is origin mode and 7 auto-wrap;
/// without, 4 is insert mode and 20 line-feed/new-line mode.
pub open spec fn spec_set_modes(p: ParserModel, t: TermState, enabled: bool) -> TermState {
    modes_applied(t, p.private_mode, p.params, enabled)
}

pub open spec fn modes_applied(t: TermState, private: bool, ps: Seq<usize>, enabled: bool) -> TermState {
    if private {
        TermState {
            origin_mode: if ps.contains(6) {
                enabled
            } else {
                t.origin_mode
            },
            auto_wrap: if ps.contains(7) {
                enabled
            } else {
                t.auto_wrap
            },
            ..t
        }
    } else {
        TermState {
            insert_mode: if ps.contains(4) {
                enabled
            } else {
                t.insert_mode
            },
            line_feed_new_line_mode: if ps.contains(20) {
                enabled
            } else {
                t.line_feed_new_line_mode
            },
            ..t
        }
    }
}

/// One mode parameter applied.
pub open spec fn mode_applied(t: TermState, private: bool, x: usize, enabled: bool) -> TermState {
    if private {
        if x == 6 {
            TermState { origin_mode: enabled, ..t }
        } else if x == 7 {
            TermState { auto_wrap: enabled, ..t }
        } else {
            t
        }
    } else {
        if x == 4 {
            TermState { insert_mode: enabled, ..t }
        } else if x == 20 {
            TermState { line_feed_new_line_mode: enabled, ..t }
        } else {
            t
        }
    }
}

pub open spec fn sgr_color(code: int) -> Color {
    if 0 <= code < 8 {
        crate::cell::named_color(code)
    } else {
        Color::Default
    }
}

pub open spec fn sgr_bright_color(code: int) -> Color {
    if 0 <= code < 8 {
        crate::cell::named_color(code + 8)
    } else {
        Color::Default
    }
}

/// The effect of one select-graphic-rendition code that takes no arguments.
pub open spec fn sgr_simple(t: TermState, v: usize) -> TermState {
    if v == 0 {
        spec_reset_attributes(t)
    } else if v == 1 {
        TermState { bold: true, ..t }
    } else if v == 4 {
        TermState { underline: true, ..t }
    } else if v == 5 {
        TermState { blink: true, ..t }
    } else if v == 7 {
        TermState { reverse: true, ..t }
    } else if v == 22 {
        TermState { bold: false, ..t }
    } else if v == 24 {
        TermState { underline: false, ..t }
    } else if v == 25 {
        TermState { blink: false, ..t }
    } else if v == 27 {
        TermState { reverse: false, ..t }
    } else if 30 <= v <= 37 {
        TermState { fg_color: sgr_color(v - 30), ..t }
    } else if v == 39 {
        TermState { fg_color: Color::Default, ..t }
    } else if 40 <= v <= 47 {
        TermState { bg_color: sgr_color(v - 40), ..t }
    } else if v == 49 {
        TermState { bg_color: Color::Default, ..t }
    } else if 90 <= v <= 97 {
        TermState { fg_color: sgr_bright_color(v - 90), ..t }
    } else if 100 <= v <= 107 {
        TermState { bg_color: sgr_bright_color(v - 100), ..t }
    } else {
        t
    }
}

/// The color set by `38;5;N`/`48;5;N` (palette) or `38;2;R;G;B`/`48;2;R;G;B`
/// (direct), with the arguments reduced to bytes.
pub open spec fn with_extended_color(t: TermState, fg: bool, c: Color) -> TermState {
    if fg {
        TermState { fg_color: c, ..t }
    } else {
        TermState { bg_color: c, ..t }
    }
}

/// The select-graphic-rendition codes from `i` on, applied in order; an
/// extended-color code consumes its arguments, and one without complete
/// arguments is skipped alone.
pub open spec fn sgr_from(ps: Seq<usize>, i: int, t: TermState) -> TermState
    decreases ps.len() - i,
{
    if i < 0 || i >= ps.len() {
        t
    } else {
        let v = ps[i];
        if v == 38 || v == 48 {
            if i + 2 < ps.len() && ps[i + 1] == 5 {
                sgr_from(ps, i + 3, with_extended_color(t, v == 38, Color::Indexed(ps[i + 2] as u8)))
            } else if i + 4 < ps.len() && ps[i + 1] == 2 {
                sgr_from(
                    ps,
                    i + 5,
                    with_extended_color(
                        t,
                        v == 38,
                        Color::Rgb(ps[i + 2] as u8, ps[i + 3] as u8, ps[i + 4] as u8),
                    ),
                )
            } else {
                sgr_from(ps, i + 1, t)
            }
        } else {
            sgr_from(ps, i + 1, sgr_simple(t, v))
        }
    }
}

/// Select graphic rendition: no codes at all resets the attributes.
pub open spec fn spec_sgr(p: ParserModel, t: TermState) -> TermState {
    if p.params.len() == 0 {
        spec_reset_attributes(t)
    } else {
        sgr_from(p.params, 0, t)
    }
}

/// The screen row addressed by a 1-based row parameter, relative to the top of
/// the scroll region in origin mode.
pub open spec fn addressed_row(t: TermState, row: usize) -> int {
    if t.origin_mode {
        t.scroll_top + sat_sub(row as int, 1)
    } else {
        sat_sub(row as int, 1)
    }
}

pub open spec fn screen_mode(v: usize) -> ClearScreenMode {
    if v == 1 {
        ClearScreenMode::ToCursor
    } else if v == 2 {
        ClearScreenMode::All
    } else {
        ClearScreenMode::FromCursor
    }
}

pub open spec fn line_mode(v: usize) -> ClearLineMode {
    if v == 1 {
        ClearLineMode::ToCursor
    } else if v == 2 {
        ClearLineMode::All
    } else {
        ClearLineMode::FromCursor
    }
}

/// The cursor-movement sequences.
pub open spec fn csi_cursor_action(p: ParserModel, t: TermState, ch: char) -> TermState {
    let n = param_or(p, 0, 1) as int;
    if ch == 'A' {
        spec_move_cursor_up(t, n)
    } else if ch == 'B' {
        spec_move_cursor_down(t, n)
    } else if ch == 'C' {
        spec_move_cursor_forward(t, n)
    } else if ch == 'D' {
        spec_move_cursor_back(t, n)
    } else if ch == 'E' {
        with_cursor(t, min_int(t.cursor_row + n, t.rows - 1), 0)
    } else if ch == 'F' {
        with_cursor(t, sat_sub(t.cursor_row, n), 0)
    } else if ch == 'G' {
        spec_set_cursor(t, t.cursor_row, sat_sub(n, 1))
    } else if ch == 'H' || ch == 'f' {
        spec_set_cursor(t, addressed_row(t, param_or(p, 0, 1)), sat_sub(param_or(p, 1, 1) as int, 1))
    } else if ch == 'I' {
        spec_tabs(t, n as nat)
    } else if ch == 'Z' {
        spec_back_tabs(t, n as nat)
    } else if ch == 'd' {
        spec_set_cursor(t, addressed_row(t, param_or(p, 0, 1)), t.cursor_col)
    } else {
        t
    }
}

/// The editing, mode, attribute and region sequences.
pub open spec fn csi_edit_action(p: ParserModel, t: TermState, ch: char) -> TermState {
    let n = param_or(p, 0, 1) as int;
    if ch == 'J' {
        spec_clear_screen(t, screen_mode(param_or(p, 0, 0)))
    } else if ch == 'K' {
        spec_clear_line(t, line_mode(param_or(p, 0, 0)))
    } else if ch == 'L' {
        if t.cursor_row <= t.scroll_bottom {
            spec_insert_lines(t, n)
        } else {
            t
        }
    } else if ch == 'M' {
        if t.cursor_row <= t.scroll_bottom {
            spec_delete_lines(t, n)
        } else {
            t
        }
    } else if ch == 'P' {
        spec_delete_chars(t, n)
    } else if ch == 'S' {
        spec_scroll_up(t, n)
    } else if ch == 'T' {
        spec_scroll_down(t, n)
    } else if ch == 'X' {
        spec_erase_chars(t, n)
    } else if ch == 'h' {
        spec_set_modes(p, t, true)
    } else if ch == 'l' {
        spec_set_modes(p, t, false)
    } else if ch == 'm' {
        spec_sgr(p, t)
    } else if ch == 'r' {
        let t1 = spec_set_scroll_region(
            t,
            sat_sub(param_or(p, 0, 1) as int, 1),
            sat_sub(param_or(p, 1, t.rows as usize) as int, 1),
        );
        spec_set_cursor(t1, t1.scroll_top, 0)
    } else if ch == 's' {
        spec_save_cursor(t)
    } else if ch == 'u' {
        spec_restore_cursor(t)
    } else if ch == '@' {
        spec_insert_blanks(t, n as nat)
    } else {
        t
    }
}

pub open spec fn is_cursor_final(ch: char) -> bool {
    ch == 'A' || ch == 'B' || ch == 'C' || ch == 'D' || ch == 'E' || ch == 'F' || ch == 'G' || ch
        == 'H' || ch == 'f' || ch == 'I' || ch == 'Z' || ch == 'd'
}

/// A character inside a control sequence, after any final-byte parameter
/// completion: digits accumulate the parameter, `;` and `:` separate
/// parameters, `?` marks a private sequence, ESC restarts the parameters, and
/// a letter or `@` performs its action and ends the sequence.
pub open spec fn csi_dispatch(p: ParserModel, t: TermState, ch: char) -> (ParserModel, TermState) {
    if '0' <= ch && ch <= '9' {
        (
            ParserModel {
                current_param: appended_digit(p.current_param, ch as int - '0' as int),
                param_has_value: true,
                ..p
            },
            t,
        )
    } else if ch == ';' || ch == ':' {
        (pushed_param(p), t)
    } else if ch == '?' {
        (ParserModel { private_mode: true, ..p }, t)
    } else if ch == '\u{1b}' {
        (cleared_params(p), t)
    } else if is_ascii_alpha(ch) || ch == '@' {
        (
            with_state(p, ParserState::Normal),
            if is_cursor_final(ch) {
                csi_cursor_action(p, t, ch)
            } else {
                csi_edit_action(p, t, ch)
            },
        )
    } else {
        (p, t)
    }
}

pub open spec fn step_csi(p: ParserModel, t: TermState, ch: char) -> (ParserModel, TermState) {
    let p1 = if is_final_byte(ch) {
        finished_params(p)
    } else {
        p
    };
    csi_dispatch(p1, t, ch)
}

pub open spec fn step_normal(p: ParserModel, t: TermState, ch: char) -> (ParserModel, TermState) {
    if ch == '\u{1b}' {
        (with_state(cleared_params(p), ParserState::Escape), t)
    } else if ch == '\u{07}' || ch == '\u{0e}' || ch == '\u{0f}' {
        (p, t)
    } else if ch == '\u{08}' {
        (p, spec_backspace(t))
    } else if ch == '\u{09}' {
        (p, spec_tab(t))
    } else if ch == '\u{0a}' || ch == '\u{0b}' || ch == '\u{0c}' {
        (p, spec_line_feed(t))
    } else if ch == '\u{0d}' {
        (p, with_cursor(t, t.cursor_row, 0))
    } else if !is_control(ch) {
        (p, spec_put_char(t, charset_mapped(p.charset, ch)))
    } else {
        (p, t)
    }
}

pub open spec fn step_escape(p: ParserModel, t: TermState, ch: char) -> (ParserModel, TermState) {
    let normal = with_state(p, ParserState::Normal);
    if ch == '[' {
        (with_state(cleared_params(p), ParserState::Csi), t)
    } else if ch == ']' {
        (ParserModel { state: ParserState::Osc, osc: Seq::empty(), ..p }, t)
    } else if ch == '(' || ch == ')' || ch == '*' || ch == '+' {
        (with_state(p, ParserState::Charset), t)
    } else if ch == '7' {
        (normal, spec_save_cursor(t))
    } else if ch == '8' {
        (normal, spec_restore_cursor(t))
    } else if ch == 'D' {
        (normal, spec_line_feed(t))
    } else if ch == 'E' {
        (normal, spec_line_feed(with_cursor(t, t.cursor_row, 0)))
    } else if ch == 'M' {
        (normal, spec_reverse_index(t))
    } else if ch == 'c' {
        (normal, spec_full_reset(t))
    } else {
        (normal, t)
    }
}

/// Inside an operating-system command: BEL ends it, ESC expects its string
/// terminator, anything else is collected (and otherwise ignored).
pub open spec fn step_osc(p: ParserModel, ch: char) -> ParserModel {
    if ch == '\u{07}' {
        with_state(p, ParserState::Normal)
    } else if ch == '\u{1b}' {
        with_state(p, ParserState::OscEnd)
    } else {
        ParserModel { osc: p.osc.push(ch), ..p }
    }
}

/// One character through the parser: the new parser state and screen.
pub open spec fn spec_step(p: ParserModel, t: TermState, ch: char) -> (ParserModel, TermState) {
    match p.state {
        ParserState::Normal => step_normal(p, t, ch),
        ParserState::Escape => step_escape(p, t, ch),
        ParserState::Csi => step_csi(p, t, ch),
        ParserState::Osc => (step_osc(p, ch), t),
        ParserState::OscEnd => (with_state(p, ParserState::Normal), t),
        ParserState::Charset => (ParserModel { state: ParserState::Normal, charset: (ch as u32) as u8, ..p }, t),
    }
}

/// A sequence of characters through the parser, in order.
pub open spec fn spec_run(p: ParserModel, t: TermState, s: Seq<char>) -> (ParserModel, TermState)
    decreases s.len(),
{
    if s.len() == 0 {
        (p, t)
    } else {
        let prev = spec_run(p, t, s.drop_last());
        spec_step(prev.0, prev.1, s.last())
    }
}

} // verus!

verus! {

pub struct AnsiParser {
    state: ParserState,
    decoder: Gb18030Stream,
    params: Vec<usize>,
    current_param: usize,
    param_has_value: bool,
    private_mode: bool,
    osc_string: String,
    charset: u8,
}

/// What the parser needs of the terminal it drives: the terminal invariant and
/// at least one column (tab stops and cursor moves clamp to the last column).
pub open spec fn drivable(t: TermState) -> bool {
    state_wf(t) && t.cols >= 1
}

impl AnsiParser {
    /// The bytes the parser's decoder has been fed since the parser was made.
    pub closed spec fn fed_bytes(&self) -> Seq<u8> {
        self.decoder@
    }
}

impl View for AnsiParser {
    type V = ParserModel;

    closed spec fn view(&self) -> ParserModel {
        ParserModel {
            state: self.state,
            params: self.params@,
            current_param: self.current_param,
            param_has_value: self.param_has_value,
            private_mode: self.private_mode,
            osc: self.osc_string@,
            charset: self.charset,
        }
    }
}

pub(crate) fn is_control_char(c: char) -> (r: bool)
    ensures
        r == is_control(c),
{
    c <= '\u{1f}' || ('\u{7f}' <= c && c <= '\u{9f}')
}

fn is_csi_final_byte(ch: char) -> (r: bool)
    ensures
        r == is_final_byte(ch),
{
    '\u{40}' <= ch && ch <= '\u{7e}'
}

fn dec_graphic_char(c: char) -> (r: char)
    ensures
        r == dec_graphic(c),
{
    match c {
        '`' => '\u{25c6}',
        'a' => '\u{2592}',
        'b' => '\u{2409}',
        'c' => '\u{240c}',
        'd' => '\u{240d}',
        'e' => '\u{240a}',
        'f' => '\u{b0}',
        'g' => '\u{b1}',
        'h' => '\u{2424}',
        'i' => '\u{240b}',
        'j' => '\u{2518}',
        'k' => '\u{2510}',
        'l' => '\u{250c}',
        'm' => '\u{2514}',
        'n' => '\u{253c}',
        'o' => '\u{23ba}',
        'p' => '\u{23bb}',
        'q' => '\u{2500}',
        'r' => '\u{23bc}',
        's' => '\u{23bd}',
        't' => '\u{251c}',
        'u' => '\u{2524}',
        'v' => '\u{2534}',
        'w' => '\u{252c}',
        'x' => '\u{2502}',
        'y' => '\u{2264}',
        'z' => '\u{2265}',
        '{' => '\u{3c0}',
        '|' => '\u{2260}',
        '}' => '\u{a3}',
        '~' => '\u{b7}',
        _ => c,
    }
}

fn sgr_color_of(code: usize) -> (c: Color)
    ensures
        c == sgr_color(code as int),
{
    match code {
        0 => Color::Black,
        1 => Color::Red,
        2 => Color::Green,
        3 => Color::Yellow,
        4 => Color::Blue,
        5 => Color::Magenta,
        6 => Color::Cyan,
        7 => Color::White,
        _ => Color::Default,
    }
}

fn sgr_bright_color_of(code: usize) -> (c: Color)
    ensures
        c == sgr_bright_color(code as int),
{
    match code {
        0 => Color::BrightBlack,
        1 => Color::BrightRed,
        2 => Color::BrightGreen,
        3 => Color::BrightYellow,
        4 => Color::BrightBlue,
        5 => Color::BrightMagenta,
        6 => Color::BrightCyan,
        7 => Color::BrightWhite,
        _ => Color::Default,
    }
}

fn reverse_index(terminal: &mut Terminal)
    requires
        drivable(old(terminal)@),
    ensures
        drivable(final(terminal)@),
        final(terminal)@ == spec_reverse_index(old(terminal)@),
{
    if terminal.cursor_row > terminal.scroll_top {
        terminal.cursor_row -= 1;
    } else {
        terminal.scroll_down(1);
    }
}

fn full_reset(terminal: &mut Terminal)
    requires
        drivable(old(terminal)@),
    ensures
        drivable(final(terminal)@),
        final(terminal)@ == spec_full_reset(old(terminal)@),
{
    terminal.clear_all();
    terminal.reset_attributes();
    terminal.scroll_top = 0;
    terminal.scroll_bottom = terminal.rows - 1;
}

impl AnsiParser {
    /// A parser in the normal state with a fresh GB18030 decoder and the ASCII
    /// character set designated.
    pub fn new() -> (p: Self)
        ensures
            p@ == initial_model(),
            p.fed_bytes() == Seq::<u8>::empty(),
    {
        AnsiParser {
            state: ParserState::Normal,
            decoder: Gb18030Stream::new(),
            params: Vec::new(),
            current_param: 0,
            param_has_value: false,
            private_mode: false,
            osc_string: String::new(),
            charset: 66,
        }
    }

    fn clear_params(&mut self)
        ensures
            final(self).fed_bytes() == old(self).fed_bytes(),
            final(self)@ == cleared_params(old(self)@),
    {
        self.params.clear();
        self.current_param = 0;
        self.param_has_value = false;
        self.private_mode = false;
    }

    fn push_param(&mut self)
        ensures
            final(self).fed_bytes() == old(self).fed_bytes(),
            final(self)@ == pushed_param(old(self)@),
    {
        if self.param_has_value {
            self.params.push(self.current_param);
        } else {
            self.params.push(0);
        }
        self.current_param = 0;
        self.param_has_value = false;
    }

    fn finish_params(&mut self)
        ensures
            final(self).fed_bytes() == old(self).fed_bytes(),
            final(self)@ == finished_params(old(self)@),
    {
        if self.param_has_value || self.params.len() > 0 {
            self.push_param();
        }
    }

    fn get_param(&self, index: usize, default: usize) -> (r: usize)
        ensures
            r == param_or(self@, index as int, default),
    {
        if index < self.params.len() {
            let val = self.params[index];
            if val > 0 {
                val
            } else {
                default
            }
        } else {
            default
        }
    }

    fn map_charset_char(&self, ch: char) -> (r: char)
        ensures
            r == charset_mapped(self@.charset, ch),
    {
        if self.charset != 48 {
            return ch;
        }
        dec_graphic_char(ch)
    }

    fn process_normal(&mut self, ch: char, terminal: &mut Terminal)
        requires
            drivable(old(terminal)@),
        ensures
            final(self).fed_bytes() == old(self).fed_bytes(),
            drivable(final(terminal)@),
            final(self)@ == step_normal(old(self)@, old(terminal)@, ch).0,
            final(terminal)@ == step_normal(old(self)@, old(terminal)@, ch).1,
    {
        if ch == '\u{1b}' {
            self.state = ParserState::Escape;
            self.clear_params();
        } else if ch == '\u{07}' || ch == '\u{0e}' || ch == '\u{0f}' {
        } else if ch == '\u{08}' {
            terminal.backspace();
        } else if ch == '\u{09}' {
            terminal.tab();
        } else if ch == '\u{0a}' || ch == '\u{0b}' || ch == '\u{0c}' {
            terminal.line_feed();
        } else if ch == '\u{0d}' {
            terminal.carriage_return();
        } else if !is_control_char(ch) {
            let mapped = self.map_charset_char(ch);
            terminal.put_char(mapped);
        }
    }

    fn process_escape(&mut self, ch: char, terminal: &mut Terminal)
        requires
            drivable(old(terminal)@),
        ensures
            final(self).fed_bytes() == old(self).fed_bytes(),
            drivable(final(terminal)@),
            final(self)@ == step_escape(old(self)@, old(terminal)@, ch).0,
            final(terminal)@ == step_escape(old(self)@, old(terminal)@, ch).1,
    {
        match ch {
            '[' => {
                self.state = ParserState::Csi;
                self.clear_params();
            },
            ']' => {
                self.state = ParserState::Osc;
                self.osc_string = String::new();
            },
            '(' | ')' | '*' | '+' => {
                self.state = ParserState::Charset;
            },
            '7' => {
                terminal.save_cursor();
                self.state = ParserState::Normal;
            },
            '8' => {
                terminal.restore_cursor();
                self.state = ParserState::Normal;
            },
            'D' => {
                terminal.line_feed();
                self.state = ParserState::Normal;
            },
            'E' => {
                terminal.carriage_return();
                terminal.line_feed();
                self.state = ParserState::Normal;
            },
            'M' => {
                reverse_index(terminal);
                self.state = ParserState::Normal;
            },
            'c' => {
                full_reset(terminal);
                self.state = ParserState::Normal;
            },
            _ => {
                self.state = ParserState::Normal;
            },
        }
    }

    fn process_osc(&mut self, ch: char)
        ensures
            final(self).fed_bytes() == old(self).fed_bytes(),
            final(self)@ == step_osc(old(self)@, ch),
    {
        if ch == '\u{07}' {
            self.state = ParserState::Normal;
        } else if ch == '\u{1b}' {
            self.state = ParserState::OscEnd;
        } else {
            crate::text::string_push(&mut self.osc_string, ch);
        }
    }
}

} // verus!

verus! {

proof fn lemma_set_cursor_far_rows(t: TermState, a: int, b: int, c: int)
    requires
        a >= t.rows,
        b >= t.rows,
    ensures
        spec_set_cursor(t, a, c) == spec_set_cursor(t, b, c),
{
}

proof fn lemma_sgr_step(ps: Seq<usize>, i: int, t: TermState)
    requires
        0 <= i < ps.len(),
    ensures
        sgr_from(ps, i, t) == ({
            let v = ps[i];
            if v == 38 || v == 48 {
                if i + 2 < ps.len() && ps[i + 1] == 5 {
                    sgr_from(ps, i + 3, with_extended_color(t, v == 38, Color::Indexed(ps[i + 2] as u8)))
                } else if i + 4 < ps.len() && ps[i + 1] == 2 {
                    sgr_from(
                        ps,
                        i + 5,
                        with_extended_color(
                            t,
                            v == 38,
                            Color::Rgb(ps[i + 2] as u8, ps[i + 3] as u8, ps[i + 4] as u8),
                        ),
                    )
                } else {
                    sgr_from(ps, i + 1, t)
                }
            } else {
                sgr_from(ps, i + 1, sgr_simple(t, v))
            }
        }),
{
}

proof fn lemma_contains_push(ps: Seq<usize>, x: usize, y: usize)
    ensures
        ps.push(x).contains(y) <==> (ps.contains(y) || x == y),
{
    let q = ps.push(x);
    if q.contains(y) {
        let k = choose|k: int| 0 <= k < q.len() && q[k] == y;
        if k < ps.len() {
            assert(ps[k] == y);
        }
    }
    if ps.contains(y) {
        let k = choose|k: int| 0 <= k < ps.len() && ps[k] == y;
        assert(q[k] == y);
    }
    if x == y {
        assert(q[ps.len() as int] == y);
    }
}

proof fn lemma_modes_push(t0: TermState, pv: bool, pre: Seq<usize>, x: usize, enabled: bool)
    ensures
        modes_applied(t0, pv, pre.push(x), enabled) == mode_applied(modes_applied(t0, pv, pre, enabled), pv, x, enabled),
{
    lemma_contains_push(pre, x, 4);
    lemma_contains_push(pre, x, 6);
    lemma_contains_push(pre, x, 7);
    lemma_contains_push(pre, x, 20);
    assert(modes_applied(t0, pv, pre.push(x), enabled) =~= mode_applied(modes_applied(t0, pv, pre, enabled), pv, x, enabled));
}

fn apply_mode(terminal: &mut Terminal, private: bool, param: usize, enabled: bool)
    requires
        drivable(old(terminal)@),
    ensures
        drivable(final(terminal)@),
        final(terminal)@ == mode_applied(old(terminal)@, private, param, enabled),
{
    if private {
        if param == 6 {
            terminal.origin_mode = enabled;
        } else if param == 7 {
            terminal.auto_wrap = enabled;
        }
    } else {
        if param == 4 {
            terminal.insert_mode = enabled;
        } else if param == 20 {
            terminal.line_feed_new_line_mode = enabled;
        }
    }
}

fn apply_sgr_simple(terminal: &mut Terminal, v: usize)
    requires
        drivable(old(terminal)@),
    ensures
        drivable(final(terminal)@),
        final(terminal)@ == sgr_simple(old(terminal)@, v),
{
    match v {
        0 => terminal.set_attribute(Attribute::Reset),
        1 => terminal.set_attribute(Attribute::Bold),
        4 => terminal.set_attribute(Attribute::Underline),
        5 => terminal.set_attribute(Attribute::Blink),
        7 => terminal.set_attribute(Attribute::Reverse),
        22 => terminal.bold = false,
        24 => terminal.underline = false,
        25 => terminal.blink = false,
        27 => terminal.reverse = false,
        30..=37 => {
            let color = sgr_color_of(v - 30);
            terminal.set_attribute(Attribute::Foreground(color));
        },
        39 => terminal.set_attribute(Attribute::Foreground(Color::Default)),
        40..=47 => {
            let color = sgr_color_of(v - 40);
            terminal.set_attribute(Attribute::Background(color));
        },
        49 => terminal.set_attribute(Attribute::Background(Color::Default)),
        90..=97 => {
            let color = sgr_bright_color_of(v - 90);
            terminal.set_attribute(Attribute::Foreground(color));
        },
        100..=107 => {
            let color = sgr_bright_color_of(v - 100);
            terminal.set_attribute(Attribute::Background(color));
        },
        _ => {},
    }
}

fn set_extended_color(terminal: &mut Terminal, fg: bool, c: Color)
    requires
        drivable(old(terminal)@),
    ensures
        drivable(final(terminal)@),
        final(terminal)@ == with_extended_color(old(terminal)@, fg, c),
{
    if fg {
        terminal.set_attribute(Attribute::Foreground(c));
    } else {
        terminal.set_attribute(Attribute::Background(c));
    }
}

fn param_byte(v: usize) -> (b: u8)
    ensures
        b == v as u8,
{
    #[verifier::truncate]
    (v as u8)
}

fn move_to_addressed_row(terminal: &mut Terminal, row: usize, col: usize)
    requires
        drivable(old(terminal)@),
    ensures
        drivable(final(terminal)@),
        final(terminal)@ == spec_set_cursor(old(terminal)@, addressed_row(old(terminal)@, row), col as int),
{
    let ghost t0 = terminal@;
    let actual_row = if terminal.origin_mode {
        terminal.scroll_top.saturating_add(row.saturating_sub(1))
    } else {
        row.saturating_sub(1)
    };
    proof {
        let want = addressed_row(t0, row);
        if want >= t0.rows {
            lemma_set_cursor_far_rows(t0, want, actual_row as int, col as int);
        }
    }
    terminal.set_cursor(actual_row, col);
}

fn repeat_tab(terminal: &mut Terminal, n: usize)
    requires
        drivable(old(terminal)@),
    ensures
        drivable(final(terminal)@),
        final(terminal)@ == spec_tabs(old(terminal)@, n as nat),
{
    let ghost t0 = terminal@;
    let mut i: usize = 0;
    while i < n
        invariant
            i <= n,
            drivable(terminal@),
            terminal@ == spec_tabs(t0, i as nat),
        decreases n - i,
    {
        terminal.tab();
        i += 1;
    }
}

fn repeat_back_tab(terminal: &mut Terminal, n: usize)
    requires
        drivable(old(terminal)@),
    ensures
        drivable(final(terminal)@),
        final(terminal)@ == spec_back_tabs(old(terminal)@, n as nat),
{
    let ghost t0 = terminal@;
    let mut i: usize = 0;
    while i < n
        invariant
            i <= n,
            drivable(terminal@),
            terminal@ == spec_back_tabs(t0, i as nat),
        decreases n - i,
    {
        let prev_tab = (terminal.cursor_col / 8).saturating_sub(1) * 8;
        terminal.cursor_col = prev_tab;
        i += 1;
    }
}

fn insert_blanks(terminal: &mut Terminal, n: usize)
    requires
        drivable(old(terminal)@),
    ensures
        drivable(final(terminal)@),
        final(terminal)@ == spec_insert_blanks(old(terminal)@, n as nat),
{
    let ghost t0 = terminal@;
    let mut i: usize = 0;
    while i < n
        invariant
            i <= n,
            drivable(terminal@),
            terminal@ == spec_insert_blanks(t0, i as nat),
        decreases n - i,
    {
        terminal.insert_char(' ', 1);
        i += 1;
    }
}

impl AnsiParser {
    fn process_sgr(&self, terminal: &mut Terminal)
        requires
            drivable(old(terminal)@),
        ensures
            drivable(final(terminal)@),
            final(terminal)@ == spec_sgr(self@, old(terminal)@),
    {
        if self.params.len() == 0 {
            terminal.set_attribute(Attribute::Reset);
            return;
        }
        let ghost t0 = terminal@;
        let ghost ps = self@.params;
        let mut i: usize = 0;
        while i < self.params.len()
            invariant
                ps == self@.params,
                ps.len() > 0,
                drivable(terminal@),
                sgr_from(ps, 0, t0) == sgr_from(ps, i as int, terminal@),
            decreases ps.len() - i,
        {
            proof {
                lemma_sgr_step(ps, i as int, terminal@);
            }
            let param = self.params[i];
            if param == 38 || param == 48 {
                let fg = param == 38;
                if self.params.len() - i > 2 && self.params[i + 1] == 5 {
                    let color = Color::Indexed(param_byte(self.params[i + 2]));
                    set_extended_color(terminal, fg, color);
                    i += 2;
                } else if self.params.len() - i > 4 && self.params[i + 1] == 2 {
                    let color = Color::Rgb(
                        param_byte(self.params[i + 2]),
                        param_byte(self.params[i + 3]),
                        param_byte(self.params[i + 4]),
                    );
                    set_extended_color(terminal, fg, color);
                    i += 4;
                }
            } else {
                apply_sgr_simple(terminal, param);
            }
            i += 1;
        }
    }

    fn process_mode_set(&self, terminal: &mut Terminal, enabled: bool)
        requires
            drivable(old(terminal)@),
        ensures
            drivable(final(terminal)@),
            final(terminal)@ == spec_set_modes(self@, old(terminal)@, enabled),
    {
        let ghost t0 = terminal@;
        let ghost ps = self@.params;
        let ghost pv = self@.private_mode;
        let mut i: usize = 0;
        assert(modes_applied(t0, pv, ps.take(0), enabled) =~= t0);
        while i < self.params.len()
            invariant
                ps == self@.params,
                pv == self@.private_mode,
                i <= ps.len(),
                drivable(terminal@),
                terminal@ == modes_applied(t0, pv, ps.take(i as int), enabled),
            decreases ps.len() - i,
        {
            let param = self.params[i];
            apply_mode(terminal, self.private_mode, param, enabled);
            proof {
                lemma_modes_push(t0, pv, ps.take(i as int), param, enabled);
                assert(ps.take(i + 1) =~= ps.take(i as int).push(param));
            }
            i += 1;
        }
        assert(ps.take(ps.len() as int) =~= ps);
    }

    fn csi_cursor_action(&self, terminal: &mut Terminal, ch: char)
        requires
            drivable(old(terminal)@),
            is_cursor_final(ch),
        ensures
            drivable(final(terminal)@),
            final(terminal)@ == csi_cursor_action(self@, old(terminal)@, ch),
    {
        let ghost t0 = terminal@;
        let n = self.get_param(0, 1);
        if ch == 'A' {
            terminal.move_cursor_up(n);
        } else if ch == 'B' {
            terminal.move_cursor_down(n);
        } else if ch == 'C' {
            terminal.move_cursor_forward(n);
        } else if ch == 'D' {
            terminal.move_cursor_back(n);
        } else if ch == 'E' {
            let target = terminal.cursor_row.saturating_add(n);
            let last = terminal.rows - 1;
            terminal.cursor_row = if target < last {
                target
            } else {
                last
            };
            terminal.cursor_col = 0;
        } else if ch == 'F' {
            terminal.cursor_row = terminal.cursor_row.saturating_sub(n);
            terminal.cursor_col = 0;
        } else if ch == 'G' {
            let row = terminal.cursor_row;
            terminal.set_cursor(row, n.saturating_sub(1));
        } else if ch == 'H' || ch == 'f' {
            let row = self.get_param(0, 1);
            let col = self.get_param(1, 1);
            move_to_addressed_row(terminal, row, col.saturating_sub(1));
        } else if ch == 'I' {
            repeat_tab(terminal, n);
        } else if ch == 'Z' {
            repeat_back_tab(terminal, n);
        } else {
            let row = self.get_param(0, 1);
            let col = terminal.cursor_col;
            move_to_addressed_row(terminal, row, col);
        }
    }

    fn csi_edit_action(&self, terminal: &mut Terminal, ch: char)
        requires
            drivable(old(terminal)@),
        ensures
            drivable(final(terminal)@),
            final(terminal)@ == csi_edit_action(self@, old(terminal)@, ch),
    {
        let ghost t0 = terminal@;
        let n = self.get_param(0, 1);
        if ch == 'J' {
            let mode = match self.get_param(0, 0) {
                1 => ClearScreenMode::ToCursor,
                2 => ClearScreenMode::All,
                _ => ClearScreenMode::FromCursor,
            };
            terminal.clear_screen(mode);
        } else if ch == 'K' {
            let mode = match self.get_param(0, 0) {
                1 => ClearLineMode::ToCursor,
                2 => ClearLineMode::All,
                _ => ClearLineMode::FromCursor,
            };
            terminal.clear_line(mode);
        } else if ch == 'L' {
            if terminal.cursor_row <= terminal.scroll_bottom {
                terminal.insert_lines(n);
            }
        } else if ch == 'M' {
            if terminal.cursor_row <= terminal.scroll_bottom {
                terminal.delete_lines(n);
            }
        } else if ch == 'P' {
            terminal.delete_chars(n);
        } else if ch == 'S' {
            terminal.scroll_up(n);
        } else if ch == 'T' {
            terminal.scroll_down(n);
        } else if ch == 'X' {
            terminal.erase_chars(n);
        } else if ch == 'h' {
            self.process_mode_set(terminal, true);
        } else if ch == 'l' {
            self.process_mode_set(terminal, false);
        } else if ch == 'm' {
            self.process_sgr(terminal);
        } else if ch == 'r' {
            let top = self.get_param(0, 1);
            let bottom = self.get_param(1, terminal.rows);
            terminal.set_scroll_region(top.saturating_sub(1), bottom.saturating_sub(1));
            let top_row = terminal.scroll_top;
            terminal.set_cursor(top_row, 0);
        } else if ch == 's' {
            terminal.save_cursor();
        } else if ch == 'u' {
            terminal.restore_cursor();
        } else if ch == '@' {
            insert_blanks(terminal, n);
        }
    }

    fn process_csi(&mut self, ch: char, terminal: &mut Terminal)
        requires
            drivable(old(terminal)@),
        ensures
            final(self).fed_bytes() == old(self).fed_bytes(),
            drivable(final(terminal)@),
            final(self)@ == step_csi(old(self)@, old(terminal)@, ch).0,
            final(terminal)@ == step_csi(old(self)@, old(terminal)@, ch).1,
    {
        if is_csi_final_byte(ch) {
            self.finish_params();
        }
        if '0' <= ch && ch <= '9' {
            let digit = (ch as u32 - '0' as u32) as usize;
            self.current_param = match self.current_param.checked_mul(10) {
                Some(x) => x.saturating_add(digit),
                None => usize::MAX,
            };
            self.param_has_value = true;
        } else if ch == ';' || ch == ':' {
            self.push_param();
        } else if ch == '?' {
            self.private_mode = true;
        } else if ch == '\u{1b}' {
            self.clear_params();
        } else if ('A' <= ch && ch <= 'Z') || ('a' <= ch && ch <= 'z') || ch == '@' {
            if ch == 'A' || ch == 'B' || ch == 'C' || ch == 'D' || ch == 'E' || ch == 'F' || ch == 'G'
                || ch == 'H' || ch == 'f' || ch == 'I' || ch == 'Z' || ch == 'd' {
                self.csi_cursor_action(terminal, ch);
            } else {
                self.csi_edit_action(terminal, ch);
            }
            self.state = ParserState::Normal;
        }
    }
}

} // verus!

verus! {

broadcast use vstd::string::group_string_axioms;

impl AnsiParser {
    fn process_char(&mut self, ch: char, terminal: &mut Terminal)
        requires
            drivable(old(terminal)@),
        ensures
            final(self).fed_bytes() == old(self).fed_bytes(),
            drivable(final(terminal)@),
            final(self)@ == spec_step(old(self)@, old(terminal)@, ch).0,
            final(terminal)@ == spec_step(old(self)@, old(terminal)@, ch).1,
    {
        match self.state {
            ParserState::Normal => self.process_normal(ch, terminal),
            ParserState::Escape => self.process_escape(ch, terminal),
            ParserState::Csi => self.process_csi(ch, terminal),
            ParserState::Osc => self.process_osc(ch),
            ParserState::OscEnd => {
                self.state = ParserState::Normal;
            },
            ParserState::Charset => {
                self.charset = char_byte(ch);
                self.state = ParserState::Normal;
            },
        }
    }

    /// Runs already-decoded text through the parser, character by character,
    /// driving `terminal`.
    pub fn feed_text(&mut self, text: &str, terminal: &mut Terminal)
        requires
            drivable(old(terminal)@),
        ensures
            final(self).fed_bytes() == old(self).fed_bytes(),
            drivable(final(terminal)@),
            final(self)@ == spec_run(old(self)@, old(terminal)@, text@).0,
            final(terminal)@ == spec_run(old(self)@, old(terminal)@, text@).1,
    {
        let ghost p0 = self@;
        let ghost fed0 = self.fed_bytes();
        let ghost t0 = terminal@;
        let ghost mut done: Seq<char> = Seq::empty();
        for ch in it: text.chars()
            invariant
                self.fed_bytes() == fed0,
                drivable(terminal@),
                done == it.seq().take(it.index() as int),
                self@ == spec_run(p0, t0, done).0,
                terminal@ == spec_run(p0, t0, done).1,
        {
            let ghost prev = done;
            proof {
                done = done.push(ch);
                assert(done.drop_last() =~= prev);
                assert(done.last() == ch);
            }
            self.process_char(ch, terminal);
        }
        assert(done =~= text@);
    }

    /// Decodes the bytes with the parser's GB18030 decoder, which holds back
    /// an incomplete trailing character for the next call: the result is what
    /// the decoder's text gains from these bytes. The bytes go in chunks, each
    /// with an output buffer of the decoder's worst-case size, so each chunk is
    /// read whole.
    fn decode_text(&mut self, data: &[u8]) -> (out: String)
        ensures
            final(self)@ == old(self)@,
            final(self).fed_bytes() == old(self).fed_bytes() + data@,
            stream_text_extends(old(self).fed_bytes(), final(self).fed_bytes()),
            out@ == newly_decoded(old(self).fed_bytes(), data@),
    {
        let ghost f0 = self.decoder@;
        let mut output = String::new();
        let mut start: usize = 0;
        assert(data@.subrange(0, 0) =~= Seq::<u8>::empty());
        assert(f0 + data@.subrange(0, 0) =~= f0);
        assert(gb18030_stream_text(f0).subrange(0, gb18030_stream_text(f0).len() as int)
            =~= gb18030_stream_text(f0));
        assert(gb18030_stream_text(f0).skip(gb18030_stream_text(f0).len() as int)
            =~= Seq::<char>::empty());
        while start < data.len()
            invariant
                start <= data@.len(),
                self@ == old(self)@,
                f0 == old(self).fed_bytes(),
                self.decoder@ == f0 + data@.subrange(0, start as int),
                stream_text_extends(f0, self.decoder@),
                output@ == gb18030_stream_text(self.decoder@).skip(
                    gb18030_stream_text(f0).len() as int,
                ),
            decreases data@.len() - start,
        {
            let end = if data.len() - start > 4096 {
                start + 4096
            } else {
                data.len()
            };
            let chunk = &data[start..end];
            assert(chunk@ == data@.subrange(start as int, end as int));
            let ghost before = self.decoder@;
            let room = match max_utf8_buffer_length(&self.decoder, chunk.len()) {
                Some(n) => n,
                None => {
                    proof {
                        assert(false);
                    }
                    0
                },
            };
            let mut buf: Vec<u8> = Vec::new();
            while buf.len() < room
                invariant
                    buf@.len() <= room,
                decreases room - buf@.len(),
            {
                buf.push(0);
            }
            let (done, read, written) = decode_to_utf8(&mut self.decoder, chunk, &mut buf);
            assert(done && read == chunk@.len());
            buf.truncate(written);
            let ghost gained = gb18030_stream_text(self.decoder@).skip(
                gb18030_stream_text(before).len() as int,
            );
            proof {
                vstd::utf8::encode_utf8_valid_utf8(gained);
            }
            let text = utf8_text(&buf);
            proof {
                vstd::utf8::encode_utf8_decode_utf8(gained);
                vstd::utf8::encode_utf8_decode_utf8(text@);
            }
            assert(text@ == gained);
            let chars = crate::text::str_chars(text);
            let ghost out0 = output@;
            let mut i: usize = 0;
            while i < chars.len()
                invariant
                    i <= chars@.len(),
                    output@ == out0 + chars@.take(i as int),
                decreases chars@.len() - i,
            {
                crate::text::string_push(&mut output, chars[i]);
                assert(chars@.take(i + 1) =~= chars@.take(i as int).push(chars@[i as int]));
                i += 1;
            }
            proof {
                assert(chars@.take(chars@.len() as int) =~= chars@);
                let a = gb18030_stream_text(f0);
                let b = gb18030_stream_text(before);
                let c = gb18030_stream_text(self.decoder@);
                assert(chunk@.subrange(0, read as int) =~= chunk@);
                assert(self.decoder@ =~= f0 + data@.subrange(0, end as int));
                assert(c.subrange(0, a.len() as int) =~= b.subrange(0, a.len() as int));
                assert(output@ =~= c.skip(a.len() as int));
            }
            start = end;
        }
        assert(data@.subrange(0, data@.len() as int) =~= data@);
        output
    }

    /// Decodes `data` as GB18030, continuing the byte stream of earlier calls
    /// (a character split between two calls is completed by the second), and
    /// runs the characters the stream gains through the parser.
    pub fn feed(&mut self, data: &[u8], terminal: &mut Terminal)
        requires
            drivable(old(terminal)@),
        ensures
            drivable(final(terminal)@),
            final(self).fed_bytes() == old(self).fed_bytes() + data@,
            stream_text_extends(old(self).fed_bytes(), final(self).fed_bytes()),
            final(self)@ == spec_run(
                old(self)@,
                old(terminal)@,
                newly_decoded(old(self).fed_bytes(), data@),
            ).0,
            final(terminal)@ == spec_run(
                old(self)@,
                old(terminal)@,
                newly_decoded(old(self).fed_bytes(), data@),
            ).1,
    {
        let decoded = self.decode_text(data);
        self.feed_text(decoded.as_str(), terminal);
    }

    /// The same as [`AnsiParser::feed`].
    pub fn feed_bytes(&mut self, data: &[u8], terminal: &mut Terminal)
        requires
            drivable(old(terminal)@),
        ensures
            drivable(final(terminal)@),
            final(self).fed_bytes() == old(self).fed_bytes() + data@,
            stream_text_extends(old(self).fed_bytes(), final(self).fed_bytes()),
            final(self)@ == spec_run(
                old(self)@,
                old(terminal)@,
                newly_decoded(old(self).fed_bytes(), data@),
            ).0,
            final(terminal)@ == spec_run(
                old(self)@,
                old(terminal)@,
                newly_decoded(old(self).fed_bytes(), data@),
            ).1,
    {
        self.feed(data, terminal);
    }
}

fn char_byte(ch: char) -> (b: u8)
    ensures
        b == (ch as u32) as u8,
{
    #[verifier::truncate]
    ((ch as u32) as u8)
}

/// Running text through the parser in two pieces ends where running it in
/// one piece does: how the server's output is split into packets does not
/// matter to the screen.
pub proof fn lemma_run_concat(p: ParserModel, t: TermState, a: Seq<char>, b: Seq<char>)
    ensures
        spec_run(p, t, a + b) == spec_run(spec_run(p, t, a).0, spec_run(p, t, a).1, b),
    decreases b.len(),
{
    if b.len() == 0 {
        assert(a + b =~= a);
    } else {
        lemma_run_concat(p, t, a, b.drop_last());
        assert((a + b).drop_last() =~= a + b.drop_last());
        assert((a + b).last() == b.last());
    }
}

/// Feeding bytes in two calls ends where feeding them in one call does,
/// even when a character is split between the calls: the decoder holds the
/// first half back and the second call completes it. Each call establishes
/// that the stream's text only grows, which is what the law assumes.
pub proof fn lemma_feed_split(p: ParserModel, t: TermState, fed: Seq<u8>, a: Seq<u8>, b: Seq<u8>)
    requires
        stream_text_extends(fed, fed + a),
        stream_text_extends(fed + a, fed + a + b),
    ensures
        spec_run(
            spec_run(p, t, newly_decoded(fed, a)).0,
            spec_run(p, t, newly_decoded(fed, a)).1,
            newly_decoded(fed + a, b),
        ) == spec_run(p, t, newly_decoded(fed, a + b)),
{
    assert(fed + a + b =~= fed + (a + b));
    let x = gb18030_stream_text(fed);
    let y = gb18030_stream_text(fed + a);
    let z = gb18030_stream_text(fed + a + b);
    assert(z.subrange(0, x.len() as int) =~= y.subrange(0, x.len() as int));
    assert(newly_decoded(fed, a) + newly_decoded(fed + a, b) =~= newly_decoded(fed, a + b));
    lemma_run_concat(p, t, newly_decoded(fed, a), newly_decoded(fed + a, b));
}

} // verus!
