//! Welly-style key to byte-stream mapping.

use vstd::prelude::*;

use crate::ansi_parser::{cleared_params, spec_run, with_state, ParserModel, ParserState};
use crate::input::{Key, KeyEvent, WheelDir};
use crate::mouse::wheel_bytes;
use crate::sequences::{lemma_run_csi, lemma_run_push};
use crate::terminal::{state_wf, TermState};

verus! {

/// `ESC [ c`: a cursor key.
pub open spec fn csi_key(c: u8) -> Seq<u8> {
    seq![0x1bu8, 0x5bu8, c]
}

/// `ESC [ d ~`: an editing key.
pub open spec fn tilde_key(d: u8) -> Seq<u8> {
    seq![0x1bu8, 0x5bu8, d, 0x7eu8]
}

/// The control byte Ctrl with `key` sends, if any: Ctrl-A through Ctrl-Z are
/// 1 through 26 (Backspace, Tab and Enter give Ctrl-H, Ctrl-I and Ctrl-M),
/// `[` and Escape give ESC, and `\`, `]`, `6` and `-` give 28 through 31.
pub open spec fn ctrl_byte(key: Key) -> Option<u8> {
    match key {
        Key::Letter(c) => if 'A' <= c && c <= 'Z' {
            Some((c as int - 'A' as int + 1) as u8)
        } else {
            None
        },
        Key::Backspace => Some(0x08u8),
        Key::Tab => Some(0x09u8),
        Key::Enter => Some(0x0du8),
        Key::OpenBracket => Some(0x1bu8),
        Key::Escape => Some(0x1bu8),
        Key::Backslash => Some(0x1cu8),
        Key::CloseBracket => Some(0x1du8),
        Key::Digit(d) => if d == 6 {
            Some(0x1eu8)
        } else {
            None
        },
        Key::Minus => Some(0x1fu8),
        _ => None,
    }
}

/// Alt with an arrow navigates as Welly does: up and down page, left and
/// right go to the start and end.
pub open spec fn alt_bytes(key: Key) -> Option<Seq<u8>> {
    match key {
        Key::ArrowUp => Some(tilde_key(0x35)),
        Key::ArrowDown => Some(tilde_key(0x36)),
        Key::ArrowRight => Some(tilde_key(0x34)),
        Key::ArrowLeft => Some(tilde_key(0x31)),
        _ => None,
    }
}

/// The bytes of an unmodified key.
pub open spec fn plain_bytes(key: Key) -> Option<Seq<u8>> {
    match key {
        Key::Enter => Some(seq![0x0du8]),
        Key::Backspace => Some(seq![0x7fu8]),
        Key::Delete => Some(tilde_key(0x33)),
        Key::Tab => Some(seq![0x09u8]),
        Key::Escape => Some(seq![0x1bu8]),
        Key::ArrowUp => Some(csi_key(0x41)),
        Key::ArrowDown => Some(csi_key(0x42)),
        Key::ArrowRight => Some(csi_key(0x43)),
        Key::ArrowLeft => Some(csi_key(0x44)),
        Key::Home => Some(tilde_key(0x31)),
        Key::End => Some(tilde_key(0x34)),
        Key::PageUp => Some(tilde_key(0x35)),
        Key::PageDown => Some(tilde_key(0x36)),
        _ => None,
    }
}

/// What a key event sends: nothing for the command key without Ctrl (a host
/// shortcut), the control byte with Ctrl (without Alt), the Alt navigation
/// with Alt, the plain sequence otherwise.
pub open spec fn key_bytes(event: KeyEvent) -> Option<Seq<u8>> {
    let m = event.modifiers;
    if m.command && !m.ctrl {
        None
    } else if m.ctrl && !m.alt {
        match ctrl_byte(event.key) {
            Some(b) => Some(seq![b]),
            None => None,
        }
    } else if m.alt {
        alt_bytes(event.key)
    } else {
        plain_bytes(event.key)
    }
}

pub open spec fn opt_bytes_view(r: Option<Vec<u8>>) -> Option<Seq<u8>> {
    match r {
        Some(v) => Some(v@),
        None => None,
    }
}

fn csi_key_vec(c: u8) -> (v: Vec<u8>)
    ensures
        v@ == csi_key(c),
{
    let v = vec![0x1bu8, 0x5bu8, c];
    assert(v@ =~= csi_key(c));
    v
}

fn tilde_key_vec(d: u8) -> (v: Vec<u8>)
    ensures
        v@ == tilde_key(d),
{
    let v = vec![0x1bu8, 0x5bu8, d, 0x7eu8];
    assert(v@ =~= tilde_key(d));
    v
}

/// Returns the byte sequence Welly sends for this key event, or `None` when
/// the key is not forwarded (such as macOS command shortcuts).
pub fn bytes_for_key(event: KeyEvent) -> (r: Option<Vec<u8>>)
    ensures
        opt_bytes_view(r) == key_bytes(event),
{
    let m = event.modifiers;
    if m.command && !m.ctrl {
        return None;
    }
    if m.ctrl && !m.alt {
        return ctrl_key_bytes(event.key);
    }
    if m.alt {
        return alt_key_bytes(event.key);
    }
    match event.key {
        Key::Enter => Some(vec![0x0du8]),
        Key::Backspace => Some(vec![0x7fu8]),
        Key::Delete => Some(tilde_key_vec(0x33)),
        Key::Tab => Some(vec![0x09u8]),
        Key::Escape => Some(vec![0x1bu8]),
        Key::ArrowUp => Some(csi_key_vec(0x41)),
        Key::ArrowDown => Some(csi_key_vec(0x42)),
        Key::ArrowRight => Some(csi_key_vec(0x43)),
        Key::ArrowLeft => Some(csi_key_vec(0x44)),
        Key::Home => Some(tilde_key_vec(0x31)),
        Key::End => Some(tilde_key_vec(0x34)),
        Key::PageUp => Some(tilde_key_vec(0x35)),
        Key::PageDown => Some(tilde_key_vec(0x36)),
        _ => None,
    }
}

fn ctrl_key_bytes(key: Key) -> (r: Option<Vec<u8>>)
    ensures
        opt_bytes_view(r) == (match ctrl_byte(key) {
            Some(b) => Some(seq![b]),
            None => None,
        }),
{
    let byte: u8 = match key {
        Key::Letter(c) => {
            if 'A' <= c && c <= 'Z' {
                ((c as u32) - ('A' as u32) + 1) as u8
            } else {
                return None;
            }
        },
        Key::Backspace => 0x08,
        Key::Tab => 0x09,
        Key::Enter => 0x0d,
        Key::OpenBracket | Key::Escape => 0x1b,
        Key::Backslash => 0x1c,
        Key::CloseBracket => 0x1d,
        Key::Digit(6) => 0x1e,
        Key::Minus => 0x1f,
        _ => return None,
    };
    let v = vec![byte];
    assert(v@ =~= seq![byte]);
    Some(v)
}

fn alt_key_bytes(key: Key) -> (r: Option<Vec<u8>>)
    ensures
        opt_bytes_view(r) == alt_bytes(key),
{
    match key {
        Key::ArrowUp => Some(tilde_key_vec(0x35)),
        Key::ArrowDown => Some(tilde_key_vec(0x36)),
        Key::ArrowRight => Some(tilde_key_vec(0x34)),
        Key::ArrowLeft => Some(tilde_key_vec(0x31)),
        _ => None,
    }
}

/// The command key without Ctrl is a host shortcut: whatever the key and the
/// other modifiers, nothing is sent.
pub proof fn lemma_command_shortcuts_are_never_sent(event: KeyEvent)
    requires
        event.modifiers.command,
        !event.modifiers.ctrl,
    ensures
        key_bytes(event) is None,
{
}

/// Every byte a Ctrl key sends is an ASCII control code, 1 through 31.
pub proof fn lemma_ctrl_keys_send_one_control_byte(event: KeyEvent)
    requires
        event.modifiers.ctrl,
        !event.modifiers.alt,
        key_bytes(event) is Some,
    ensures
        key_bytes(event)->0.len() == 1,
        1 <= key_bytes(event)->0[0] <= 31,
{
}

/// The direction of an arrow key, as a wheel turn names it.
pub open spec fn arrow_dir(key: Key) -> Option<WheelDir> {
    match key {
        Key::ArrowUp => Some(WheelDir::Up),
        Key::ArrowDown => Some(WheelDir::Down),
        Key::ArrowLeft => Some(WheelDir::Left),
        Key::ArrowRight => Some(WheelDir::Right),
        _ => None,
    }
}

/// Whether an event carries neither Ctrl, Alt nor the command key.
pub open spec fn unmodified(event: KeyEvent) -> bool {
    !event.modifiers.ctrl && !event.modifiers.alt && !event.modifiers.command
}

/// Bytes read as the characters of the same code.
pub open spec fn byte_chars(b: Seq<u8>) -> Seq<char> {
    b.map_values(|x: u8| x as char)
}

/// An arrow key without Ctrl, Alt or the command key sends what the wheel
/// sends for its direction, and the four arrows send four different
/// sequences.
pub proof fn lemma_arrows_send_wheel_bytes(event: KeyEvent, other: KeyEvent)
    requires
        unmodified(event),
        unmodified(other),
        arrow_dir(event.key) is Some,
        arrow_dir(other.key) is Some,
    ensures
        key_bytes(event) == Some(wheel_bytes(arrow_dir(event.key)->0)),
        event.key != other.key ==> key_bytes(event) != key_bytes(other),
{
    let a = key_bytes(event)->0;
    let b = key_bytes(other)->0;
    if event.key != other.key {
        assert(a[2] != b[2]);
    }
}

/// The bytes of an arrow key without Ctrl, Alt or the command key, echoed to
/// the terminal, move its cursor one cell in the arrow's direction (away
/// from the screen's edges and outside origin mode), leaving the screen as
/// it is.
pub proof fn lemma_arrow_bytes_move_the_cursor(event: KeyEvent, p: ParserModel, t: TermState)
    requires
        unmodified(event),
        arrow_dir(event.key) is Some,
        p.state == ParserState::Normal,
        state_wf(t),
        !t.origin_mode,
        1 <= t.cursor_row && t.cursor_row + 1 < t.rows,
        1 <= t.cursor_col && t.cursor_col + 1 < t.cols,
    ensures
        ({
            let u = spec_run(p, t, byte_chars(key_bytes(event)->0)).1;
            &&& u.grid == t.grid
            &&& u.cursor_row == t.cursor_row + match event.key {
                Key::ArrowUp => -1int,
                Key::ArrowDown => 1int,
                _ => 0int,
            }
            &&& u.cursor_col == t.cursor_col + match event.key {
                Key::ArrowLeft => -1int,
                Key::ArrowRight => 1int,
                _ => 0int,
            }
        }),
{
    let b = key_bytes(event)->0;
    let f: char = b[2] as char;
    assert(byte_chars(b) =~= seq!['\u{1b}', '['] + seq![f]);
    lemma_run_csi(p, t, seq![f]);
    let q = with_state(cleared_params(p), ParserState::Csi);
    lemma_run_push(q, t, Seq::empty(), f);
    assert(Seq::<char>::empty().push(f) =~= seq![f]);
}

/// Alt with an arrow navigates like the plain navigation keys: Alt-Up pages
/// up as PageUp does, Alt-Down pages down as PageDown does, Alt-Left goes to
/// the start as Home does and Alt-Right to the end as End does.
pub proof fn lemma_alt_arrows_navigate(event: KeyEvent, plain: KeyEvent)
    requires
        event.modifiers.alt,
        !event.modifiers.command || event.modifiers.ctrl,
        unmodified(plain),
        plain.key == match event.key {
            Key::ArrowUp => Key::PageUp,
            Key::ArrowDown => Key::PageDown,
            Key::ArrowLeft => Key::Home,
            Key::ArrowRight => Key::End,
            _ => plain.key,
        },
        arrow_dir(event.key) is Some,
    ensures
        key_bytes(event) == key_bytes(plain),
        key_bytes(event) is Some,
{
}

/// Ctrl with a letter sends the letter's control code: its place in the
/// alphabet, 1 for A through 26 for Z.
pub proof fn lemma_ctrl_letter_sends_its_place(event: KeyEvent, c: char)
    requires
        event.modifiers.ctrl,
        !event.modifiers.alt,
        event.key == Key::Letter(c),
        'A' <= c <= 'Z',
    ensures
        key_bytes(event) == Some(seq![(c as int - 'A' as int + 1) as u8]),
{
}

/// The unmodified editing and paging keys send the VT sequences `ESC [ n ~`:
/// Home 1, Delete 3, End 4, PageUp 5, PageDown 6; Enter sends CR,
/// Backspace DEL, Tab HT and Escape ESC.
pub proof fn lemma_plain_keys_send_vt_sequences(event: KeyEvent)
    requires
        unmodified(event),
    ensures
        event.key == Key::Home ==> key_bytes(event) == Some(seq![0x1bu8, 0x5bu8, 0x31u8, 0x7eu8]),
        event.key == Key::Delete ==> key_bytes(event) == Some(seq![0x1bu8, 0x5bu8, 0x33u8, 0x7eu8]),
        event.key == Key::End ==> key_bytes(event) == Some(seq![0x1bu8, 0x5bu8, 0x34u8, 0x7eu8]),
        event.key == Key::PageUp ==> key_bytes(event) == Some(seq![0x1bu8, 0x5bu8, 0x35u8, 0x7eu8]),
        event.key == Key::PageDown ==> key_bytes(event) == Some(seq![0x1bu8, 0x5bu8, 0x36u8, 0x7eu8]),
        event.key == Key::Enter ==> key_bytes(event) == Some(seq![0x0du8]),
        event.key == Key::Backspace ==> key_bytes(event) == Some(seq![0x7fu8]),
        event.key == Key::Tab ==> key_bytes(event) == Some(seq![0x09u8]),
        event.key == Key::Escape ==> key_bytes(event) == Some(seq![0x1bu8]),
{
}

} // verus!
