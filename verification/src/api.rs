//! The backend's decision from an input event to what is sent to the server.

use vstd::prelude::*;

use crate::ansi_parser::is_control;
use crate::gb18030::gb18030_encoded;
use crate::input::{InputEvent, MouseEvent};
use crate::keys::{key_bytes, opt_bytes_view};
use crate::mouse::{background_bytes, entry_click_bytes, entry_click_spec, wheel_bytes};
use crate::terminal::Terminal;

verus! {

broadcast use vstd::string::group_string_axioms;

/// What the backend does with an input event.
#[derive(Debug)]
pub enum InputAction {
    /// Send these bytes to the server.
    Send(Vec<u8>),
    /// Drop the connection and connect again.
    Reconnect,
    /// Drop the connection for good.
    Shutdown,
    /// Nothing to do.
    Ignore,
}

pub open spec fn sent_bytes(a: InputAction) -> Option<Seq<u8>> {
    match a {
        InputAction::Send(v) => Some(v@),
        _ => None,
    }
}

/// Pasted or typed text is sent encoded in GB18030, unless it is empty or
/// holds a control character.
pub open spec fn paste_spec(text: Seq<char>) -> Option<Seq<u8>> {
    if text.len() == 0 || exists|i: int| 0 <= i < text.len() && #[trigger] is_control(text[i]) {
        None
    } else {
        Some(gb18030_encoded(text))
    }
}

/// What a mouse event sends: the wheel scrolls; a click on an entry moves the
/// BBS cursor there and opens it, elsewhere it navigates.
pub open spec fn mouse_spec(term: &Terminal, event: MouseEvent) -> Option<Seq<u8>> {
    match event {
        MouseEvent::Wheel(d) => Some(wheel_bytes(d)),
        MouseEvent::Click(point) => if entry_click_spec(
            term.rows as int,
            term.cols as int,
            term@.grid[point.row as int],
            point,
        ) {
            Some(entry_click_bytes(term.cursor_row as int, point.row as int))
        } else {
            background_bytes(point)
        },
    }
}

/// Returns the GB18030 bytes of typed or pasted text, or `None` for empty
/// text or text holding a control character.
pub fn paste_bytes(text: &str) -> (r: Option<Vec<u8>>)
    ensures
        opt_bytes_view(r) == paste_spec(text@),
{
    if text.is_empty() {
        return None;
    }
    for ch in it: text.chars()
        invariant
            text@.len() > 0,
            it.seq() == text@,
            forall|j: int| 0 <= j < it.index() ==> !#[trigger] is_control(text@[j]),
    {
        if crate::ansi_parser::is_control_char(ch) {
            return None;
        }
    }
    Some(crate::gb18030::gb18030_encode(text))
}

pub fn bytes_for_mouse(term: &Terminal, event: MouseEvent) -> (r: Option<Vec<u8>>)
    requires
        term.wf(),
    ensures
        opt_bytes_view(r) == mouse_spec(term, event),
{
    match event {
        MouseEvent::Wheel(d) => Some(crate::mouse::bytes_for_wheel(d)),
        MouseEvent::Click(point) => {
            if crate::mouse::is_entry_click_point(term, point) {
                Some(crate::mouse::bytes_for_entry_click(term.cursor_row, point.row))
            } else {
                crate::mouse::bytes_for_background_navigation(point)
            }
        },
    }
}

/// Decides what to do with an input event: reconnect and shutdown requests are
/// passed on, a key, mouse or paste event sends its bytes when it has any,
/// and everything else (a resize of the fixed 80x24 screen) is ignored.
pub fn action_for_input(event: InputEvent, term: &Terminal) -> (a: InputAction)
    requires
        term.wf(),
    ensures
        (a is Reconnect) <==> (event is Reconnect),
        (a is Shutdown) <==> (event is Shutdown),
        sent_bytes(a) == (match event {
            InputEvent::Key(k) => key_bytes(k),
            InputEvent::Mouse(m) => mouse_spec(term, m),
            InputEvent::Paste(text) => paste_spec(text@),
            _ => None,
        }),
{
    let bytes = match event {
        InputEvent::Key(k) => crate::keys::bytes_for_key(k),
        InputEvent::Mouse(m) => bytes_for_mouse(term, m),
        InputEvent::Paste(text) => paste_bytes(text.as_str()),
        InputEvent::Resize { .. } => None,
        InputEvent::Reconnect => {
            return InputAction::Reconnect;
        },
        InputEvent::Shutdown => {
            return InputAction::Shutdown;
        },
    };
    match bytes {
        Some(b) => InputAction::Send(b),
        None => InputAction::Ignore,
    }
}

} // verus!
