//! Toolkit-neutral input events.

use vstd::prelude::*;

use crate::ansi_parser::is_control;

verus! {

#[derive(Clone, Copy, Debug, PartialEq, Eq, Structural)]
pub enum Key {
    Enter,
    Backspace,
    Delete,
    Tab,
    Escape,
    ArrowUp,
    ArrowDown,
    ArrowLeft,
    ArrowRight,
    Home,
    End,
    PageUp,
    PageDown,
    /// ASCII letter A-Z (uppercase form).
    Letter(char),
    /// Digit 0-9.
    Digit(u8),
    /// `[`, `]`, `\`, `-`: used by Ctrl-key sequences.
    OpenBracket,
    CloseBracket,
    Backslash,
    Minus,
    /// Keys that are not translated (function keys and the like).
    Other,
}

#[derive(Clone, Copy, Debug, Default, PartialEq, Eq, Structural)]
pub struct Modifiers {
    pub ctrl: bool,
    pub alt: bool,
    pub shift: bool,
    /// The macOS command key.
    pub command: bool,
}

#[derive(Clone, Copy, Debug, PartialEq, Eq, Structural)]
pub struct KeyEvent {
    pub key: Key,
    pub modifiers: Modifiers,
}

#[derive(Clone, Copy, Debug, PartialEq, Eq, Structural)]
pub enum WheelDir {
    Up,
    Down,
    Left,
    Right,
}

#[derive(Clone, Copy, Debug, PartialEq, Eq, Structural)]
pub struct GridPoint {
    pub row: usize,
    pub col: usize,
}

#[derive(Clone, Copy, Debug, PartialEq, Eq, Structural)]
pub enum MouseEvent {
    Wheel(WheelDir),
    /// A click at a grid position; whether it picks an entry row or navigates
    /// is decided against the screen.
    Click(GridPoint),
}

#[derive(Clone, Debug, PartialEq)]
pub enum InputEvent {
    Key(KeyEvent),
    Mouse(MouseEvent),
    /// Decoded text from typing, an input method or the clipboard.
    Paste(String),
    Resize { cols: u16, rows: u16 },
    Reconnect,
    Shutdown,
}

/// A click at a grid position, to be resolved against the screen.
pub fn mouse_click_event(grid: GridPoint) -> (e: InputEvent)
    ensures
        e == InputEvent::Mouse(MouseEvent::Click(grid)),
{
    InputEvent::Mouse(MouseEvent::Click(grid))
}

/// Whether text typed or committed by an input method is passed on: it is
/// not empty and holds no control character.
pub open spec fn forwardable_text(text: Seq<char>) -> bool {
    text.len() > 0 && forall|i: int| 0 <= i < text.len() ==> !is_control(#[trigger] text[i])
}

/// The paste event for typed or committed text, or `None` when the text is
/// empty or holds a control character.
pub fn paste_event(text: &str) -> (e: Option<InputEvent>)
    ensures
        match e {
            Some(InputEvent::Paste(s)) => forwardable_text(text@) && s@ == text@,
            Some(_) => false,
            None => !forwardable_text(text@),
        },
{
    if text.is_empty() {
        return None;
    }
    for ch in it: text.chars()
        invariant
            text@.len() > 0,
            it.seq() == text@,
            forall|j: int| 0 <= j < it.index() ==> !#[trigger] is_control(text@[j]),
    {
        if crate::ansi_parser::is_control_char(ch) {
            return None;
        }
    }
    Some(InputEvent::Paste(text.to_owned()))
}

} // verus!
