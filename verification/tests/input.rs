use welly_rs::api::{action_for_input, paste_bytes, InputAction};
use welly_rs::input::{
    mouse_click_event, paste_event, GridPoint, InputEvent, Key, KeyEvent, Modifiers, MouseEvent,
    WheelDir,
};
use welly_rs::terminal::Terminal;

#[test]
fn pasted_text_is_sent_as_gb18030() {
    assert_eq!(paste_bytes("中文"), Some(vec![0xd6, 0xd0, 0xce, 0xc4]));
    assert_eq!(paste_bytes("ab"), Some(b"ab".to_vec()));
}

#[test]
fn empty_or_control_text_is_not_sent() {
    assert_eq!(paste_bytes(""), None);
    assert_eq!(paste_bytes("a\u{0b}"), None);
    assert_eq!(paste_bytes("\u{85}"), None);
}

#[test]
fn paste_events_keep_their_text() {
    assert_eq!(paste_event("中文"), Some(InputEvent::Paste("中文".to_owned())));
    assert_eq!(paste_event("\u{0b}"), None);
    assert_eq!(paste_event(""), None);
}

#[test]
fn click_events_carry_their_grid_point() {
    let p = GridPoint { row: 4, col: 9 };
    assert_eq!(mouse_click_event(p), InputEvent::Mouse(MouseEvent::Click(p)));
}

#[test]
fn input_events_become_actions() {
    let terminal = Terminal::new(24, 80);
    let key = KeyEvent { key: Key::ArrowUp, modifiers: Modifiers::default() };

    match action_for_input(InputEvent::Key(key), &terminal) {
        InputAction::Send(b) => assert_eq!(b, b"\x1b[A".to_vec()),
        other => panic!("unexpected {other:?}"),
    }
    match action_for_input(InputEvent::Mouse(MouseEvent::Wheel(WheelDir::Down)), &terminal) {
        InputAction::Send(b) => assert_eq!(b, b"\x1b[B".to_vec()),
        other => panic!("unexpected {other:?}"),
    }
    match action_for_input(InputEvent::Mouse(MouseEvent::Click(GridPoint { row: 8, col: 0 })), &terminal) {
        InputAction::Send(b) => assert_eq!(b, b"\x1b[D".to_vec()),
        other => panic!("unexpected {other:?}"),
    }
    assert!(matches!(action_for_input(InputEvent::Reconnect, &terminal), InputAction::Reconnect));
    assert!(matches!(action_for_input(InputEvent::Shutdown, &terminal), InputAction::Shutdown));
    assert!(matches!(
        action_for_input(InputEvent::Resize { cols: 80, rows: 24 }, &terminal),
        InputAction::Ignore
    ));
    let cmd = KeyEvent { key: Key::Letter('R'), modifiers: Modifiers { command: true, ..Modifiers::default() } };
    assert!(matches!(action_for_input(InputEvent::Key(cmd), &terminal), InputAction::Ignore));
}
