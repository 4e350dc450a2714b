use welly_rs::input::{Key, KeyEvent, Modifiers};
use welly_rs::keys::bytes_for_key;

fn kev(key: Key, modifiers: Modifiers) -> KeyEvent {
    KeyEvent { key, modifiers }
}

fn ctrl() -> Modifiers {
    Modifiers {
        ctrl: true,
        ..Modifiers::default()
    }
}

fn alt() -> Modifiers {
    Modifiers {
        alt: true,
        ..Modifiers::default()
    }
}

fn cmd() -> Modifiers {
    Modifiers {
        command: true,
        ..Modifiers::default()
    }
}

#[test]
fn arrows_map_to_welly_csi_sequences() {
    assert_eq!(
        bytes_for_key(kev(Key::ArrowUp, Modifiers::default())),
        Some(b"\x1b[A".to_vec())
    );
    assert_eq!(
        bytes_for_key(kev(Key::ArrowLeft, Modifiers::default())),
        Some(b"\x1b[D".to_vec())
    );
}

#[test]
fn alt_arrows_map_to_welly_navigation() {
    assert_eq!(
        bytes_for_key(kev(Key::ArrowUp, alt())),
        Some(b"\x1b[5~".to_vec())
    );
    assert_eq!(
        bytes_for_key(kev(Key::ArrowDown, alt())),
        Some(b"\x1b[6~".to_vec())
    );
    assert_eq!(
        bytes_for_key(kev(Key::ArrowRight, alt())),
        Some(b"\x1b[4~".to_vec())
    );
    assert_eq!(
        bytes_for_key(kev(Key::ArrowLeft, alt())),
        Some(b"\x1b[1~".to_vec())
    );
}

#[test]
fn ctrl_letter_sends_ascii_control_byte() {
    assert_eq!(
        bytes_for_key(kev(Key::Letter('G'), ctrl())),
        Some(vec![0x07])
    );
    assert_eq!(
        bytes_for_key(kev(Key::Letter('K'), ctrl())),
        Some(vec![0x0b])
    );
    assert_eq!(bytes_for_key(kev(Key::Enter, ctrl())), Some(vec![0x0d]));
}

#[test]
fn command_only_returns_none() {
    assert_eq!(bytes_for_key(kev(Key::Letter('G'), cmd())), None);
}

#[test]
fn command_shortcuts_with_any_key_are_kept_local() {
    for key in [Key::Letter('R'), Key::Letter('C'), Key::ArrowUp, Key::Enter, Key::Minus] {
        assert_eq!(bytes_for_key(kev(key, cmd())), None);
    }
}

#[test]
fn ctrl_punctuation_and_editing_keys_send_their_control_bytes() {
    assert_eq!(bytes_for_key(kev(Key::OpenBracket, ctrl())), Some(vec![0x1b]));
    assert_eq!(bytes_for_key(kev(Key::Backslash, ctrl())), Some(vec![0x1c]));
    assert_eq!(bytes_for_key(kev(Key::CloseBracket, ctrl())), Some(vec![0x1d]));
    assert_eq!(bytes_for_key(kev(Key::Digit(6), ctrl())), Some(vec![0x1e]));
    assert_eq!(bytes_for_key(kev(Key::Minus, ctrl())), Some(vec![0x1f]));
    assert_eq!(bytes_for_key(kev(Key::Backspace, ctrl())), Some(vec![0x08]));
}

#[test]
fn plain_editing_keys_send_their_sequences() {
    let none = Modifiers::default();
    assert_eq!(bytes_for_key(kev(Key::Enter, none)), Some(vec![0x0d]));
    assert_eq!(bytes_for_key(kev(Key::Backspace, none)), Some(vec![0x7f]));
    assert_eq!(bytes_for_key(kev(Key::Delete, none)), Some(b"\x1b[3~".to_vec()));
    assert_eq!(bytes_for_key(kev(Key::Home, none)), Some(b"\x1b[1~".to_vec()));
    assert_eq!(bytes_for_key(kev(Key::End, none)), Some(b"\x1b[4~".to_vec()));
    assert_eq!(bytes_for_key(kev(Key::PageUp, none)), Some(b"\x1b[5~".to_vec()));
    assert_eq!(bytes_for_key(kev(Key::PageDown, none)), Some(b"\x1b[6~".to_vec()));
    assert_eq!(bytes_for_key(kev(Key::Other, none)), None);
}
