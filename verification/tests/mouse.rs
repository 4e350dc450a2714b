use welly_rs::input::{GridPoint, WheelDir};
use welly_rs::mouse::{
    bytes_for_background_navigation, bytes_for_entry_click, bytes_for_wheel,
    is_entry_click_point, is_mouse_entry_click_point, mouse_background_navigation_bytes,
    mouse_entry_click_to_bytes,
};
use welly_rs::terminal::Terminal;

fn put_ascii(terminal: &mut Terminal, row: usize, col: usize, text: &str) {
    terminal.set_cursor(row, col);
    for ch in text.chars() {
        terminal.put_char(ch);
    }
}

#[test]
fn wheel_directions_match_welly_arrows() {
    assert_eq!(bytes_for_wheel(WheelDir::Up), b"\x1b[A".to_vec());
    assert_eq!(bytes_for_wheel(WheelDir::Down), b"\x1b[B".to_vec());
    assert_eq!(bytes_for_wheel(WheelDir::Left), b"\x1b[D".to_vec());
    assert_eq!(bytes_for_wheel(WheelDir::Right), b"\x1b[C".to_vec());
}

#[test]
fn entry_click_moves_cursor_to_row_and_enters() {
    assert_eq!(
        bytes_for_entry_click(3, 6),
        b"\x1b[B\x1b[B\x1b[B\r".to_vec()
    );
    assert_eq!(
        bytes_for_entry_click(6, 3),
        b"\x1b[A\x1b[A\x1b[A\r".to_vec()
    );
}

#[test]
fn background_areas_map_to_welly_navigation_keys() {
    assert_eq!(
        bytes_for_background_navigation(GridPoint { row: 8, col: 0 }),
        Some(b"\x1b[D".to_vec())
    );
    assert_eq!(
        bytes_for_background_navigation(GridPoint { row: 4, col: 30 }),
        Some(b"\x1b[5~".to_vec())
    );
    assert_eq!(
        bytes_for_background_navigation(GridPoint { row: 18, col: 30 }),
        Some(b"\x1b[6~".to_vec())
    );
    assert_eq!(
        bytes_for_background_navigation(GridPoint { row: 8, col: 10 }),
        None
    );
}

#[test]
fn entry_click_point_uses_visible_text_range() {
    let mut terminal = Terminal::new(24, 80);
    terminal.set_cursor(5, 12);
    for ch in "Re: title".chars() {
        terminal.put_char(ch);
    }

    assert!(is_entry_click_point(&terminal, GridPoint { row: 5, col: 12 }));
    assert!(is_entry_click_point(&terminal, GridPoint { row: 5, col: 38 }));
    assert!(!is_entry_click_point(&terminal, GridPoint { row: 5, col: 60 }));
    assert!(!is_entry_click_point(&terminal, GridPoint { row: 2, col: 12 }));
}

#[test]
fn mouse_entry_click_moves_cursor_to_row_and_enters() {
    assert_eq!(
        mouse_entry_click_to_bytes(3, 6),
        b"\x1b[B\x1b[B\x1b[B\r".to_vec()
    );
    assert_eq!(
        mouse_entry_click_to_bytes(6, 3),
        b"\x1b[A\x1b[A\x1b[A\r".to_vec()
    );
}

#[test]
fn mouse_background_areas_map_to_welly_navigation_keys() {
    assert_eq!(
        mouse_background_navigation_bytes(GridPoint { row: 8, col: 0 }),
        Some(b"\x1b[D".to_vec())
    );
    assert_eq!(
        mouse_background_navigation_bytes(GridPoint { row: 4, col: 30 }),
        Some(b"\x1b[5~".to_vec())
    );
    assert_eq!(
        mouse_background_navigation_bytes(GridPoint { row: 18, col: 30 }),
        Some(b"\x1b[6~".to_vec())
    );
    assert_eq!(
        mouse_background_navigation_bytes(GridPoint { row: 8, col: 10 }),
        None
    );
}

#[test]
fn mouse_entry_click_point_uses_visible_text_range() {
    let mut terminal = Terminal::new(24, 80);
    put_ascii(&mut terminal, 5, 12, "Re: title");

    assert!(is_mouse_entry_click_point(&terminal, GridPoint { row: 5, col: 12 }));
    assert!(is_mouse_entry_click_point(&terminal, GridPoint { row: 5, col: 38 }));
    assert!(!is_mouse_entry_click_point(&terminal, GridPoint { row: 5, col: 60 }));
    assert!(!is_mouse_entry_click_point(&terminal, GridPoint { row: 2, col: 12 }));
}

#[test]
fn entry_click_on_the_same_row_only_presses_enter() {
    assert_eq!(bytes_for_entry_click(7, 7), b"\r".to_vec());
}

#[test]
fn clicks_on_the_title_and_status_rows_are_not_entries() {
    let mut terminal = Terminal::new(24, 80);
    put_ascii(&mut terminal, 23, 12, "status");
    put_ascii(&mut terminal, 1, 12, "title");

    assert!(!is_entry_click_point(&terminal, GridPoint { row: 23, col: 12 }));
    assert!(!is_entry_click_point(&terminal, GridPoint { row: 1, col: 12 }));
}

#[test]
fn left_edge_outside_the_entry_rows_does_not_go_back() {
    assert_eq!(bytes_for_background_navigation(GridPoint { row: 2, col: 0 }), None);
    assert_eq!(bytes_for_background_navigation(GridPoint { row: 23, col: 0 }), None);
}
