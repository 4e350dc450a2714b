use welly_rs::ansi_parser::AnsiParser;
use welly_rs::terminal::Terminal;

#[test]
fn vertical_tab_advances_to_next_line() {
    let mut parser = AnsiParser::new();
    let mut terminal = Terminal::new(3, 10);

    parser.feed_bytes(b"A\x0bB", &mut terminal);

    assert_eq!(terminal.grid[0][0].ch, 'A');
    assert_eq!(terminal.grid[1][1].ch, 'B');
    assert_eq!(terminal.cursor_row, 1);
    assert_eq!(terminal.cursor_col, 2);
}

#[test]
fn form_feed_advances_to_next_line() {
    let mut parser = AnsiParser::new();
    let mut terminal = Terminal::new(3, 10);

    parser.feed_bytes(b"A\x0cB", &mut terminal);

    assert_eq!(terminal.grid[0][0].ch, 'A');
    assert_eq!(terminal.grid[1][1].ch, 'B');
    assert_eq!(terminal.cursor_row, 1);
    assert_eq!(terminal.cursor_col, 2);
}

#[test]
fn csi_set_line_feed_new_line_mode_makes_lf_return_to_column_zero() {
    let mut parser = AnsiParser::new();
    let mut terminal = Terminal::new(3, 10);

    parser.feed_bytes(b"\x1b[20hA\nB", &mut terminal);

    assert_eq!(terminal.grid[0][0].ch, 'A');
    assert_eq!(terminal.grid[1][0].ch, 'B');
    assert_eq!(terminal.cursor_row, 1);
    assert_eq!(terminal.cursor_col, 1);
}

#[test]
fn csi_reset_line_feed_new_line_mode_keeps_lf_in_same_column() {
    let mut parser = AnsiParser::new();
    let mut terminal = Terminal::new(3, 10);

    parser.feed_bytes(b"\x1b[20h\x1b[20lA\nB", &mut terminal);

    assert_eq!(terminal.grid[0][0].ch, 'A');
    assert_eq!(terminal.grid[1][1].ch, 'B');
    assert_eq!(terminal.cursor_row, 1);
    assert_eq!(terminal.cursor_col, 2);
}

#[test]
fn csi_scroll_region_moves_cursor_to_region_top() {
    let mut parser = AnsiParser::new();
    let mut terminal = Terminal::new(24, 80);

    parser.feed_bytes(b"\x1b[10;20r", &mut terminal);

    assert_eq!(terminal.scroll_top, 9);
    assert_eq!(terminal.scroll_bottom, 19);
    assert_eq!(terminal.cursor_row, 9);
    assert_eq!(terminal.cursor_col, 0);
}

#[test]
fn csi_cursor_position_uses_final_param() {
    let mut parser = AnsiParser::new();
    let mut terminal = Terminal::new(5, 10);

    parser.feed_bytes(b"\x1b[3;4HX", &mut terminal);

    assert_eq!(terminal.grid[2][3].ch, 'X');
    assert_eq!(terminal.cursor_row, 2);
    assert_eq!(terminal.cursor_col, 4);
}

#[test]
fn csi_clear_screen_uses_final_param() {
    let mut parser = AnsiParser::new();
    let mut terminal = Terminal::new(5, 10);

    parser.feed_bytes(b"ABC\x1b[2J", &mut terminal);

    assert_eq!(terminal.grid[0][0].ch, ' ');
    assert_eq!(terminal.grid[0][1].ch, ' ');
    assert_eq!(terminal.grid[0][2].ch, ' ');
    assert_eq!(terminal.cursor_row, 0);
    assert_eq!(terminal.cursor_col, 0);
}

#[test]
fn gb18030_text_is_decoded_onto_the_screen() {
    let mut parser = AnsiParser::new();
    let mut terminal = Terminal::new(2, 10);

    parser.feed_bytes(&[0xd6, 0xd0, 0xce, 0xc4], &mut terminal);

    assert_eq!(terminal.grid[0][0].ch, '中');
    assert_eq!(terminal.grid[0][0].width, 2);
    assert_eq!(terminal.grid[0][2].ch, '文');
    assert_eq!(terminal.cursor_col, 4);
}

#[test]
fn feeding_in_chunks_gives_the_same_screen() {
    let text = "\x1b[2;3Hab\x1b[1;31mcd\x1b[0m\r\nxyz";
    let mut whole_parser = AnsiParser::new();
    let mut whole = Terminal::new(4, 10);
    whole_parser.feed_text(text, &mut whole);

    let mut parts_parser = AnsiParser::new();
    let mut parts = Terminal::new(4, 10);
    parts_parser.feed_text("\x1b[2;", &mut parts);
    parts_parser.feed_text("3Hab\x1b[1;3", &mut parts);
    parts_parser.feed_text("1mcd\x1b[0m\r\nxyz", &mut parts);

    assert_eq!(whole.grid, parts.grid);
    assert_eq!(whole.cursor_row, parts.cursor_row);
    assert_eq!(whole.cursor_col, parts.cursor_col);
    assert_eq!(whole.grid[1][4].fg_color, welly_rs::cell::Color::Red);
}

#[test]
fn gb18030_character_split_between_feeds_is_completed() {
    let mut whole_parser = AnsiParser::new();
    let mut whole = Terminal::new(2, 10);
    whole_parser.feed_bytes(&[0x41, 0xd6, 0xd0, 0xce, 0xc4, 0x42], &mut whole);

    let mut split_parser = AnsiParser::new();
    let mut split = Terminal::new(2, 10);
    split_parser.feed_bytes(&[0x41, 0xd6], &mut split);
    assert_eq!(split.cursor_col, 1);
    split_parser.feed_bytes(&[0xd0, 0xce], &mut split);
    split_parser.feed_bytes(&[0xc4, 0x42], &mut split);

    assert_eq!(whole.grid, split.grid);
    assert_eq!(split.grid[0][1].ch, '中');
    assert_eq!(split.grid[0][3].ch, '文');
    assert_eq!(split.grid[0][5].ch, 'B');
    assert_eq!(split.cursor_col, 6);
}

#[test]
fn long_input_is_decoded_across_chunks() {
    let mut parser = AnsiParser::new();
    let mut terminal = Terminal::new(2, 10);
    let mut data = vec![b'\r'; 4095];
    data.extend_from_slice(&[0xd6, 0xd0]);
    parser.feed_bytes(&data, &mut terminal);
    assert_eq!(terminal.grid[0][0].ch, '中');
}
