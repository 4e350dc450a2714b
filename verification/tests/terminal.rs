use welly_rs::cell::{Cell, Color};
use welly_rs::terminal::{ClearLineMode, Terminal};

fn row_text(terminal: &Terminal, row: usize) -> String {
    terminal.grid[row].iter().map(|cell| cell.ch).collect()
}

#[test]
fn ascii_art_symbols_occupy_two_cells() {
    let mut terminal = Terminal::new(1, 4);

    terminal.put_char('┌');

    assert_eq!(terminal.cursor_col, 2);
    assert_eq!(terminal.grid[0][0].ch, '┌');
    assert_eq!(terminal.grid[0][0].width, 2);
    assert_eq!(terminal.grid[0][1].ch, '\0');
    assert_eq!(terminal.grid[0][1].width, 0);
}

#[test]
fn block_triangle_and_diagonal_symbols_occupy_two_cells() {
    for ch in ['█', '▌', '◆', '◇', '◢', '╱'] {
        let mut terminal = Terminal::new(1, 4);

        terminal.put_char(ch);

        assert_eq!(terminal.cursor_col, 2, "{ch} should advance by two cells");
        assert_eq!(terminal.grid[0][0].ch, ch);
        assert_eq!(terminal.grid[0][0].width, 2);
        assert_eq!(terminal.grid[0][1].width, 0);
    }
}

#[test]
fn cjk_punctuation_occupies_two_cells() {
    for ch in ['“', '”', '‘', '’', '…'] {
        let mut terminal = Terminal::new(1, 4);

        terminal.put_char(ch);

        assert_eq!(terminal.cursor_col, 2, "{ch} should advance by two cells");
        assert_eq!(terminal.grid[0][0].ch, ch);
        assert_eq!(terminal.grid[0][0].width, 2);
        assert_eq!(terminal.grid[0][1].ch, '\0');
        assert_eq!(terminal.grid[0][1].width, 0);
    }
}

#[test]
fn filling_last_column_does_not_immediately_wrap() {
    let mut terminal = Terminal::new(2, 4);

    for ch in ['a', 'b', 'c', 'd'] {
        terminal.put_char(ch);
    }

    assert_eq!(terminal.cursor_row, 0);
    assert_eq!(terminal.cursor_col, 4);
    assert_eq!(terminal.grid[0][3].ch, 'd');
    assert_eq!(terminal.grid[1][0].ch, ' ');
}

#[test]
fn line_feed_after_full_line_advances_only_one_row() {
    let mut terminal = Terminal::new(3, 4);

    for ch in ['a', 'b', 'c', 'd'] {
        terminal.put_char(ch);
    }
    terminal.line_feed();

    assert_eq!(terminal.cursor_row, 1);
    assert_eq!(terminal.cursor_col, 4);
    assert_eq!(terminal.grid[0][3].ch, 'd');
    assert_eq!(terminal.grid[2][0].ch, ' ');
}

#[test]
fn overwriting_double_width_continuation_clears_leading_cell() {
    let mut terminal = Terminal::new(1, 4);

    terminal.put_char('表');
    terminal.set_cursor(0, 1);
    terminal.put_char('都');

    assert_eq!(terminal.grid[0][0], Cell::default());
    assert_eq!(terminal.grid[0][1].ch, '都');
    assert_eq!(terminal.grid[0][1].width, 2);
    assert_eq!(terminal.grid[0][2].ch, '\0');
    assert_eq!(terminal.grid[0][2].width, 0);
}

#[test]
fn overwriting_double_width_leading_cell_clears_continuation() {
    let mut terminal = Terminal::new(1, 4);

    terminal.put_char('表');
    terminal.set_cursor(0, 0);
    terminal.put_char('A');

    assert_eq!(terminal.grid[0][0].ch, 'A');
    assert_eq!(terminal.grid[0][0].width, 1);
    assert_eq!(terminal.grid[0][1], Cell::default());
}

#[test]
fn clear_line_preserves_current_background_on_blanks() {
    let mut terminal = Terminal::new(1, 6);

    terminal.bg_color = Color::Red;
    terminal.put_char('M');
    terminal.put_char('a');
    terminal.set_cursor(0, 0);
    terminal.clear_line(ClearLineMode::All);

    assert_eq!(terminal.grid[0][0].ch, ' ');
    assert_eq!(terminal.grid[0][0].bg_color, Color::Red);
    assert_eq!(terminal.grid[0][1].bg_color, Color::Red);
}

#[test]
fn delete_chars_preserves_current_background_on_revealed_blanks() {
    let mut terminal = Terminal::new(1, 5);

    terminal.bg_color = Color::Red;
    for ch in "abcde".chars() {
        terminal.put_char(ch);
    }
    terminal.set_cursor(0, 1);
    terminal.delete_chars(2);

    assert_eq!(row_text(&terminal, 0), "ade  ");
    assert_eq!(terminal.grid[0][3].bg_color, Color::Red);
    assert_eq!(terminal.grid[0][4].bg_color, Color::Red);
}

#[test]
fn overwriting_double_width_half_preserves_current_background() {
    let mut terminal = Terminal::new(1, 4);

    terminal.bg_color = Color::Red;
    terminal.put_char('表');
    terminal.set_cursor(0, 1);
    terminal.put_char('A');

    assert_eq!(terminal.grid[0][0].ch, ' ');
    assert_eq!(terminal.grid[0][0].bg_color, Color::Red);
    assert_eq!(terminal.grid[0][1].ch, 'A');
    assert_eq!(terminal.grid[0][1].bg_color, Color::Red);
}

#[test]
fn scroll_region_scrolls_only_its_rows() {
    let mut terminal = Terminal::new(4, 2);
    for (row, ch) in ['a', 'b', 'c', 'd'].into_iter().enumerate() {
        terminal.set_cursor(row, 0);
        terminal.put_char(ch);
    }
    terminal.set_scroll_region(1, 2);
    terminal.scroll_up(1);

    assert_eq!(row_text(&terminal, 0), "a ");
    assert_eq!(row_text(&terminal, 1), "c ");
    assert_eq!(row_text(&terminal, 2), "  ");
    assert_eq!(row_text(&terminal, 3), "d ");
}

#[test]
fn insert_and_delete_lines_keep_rows_outside_the_region() {
    let mut terminal = Terminal::new(3, 1);
    for (row, ch) in ['a', 'b', 'c'].into_iter().enumerate() {
        terminal.set_cursor(row, 0);
        terminal.put_char(ch);
    }
    terminal.set_cursor(1, 0);
    terminal.insert_lines(1);
    assert_eq!(row_text(&terminal, 0), "a");
    assert_eq!(row_text(&terminal, 1), " ");
    assert_eq!(row_text(&terminal, 2), "b");

    terminal.delete_lines(1);
    assert_eq!(row_text(&terminal, 1), "b");
    assert_eq!(row_text(&terminal, 2), " ");
}

#[test]
fn save_and_restore_cursor_round_trip() {
    let mut terminal = Terminal::new(5, 10);
    terminal.set_cursor(3, 7);
    terminal.save_cursor();
    terminal.set_cursor(0, 0);
    terminal.restore_cursor();

    assert_eq!(terminal.cursor_row, 3);
    assert_eq!(terminal.cursor_col, 7);
}

#[test]
fn cursor_moves_stop_at_the_screen_edges() {
    let mut terminal = Terminal::new(5, 10);
    terminal.set_cursor(2, 3);
    terminal.move_cursor_up(100);
    assert_eq!(terminal.cursor_row, 0);
    terminal.move_cursor_down(100);
    assert_eq!(terminal.cursor_row, 4);
    terminal.move_cursor_back(100);
    assert_eq!(terminal.cursor_col, 0);
    terminal.move_cursor_forward(100);
    assert_eq!(terminal.cursor_col, 9);
}

#[test]
fn tab_moves_to_the_next_multiple_of_eight() {
    let mut terminal = Terminal::new(1, 20);
    terminal.set_cursor(0, 3);
    terminal.tab();
    assert_eq!(terminal.cursor_col, 8);
    terminal.tab();
    assert_eq!(terminal.cursor_col, 16);
}

fn wide_chars_whole(terminal: &Terminal) -> bool {
    terminal.grid.iter().all(|row| {
        (0..row.len()).all(|c| {
            let cell = &row[c];
            cell.width <= 2
                && (cell.width != 0 || (c > 0 && row[c - 1].width == 2))
                && (cell.width != 2 || (c + 1 < row.len() && row[c + 1].width == 0 && row[c + 1].ch == '\0'))
        })
    })
}

#[test]
fn inserting_pushes_a_cut_off_wide_char_out_whole() {
    let mut terminal = Terminal::new(1, 4);
    terminal.set_cursor(0, 2);
    terminal.put_char('中');
    terminal.set_cursor(0, 0);

    terminal.insert_char('a', 1);

    assert_eq!(row_text(&terminal, 0), "a   ");
    assert_eq!(terminal.grid[0][3], Cell::default());
    assert_eq!(terminal.cursor_col, 1);
    assert!(wide_chars_whole(&terminal));
}

#[test]
fn inserting_on_the_right_half_of_a_wide_char_keeps_its_left_half() {
    let mut terminal = Terminal::new(1, 4);
    terminal.put_char('中');
    terminal.set_cursor(0, 1);

    terminal.insert_char('a', 1);

    assert_eq!(terminal.grid[0][0].ch, '中');
    assert_eq!(terminal.grid[0][0].width, 2);
    assert_eq!(terminal.grid[0][1].ch, 'a');
    assert_eq!(terminal.grid[0][1].width, 1);
    assert_eq!(terminal.grid[0][2], Cell::default());
    assert!(!wide_chars_whole(&terminal));
}

#[test]
fn deleting_the_right_half_of_a_wide_char_deletes_all_of_it() {
    let mut terminal = Terminal::new(1, 4);
    terminal.put_char('中');
    terminal.put_char('a');
    terminal.set_cursor(0, 1);

    terminal.delete_chars(1);

    assert_eq!(row_text(&terminal, 0), "a   ");
    assert_eq!(terminal.grid[0][0].width, 1);
    assert!(wide_chars_whole(&terminal));
}

#[test]
fn screen_operations_keep_wide_chars_whole() {
    let mut terminal = Terminal::new(3, 5);
    for ch in ['中', '文', 'x', '表'] {
        terminal.put_char(ch);
        assert!(wide_chars_whole(&terminal));
    }
    terminal.set_cursor(0, 1);
    terminal.erase_chars(1);
    assert!(wide_chars_whole(&terminal));
    terminal.set_cursor(1, 3);
    terminal.put_char('都');
    assert!(wide_chars_whole(&terminal));
    terminal.set_cursor(1, 1);
    terminal.clear_line(ClearLineMode::ToCursor);
    assert!(wide_chars_whole(&terminal));
    terminal.scroll_up(1);
    terminal.line_feed();
    terminal.put_char('中');
    terminal.put_char('中');
    terminal.put_char('中');
    assert!(wide_chars_whole(&terminal));
}
