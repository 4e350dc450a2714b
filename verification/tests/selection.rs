use welly_rs::selection::{
    grid_index, normalize_selected_url_for_open, selected_text, selection_fits, terminal_screen_text,
    url_at_grid_point, GridPoint, Selection,
};
use welly_rs::terminal::Terminal;

fn put_ascii(terminal: &mut Terminal, row: usize, col: usize, text: &str) {
    terminal.set_cursor(row, col);
    for ch in text.chars() {
        terminal.put_char(ch);
    }
}

#[test]
fn selection_extracts_single_line_text() {
    let mut terminal = Terminal::new(2, 8);
    put_ascii(&mut terminal, 0, 0, "hello");

    let snap = terminal.snapshot();
    let text = selected_text(
        &snap,
        Selection {
            start: GridPoint { row: 0, col: 1 },
            end: GridPoint { row: 0, col: 3 },
        },
    );

    assert_eq!(text, "ell");
}

#[test]
fn selection_extracts_multiline_text_and_trims_right_spaces() {
    let mut terminal = Terminal::new(3, 8);
    put_ascii(&mut terminal, 0, 0, "ab  ");
    put_ascii(&mut terminal, 1, 0, "cd  ");

    let snap = terminal.snapshot();
    let text = selected_text(
        &snap,
        Selection {
            start: GridPoint { row: 0, col: 0 },
            end: GridPoint { row: 1, col: 3 },
        },
    );

    assert_eq!(text, "ab\ncd");
}

#[test]
fn selection_skips_double_width_continuation_cells() {
    let mut terminal = Terminal::new(1, 8);
    terminal.set_cursor(0, 0);
    terminal.put_char('中');
    terminal.put_char('A');

    let snap = terminal.snapshot();
    let text = selected_text(
        &snap,
        Selection {
            start: GridPoint { row: 0, col: 0 },
            end: GridPoint { row: 0, col: 2 },
        },
    );

    assert_eq!(text, "中A");
}

#[test]
fn url_at_grid_point_detects_http_url_on_same_line() {
    let mut terminal = Terminal::new(2, 40);
    put_ascii(&mut terminal, 0, 3, "see https://example.com/path now");

    let snap = terminal.snapshot();
    let url = url_at_grid_point(&snap, GridPoint { row: 0, col: 12 });

    assert_eq!(url.as_deref(), Some("https://example.com/path"));
}

#[test]
fn url_at_grid_point_trims_trailing_sentence_punctuation() {
    let mut terminal = Terminal::new(1, 40);
    put_ascii(&mut terminal, 0, 0, "https://example.com/test).");

    let snap = terminal.snapshot();
    let url = url_at_grid_point(&snap, GridPoint { row: 0, col: 5 });

    assert_eq!(url.as_deref(), Some("https://example.com/test"));
}

#[test]
fn url_at_grid_point_ignores_non_url_cells() {
    let mut terminal = Terminal::new(1, 40);
    put_ascii(&mut terminal, 0, 0, "plain https://example.com");

    let snap = terminal.snapshot();
    assert_eq!(url_at_grid_point(&snap, GridPoint { row: 0, col: 2 }), None);
}

#[test]
fn selected_url_without_scheme_gets_https_scheme() {
    assert_eq!(
        normalize_selected_url_for_open("www.example.com/path"),
        Some("https://www.example.com/path".to_owned())
    );
    assert_eq!(
        normalize_selected_url_for_open("example.com/path"),
        Some("https://example.com/path".to_owned())
    );
}

#[test]
fn selected_url_keeps_existing_http_scheme() {
    assert_eq!(
        normalize_selected_url_for_open("http://example.com"),
        Some("http://example.com".to_owned())
    );
    assert_eq!(
        normalize_selected_url_for_open("https://example.com"),
        Some("https://example.com".to_owned())
    );
}

#[test]
fn selected_url_rejects_plain_words_and_email_addresses() {
    assert_eq!(normalize_selected_url_for_open("example"), None);
    assert_eq!(normalize_selected_url_for_open("user@example.com"), None);
}

#[test]
fn selected_url_is_trimmed_and_loses_trailing_punctuation() {
    assert_eq!(
        normalize_selected_url_for_open("  https://example.com/a)。 "),
        Some("https://example.com/a".to_owned())
    );
    assert_eq!(normalize_selected_url_for_open("two words.com"), None);
    assert_eq!(normalize_selected_url_for_open("   "), None);
    assert_eq!(normalize_selected_url_for_open(".example.com"), None);
    assert_eq!(normalize_selected_url_for_open("-bad.example.com"), None);
    assert_eq!(normalize_selected_url_for_open("a..b"), None);
    assert_eq!(
        normalize_selected_url_for_open("sub-domain.example.org?q=1#x"),
        Some("https://sub-domain.example.org?q=1#x".to_owned())
    );
}

#[test]
fn reversed_selection_gives_the_same_text() {
    let mut terminal = Terminal::new(3, 8);
    put_ascii(&mut terminal, 0, 0, "abcdef");
    put_ascii(&mut terminal, 1, 0, "ghijkl");
    let snap = terminal.snapshot();

    let forward = Selection { start: GridPoint { row: 0, col: 2 }, end: GridPoint { row: 1, col: 1 } };
    let backward = Selection { start: forward.end, end: forward.start };

    assert_eq!(selected_text(&snap, forward), "cdef\ngh");
    assert_eq!(selected_text(&snap, backward), "cdef\ngh");
    assert_eq!(forward.normalized(), backward.normalized());
    assert_eq!(Selection::new(GridPoint { row: 2, col: 5 }).normalized(), (GridPoint { row: 2, col: 5 }, GridPoint { row: 2, col: 5 }));
    assert_eq!(grid_index(GridPoint { row: 2, col: 5 }), 165);
}

#[test]
fn screen_text_covers_every_row() {
    let mut terminal = Terminal::new(3, 4);
    put_ascii(&mut terminal, 0, 0, "ab");
    put_ascii(&mut terminal, 2, 1, "cd");
    let snap = terminal.snapshot();

    assert_eq!(terminal_screen_text(&snap), "ab\n\n cd");
}

#[test]
fn url_under_the_second_of_two_links_is_found() {
    let mut terminal = Terminal::new(1, 60);
    put_ascii(&mut terminal, 0, 0, "http://a.example/x, https://b.example/y!");
    let snap = terminal.snapshot();

    assert_eq!(
        url_at_grid_point(&snap, GridPoint { row: 0, col: 3 }).as_deref(),
        Some("http://a.example/x")
    );
    assert_eq!(
        url_at_grid_point(&snap, GridPoint { row: 0, col: 25 }).as_deref(),
        Some("https://b.example/y")
    );
    assert_eq!(url_at_grid_point(&snap, GridPoint { row: 0, col: 18 }), None);
    assert_eq!(url_at_grid_point(&snap, GridPoint { row: 1, col: 3 }), None);
}

#[test]
fn selection_fits_only_when_its_rows_exist() {
    let terminal = Terminal::new(2, 8);
    let snap = terminal.snapshot();
    let inside = Selection {
        start: GridPoint { row: 1, col: 7 },
        end: GridPoint { row: 0, col: 0 },
    };
    let below = Selection {
        start: GridPoint { row: 0, col: 0 },
        end: GridPoint { row: 2, col: 0 },
    };
    let past_the_right_edge = Selection {
        start: GridPoint { row: 1, col: 3 },
        end: GridPoint { row: 1, col: 50 },
    };
    let unorderable = Selection {
        start: GridPoint { row: usize::MAX, col: 0 },
        end: GridPoint { row: 0, col: 0 },
    };

    assert!(selection_fits(&snap, inside));
    assert!(!selection_fits(&snap, below));
    assert!(selection_fits(&snap, past_the_right_edge));
    assert!(!selection_fits(&snap, unorderable));
}
