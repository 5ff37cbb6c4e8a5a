use mdiff::pager::ansi::parse_styled_cells;
use mdiff::pager::ansi::style_prefix;
use mdiff::pager::ansi::TextStyle;
use mdiff::pager::clip_ansi_text_from;
use mdiff::pager::columns::plain_offset_to_column;
use mdiff::pager::encode_base64;
use mdiff::pager::extract_column_range;
use mdiff::pager::find_matches;
use mdiff::pager::hud::help_lines;
use mdiff::pager::hud::render_hud_row;
use mdiff::pager::osc52_sequence;
use mdiff::pager::render_centered_overlay_lines;
use mdiff::pager::render_highlighted_line;
use mdiff::pager::render_search_hud;
use mdiff::pager::screen::line_count;
use mdiff::pager::strip_ansi_text;
use mdiff::pager::view::SelectionPane;
use mdiff::pager::KeyCode;
use mdiff::pager::KeyModifiers;
use mdiff::pager::PagerAction;
use mdiff::pager::PagerEvent;
use mdiff::pager::PagerState;
use mdiff::pager::SearchMatch;
use mdiff::pager::SearchMode;
use mdiff::render::PaneLayout;
use mdiff::render::TintPalette;
use mdiff::terminal_palette::AnsiColor;

fn pager(
    text: &str,
    width: usize,
    height: usize,
    files: &[&str],
) -> PagerState<impl Fn(usize, &str, &TintPalette) -> (String, PaneLayout)> {
    let made = text.to_owned();
    PagerState::new(
        move |_: usize, _: &str, _: &TintPalette| (made.clone(), PaneLayout::default()),
        width,
        height,
        text.to_owned(),
        PaneLayout::default(),
        files.iter().map(|file| file.to_string()).collect(),
        TintPalette::default(),
        Some(AnsiColor::Indexed(240)),
    )
}

fn key(code: KeyCode) -> PagerEvent {
    PagerEvent::Key {
        code,
        modifiers: KeyModifiers::Plain,
    }
}

fn numbered(count: usize) -> String {
    let lines: Vec<String> = (0..count).map(|i| format!("line {i}")).collect();
    lines.join("\n")
}

#[test]
fn escapes_set_and_reset_styles() {
    let style = |text: &str| parse_styled_cells(text).last().map(|cell| cell.style);
    let plain = TextStyle::default();
    assert_eq!(style("a"), Some(plain));
    assert_eq!(style("\u{1b}[1ma"), Some(TextStyle { bold: true, ..plain }));
    assert_eq!(
        style("\u{1b}[1;2;3ma"),
        Some(TextStyle {
            bold: true,
            dim: true,
            italic: true,
            background: None
        })
    );
    assert_eq!(
        style("\u{1b}[1;3m\u{1b}[22ma"),
        Some(TextStyle { italic: true, ..plain })
    );
    assert_eq!(style("\u{1b}[1;3m\u{1b}[23;22ma"), Some(plain));
    assert_eq!(style("\u{1b}[1m\u{1b}[ma"), Some(plain));
    assert_eq!(
        style("\u{1b}[48;2;1;2;3ma"),
        Some(TextStyle {
            background: Some(AnsiColor::Rgb(1, 2, 3)),
            ..plain
        })
    );
    assert_eq!(style("\u{1b}[48;5;7m\u{1b}[49ma"), Some(plain));
    // a color that cannot be read is passed over with its parts
    assert_eq!(
        style("\u{1b}[48;5;300;1ma"),
        Some(TextStyle { bold: true, ..plain })
    );
    assert_eq!(style("\u{1b}[x;1ma"), Some(TextStyle { bold: true, ..plain }));
}

#[test]
fn cells_know_their_bytes() {
    let cells = parse_styled_cells("é\u{1b}[1m宽");
    assert_eq!((cells[0].start, cells[0].end), (0, 2));
    assert_eq!((cells[1].start, cells[1].end), (2, 5));
    assert_eq!(cells.len(), 2);
    // an escape that never ends takes the rest
    assert!(parse_styled_cells("\u{1b}[1").is_empty());
    assert_eq!(strip_ansi_text("a\u{1b}[1"), "a");
    assert_eq!(strip_ansi_text("a\u{1b}b"), "ab");
}

#[test]
fn styles_are_written_in_order() {
    let style = TextStyle {
        bold: true,
        dim: true,
        italic: true,
        background: Some(AnsiColor::Rgb(1, 2, 3)),
    };
    assert_eq!(
        style_prefix(style),
        Some("\u{1b}[1;2;3;48;2;1;2;3m".to_owned())
    );
    assert_eq!(style_prefix(TextStyle::default()), None);
    assert_eq!(parse_styled_cells(&format!("{}x", style_prefix(style).unwrap()))[0].style, style);
}

#[test]
fn painted_lines_are_exact() {
    assert_eq!(
        clip_ansi_text_from("\u{1b}[1mab\u{1b}[0mcd", 1, 2),
        "\u{1b}[0m\u{1b}[1mb\u{1b}[0m»"
    );
    assert_eq!(
        render_highlighted_line("\u{1b}[48;5;7mab\u{1b}[0m", 0, 4, &[], None, None, 0),
        "\u{1b}[0m\u{1b}[48;5;7mab\u{1b}[0m\u{1b}[48;5;7m  \u{1b}[0m"
    );
    assert_eq!(clip_ansi_text_from("abc", 0, 0), "");
    assert_eq!(clip_ansi_text_from("", 3, 4), "");
    assert_eq!(clip_ansi_text_from("宽宽", 0, 3), "宽»");
}

#[test]
fn matches_and_selection_are_highlighted() {
    let found = [SearchMatch {
        line: 0,
        start: 1,
        end: 2,
    }];
    assert_eq!(
        render_highlighted_line("abc", 0, 9, &found, Some(AnsiColor::Indexed(5)), None, 0),
        "a\u{1b}[0m\u{1b}[48;5;5mb\u{1b}[0mc"
    );
    assert_eq!(
        render_highlighted_line("abc", 0, 9, &[], Some(AnsiColor::Indexed(5)), Some((1, 9)), 0),
        "a\u{1b}[0m\u{1b}[48;5;5mbc\u{1b}[0m"
    );
    assert_eq!(
        render_highlighted_line("abc", 0, 9, &found, None, Some((1, 9)), 0),
        "abc"
    );
}

#[test]
fn searching_finds_overlapping_and_wide_matches() {
    let starts = |line: &str, query: &str| -> Vec<(usize, usize)> {
        find_matches(&[line.to_owned()], query)
            .iter()
            .map(|found| (found.start, found.end))
            .collect()
    };
    assert_eq!(starts("aaa", "aa"), vec![(0, 2), (1, 3)]);
    assert_eq!(starts("éxé", "é"), vec![(0, 2), (3, 5)]);
    assert_eq!(starts("ab", "abc"), vec![]);
    assert_eq!(starts("ab", ""), vec![]);
}

#[test]
fn columns_of_bytes_and_ranges() {
    assert_eq!(plain_offset_to_column("a宽b", 4), 3);
    assert_eq!(plain_offset_to_column("a宽b", 3), 1);
    assert_eq!(plain_offset_to_column("ab", 99), 2);
    assert_eq!(extract_column_range("a宽b", 1, 3), "宽");
    assert_eq!(extract_column_range("a宽b", 2, 4), "b");
    assert_eq!(extract_column_range("abc", 0, 0), "");
    assert_eq!(extract_column_range("abc", 1, usize::MAX), "bc");
}

#[test]
fn base64_of_other_lengths() {
    assert_eq!(encode_base64(b"a"), "YQ==");
    assert_eq!(encode_base64(&[255, 254, 253, 252]), "//79/A==");
    assert_eq!(encode_base64(b"Man"), "TWFu");
    assert_eq!(osc52_sequence("hello"), "\u{1b}]52;c;aGVsbG8=\u{7}");
}

#[test]
fn hud_rows_fill_the_width() {
    assert_eq!(render_hud_row("ab", 4, None, false), "ab  ");
    assert_eq!(render_hud_row("abcdef", 4, None, true), "\u{1b}[1mabcd\u{1b}[0m");
    assert_eq!(render_search_hud("alpha", 12, None, Some("1/3")), "/alpha   1/3");
    assert_eq!(render_search_hud("alphabet", 8, None, Some("1/3")), "/alp 1/3");
    assert_eq!(render_search_hud("alpha", 2, None, Some("1/3")), "1/");
    assert_eq!(render_search_hud("alpha", 8, None, None), "/alpha  ");
}

#[test]
fn overlay_is_clipped_to_the_screen() {
    let lines = ["head", "second"];
    let overlay = render_centered_overlay_lines(20, 9, None, &lines);
    assert_eq!(
        overlay,
        vec![
            (5, 3, "\u{1b}[1m  head    \u{1b}[0m".to_owned()),
            (5, 4, "  second  ".to_owned()),
        ]
    );
    assert_eq!(render_centered_overlay_lines(20, 1, None, &lines).len(), 1);
    assert_eq!(
        render_centered_overlay_lines(6, 9, None, &lines)[1],
        (0, 4, "  se  ".to_owned())
    );
    assert!(render_centered_overlay_lines(0, 9, None, &lines).is_empty());
    assert!(render_centered_overlay_lines(9, 9, None, &[]).is_empty());
    assert_eq!(help_lines().len(), 28);
}

#[test]
fn paging_stops_at_the_ends() {
    let mut state = pager(&numbered(10), 80, 4, &[]);
    for expected in [4, 6, 6] {
        assert_eq!(state.handle_event(key(KeyCode::Char(' '))), PagerAction::Continue);
        assert_eq!(state.offset, expected);
    }
    state.handle_event(key(KeyCode::Up));
    assert_eq!(state.offset, 2);
    state.handle_event(key(KeyCode::Home));
    assert_eq!(state.offset, 0);
    state.handle_event(key(KeyCode::Char('G')));
    assert_eq!(state.offset, 6);
    assert_eq!(state.line_at(3), Some("line 9"));
    assert_eq!(state.line_at(4), None);
    state.handle_event(PagerEvent::ScrollUp);
    assert_eq!(state.offset, 3);
    state.handle_event(PagerEvent::ScrollDown);
    assert_eq!(state.offset, 6);
}

#[test]
fn quitting_keys() {
    let mut state = pager("a", 80, 4, &[]);
    assert_eq!(state.handle_event(key(KeyCode::Char('q'))), PagerAction::Quit);
    assert_eq!(state.handle_event(key(KeyCode::Esc)), PagerAction::Quit);
    state.handle_event(key(KeyCode::Char('/')));
    assert_eq!(state.handle_event(key(KeyCode::Char('q'))), PagerAction::Continue);
    assert_eq!(state.search, SearchMode::Prompt { query: "q".into() });
    assert_eq!(state.handle_event(key(KeyCode::Esc)), PagerAction::Continue);
    assert_eq!(state.search, SearchMode::Inactive);
    assert_eq!(state.handle_event(key(KeyCode::Other)), PagerAction::Continue);
    assert_eq!(state.handle_event(PagerEvent::Other), PagerAction::Continue);
}

#[test]
fn selecting_copies_text() {
    let mut state = pager("abc  \ndef\n   \nx", 80, 4, &[]);
    state.handle_event(PagerEvent::Press { row: 0, column: 1 });
    assert_eq!(
        state.selection.map(|selection| selection.pane),
        Some(SelectionPane::Full)
    );
    state.handle_event(PagerEvent::Drag { row: 1 });
    assert_eq!(
        state.handle_event(PagerEvent::Release { row: 2 }),
        PagerAction::Copy("abc\ndef".to_owned())
    );
    assert_eq!(state.selection, None);
    assert_eq!(
        state.handle_event(PagerEvent::Release { row: 2 }),
        PagerAction::Continue
    );
}

#[test]
fn panes_are_selected_apart() {
    let mut state = pager("left  12  right\nmore  13  text", 80, 4, &[]);
    state.pane_layout = PaneLayout {
        left_end: 4,
        right_start: 10,
        content_start: 0,
    };
    assert_eq!(state.pane_at_column(3), SelectionPane::Left);
    assert_eq!(state.pane_at_column(7), SelectionPane::Left);
    assert_eq!(state.pane_at_column(10), SelectionPane::Right);
    state.handle_event(PagerEvent::Press { row: 0, column: 11 });
    assert_eq!(
        state.handle_event(PagerEvent::Release { row: 1 }),
        PagerAction::Copy("right\ntext".to_owned())
    );
    state.handle_event(PagerEvent::Press { row: 1, column: 0 });
    assert_eq!(
        state.handle_event(PagerEvent::Release { row: 0 }),
        PagerAction::Copy("left\nmore".to_owned())
    );
}

#[test]
fn searches_move_to_their_matches() {
    let mut state = pager(&numbered(30), 80, 5, &[]);
    for code in ['/', '2', '5'] {
        state.handle_event(key(KeyCode::Char(code)));
    }
    state.handle_event(key(KeyCode::Enter));
    assert_eq!(state.offset, 23);
    assert_eq!(state.hud_lines().len(), 1);
    assert!(state.hud_lines()[0].contains("1/1"));
    state.handle_event(key(KeyCode::Char('n')));
    assert_eq!(state.search_message, Some("end of file"));
    state.handle_event(key(KeyCode::Char('N')));
    assert_eq!(state.search_message, Some("beginning of file"));
    state.handle_event(key(KeyCode::Char('/')));
    assert_eq!(state.search, SearchMode::Prompt { query: "25".into() });
    assert_eq!(state.search_query().as_deref(), Some("25"));
    state.handle_event(key(KeyCode::Backspace));
    assert_eq!(state.search, SearchMode::Prompt { query: "2".into() });
    for _ in 0..2 {
        state.handle_event(key(KeyCode::Backspace));
    }
    state.handle_event(key(KeyCode::Enter));
    assert_eq!(state.search, SearchMode::Inactive);
    assert_eq!(state.search_query(), None);
}

#[test]
fn searches_without_matches_say_so() {
    let mut state = pager("abc", 80, 5, &[]);
    for code in ['/', 'z'] {
        state.handle_event(key(KeyCode::Char(code)));
    }
    state.handle_event(key(KeyCode::Enter));
    assert!(state.hud_lines()[0].contains("0/0"));
    state.handle_event(key(KeyCode::Char('n')));
    assert_eq!(state.search_message, None);
}

#[test]
fn searches_scroll_sideways_to_their_matches() {
    let mut state = pager("0123456789needle", 8, 4, &[]);
    for code in ['/', 'n', 'e', 'e'] {
        state.handle_event(key(KeyCode::Char(code)));
    }
    state.handle_event(key(KeyCode::Enter));
    assert_eq!(state.horizontal_offset, 3);
    state.handle_event(key(KeyCode::Left));
    assert_eq!(state.horizontal_offset, 0);
    state.handle_event(key(KeyCode::Right));
    assert_eq!(state.horizontal_offset, 8);
}

#[test]
fn file_filter_jumps_and_narrows() {
    let text = "a.go\n1\n2\nb.rs\n3\nc.go\n4";
    let mut state = pager(text, 20, 5, &["a.go", "b.rs", "c.go"]);
    state.handle_event(PagerEvent::Key {
        code: KeyCode::Char('f'),
        modifiers: KeyModifiers::Control,
    });
    assert!(state.file_filter_open);
    assert_eq!(state.viewport_height(), 1);
    assert_eq!(state.hud_lines().len(), 4);
    state.handle_event(key(KeyCode::End));
    assert_eq!(state.offset, 5);
    state.handle_event(key(KeyCode::Up));
    assert_eq!(state.current_top_file_name().as_deref(), Some("b.rs"));
    state.handle_event(key(KeyCode::Home));
    assert_eq!(state.offset, 0);
    state.handle_event(key(KeyCode::Up));
    assert_eq!(state.offset, 0);
    state.handle_event(key(KeyCode::Char('.')));
    state.handle_event(key(KeyCode::Char('r')));
    assert_eq!(state.visible_files, vec!["b.rs".to_owned()]);
    assert_eq!(state.hud_cursor_position(), Some((4, 4)));
    state.handle_event(key(KeyCode::Backspace));
    assert_eq!(state.visible_files.len(), 3);
    state.handle_event(key(KeyCode::Enter));
    assert!(!state.file_filter_open);
    assert_eq!(state.hud_cursor_position(), None);
}

#[test]
fn frames_hold_the_whole_screen() {
    let mut state = pager("one\ntwo", 20, 5, &["f"]);
    let frame = state.frame();
    assert_eq!(frame.rows.len(), 5);
    assert_eq!(frame.rows[1].as_deref(), Some("two"));
    assert_eq!(frame.rows[2], None);
    assert!(frame.hud.is_empty() && frame.overlay.is_empty());
    assert_eq!(frame.cursor, None);
    state.handle_event(key(KeyCode::Char('/')));
    let frame = state.frame();
    assert_eq!((frame.rows.len(), frame.hud.len()), (4, 1));
    assert_eq!(frame.cursor, Some((1, 4)));
    state.handle_event(key(KeyCode::Char('?')));
    state.handle_event(key(KeyCode::Esc));
    state.handle_event(key(KeyCode::Esc));
    state.handle_event(key(KeyCode::Char('?')));
    let frame = state.frame();
    assert_eq!(frame.overlay.len(), 5);
    assert_eq!(frame.overlay[0].1, 0);
    assert_eq!(frame.cursor, None);
    assert_eq!(state.handle_event(PagerEvent::ScrollDown), PagerAction::Continue);
    assert_eq!(state.offset, 0);
}

#[test]
fn focus_with_the_same_colors_changes_nothing() {
    let mut state = pager("one\ntwo\nthree", 20, 2, &[]);
    state.offset = 1;
    state.handle_event(PagerEvent::Focus {
        palette: TintPalette::default(),
        search_bg: Some(AnsiColor::Indexed(240)),
    });
    assert_eq!(state.offset, 1);
    state.handle_event(PagerEvent::Focus {
        palette: TintPalette::default(),
        search_bg: None,
    });
    assert_eq!(state.offset, 0);
    assert_eq!(state.search_bg, None);
}

#[test]
fn rendering_anew_keeps_the_file() {
    let mut state = pager("a\n1\nb\n2\nc\n3", 20, 2, &["a", "b", "c"]);
    state.offset = 3;
    state.set_dimensions(30, 2);
    assert_eq!(state.offset, 2);
    state.set_dimensions(30, 6);
    assert_eq!(state.offset, 0);
    state.show_output("x\ny\nz".to_owned(), PaneLayout::default(), None);
    assert_eq!(state.lines, vec!["x", "y", "z"]);
    assert!(state.file_headers.is_empty());
    assert_eq!(line_count("x\ny\nz\n"), 3);
}

#[test]
fn help_is_not_shown_without_a_screen() {
    for (width, height) in [(0, 9), (20, 0), (0, 0)] {
        let mut state = pager("one", width, height, &[]);
        state.handle_event(key(KeyCode::Char('?')));
        assert!(state.help_open);
        assert!(state.frame().overlay.is_empty());
    }
}

#[test]
fn lines_without_styles_are_cut_to_the_screen() {
    assert_eq!(clip_ansi_text_from("abcdefgh", 1, 4), "bcd»");
    assert_eq!(clip_ansi_text_from("abcdefgh", 5, 4), "fgh");
    assert_eq!(clip_ansi_text_from("a宽bcd", 2, 3), "宽»");
}
