use mdiff::pager::build_file_header_lines;
use mdiff::pager::clip_ansi_text;
use mdiff::pager::clip_ansi_text_from;
use mdiff::pager::encode_base64;
use mdiff::pager::extract_column_range;
use mdiff::pager::filter_file_names;
use mdiff::pager::find_matches;
use mdiff::pager::render_centered_overlay_lines;
use mdiff::pager::render_highlighted_line;
use mdiff::pager::render_search_hud;
use mdiff::pager::should_page_output;
use mdiff::pager::strip_ansi_text;
use mdiff::pager::KeyCode;
use mdiff::pager::KeyModifiers;
use mdiff::pager::PagerState;
use mdiff::pager::SearchMatch;
use mdiff::pager::SearchMode;
use mdiff::render::PaneLayout;
use mdiff::render::TintPalette;
use mdiff::terminal_palette::AnsiColor;

fn test_render(s: String) -> (String, PaneLayout) {
    (s, PaneLayout::default())
}

#[test]
fn clip_ansi_text_preserves_escape_sequences() {
    let text = "\u{1b}[1mheader\u{1b}[0m";
    let clipped = clip_ansi_text(text, 3);
    assert!(clipped.contains("\u{1b}[1m"));
    assert!(clipped.contains("\u{1b}[0m"));
}

#[test]
fn clipped_overflow_uses_right_marker() {
    assert_eq!(clip_ansi_text_from("abcdefgh", 0, 4), "abc»");
    assert_eq!(clip_ansi_text_from("abcdefgh", 4, 4), "efgh");
}

#[test]
fn force_pager_overrides_screen_fit() {
    assert!(should_page_output(true, true, 5, 20));
}

#[test]
fn fitting_output_skips_pager_without_override() {
    assert!(!should_page_output(true, false, 5, 20));
}

#[test]
fn non_tty_output_never_pages() {
    assert!(!should_page_output(false, true, 50, 20));
}

#[test]
fn strip_ansi_text_removes_escape_sequences() {
    assert_eq!(strip_ansi_text("\u{1b}[1mheader\u{1b}[0m"), "header");
}

#[test]
fn pager_page_movement_is_page_sized() {
    let mut state = PagerState::new(
        |_, _, _| test_render("1\n2\n3\n4\n5\n6\n7\n8\n9\n10".into()),
        80,
        3,
        "1\n2\n3\n4\n5\n6\n7\n8\n9\n10".into(),
        PaneLayout::default(),
        Vec::new(),
        TintPalette::default(),
        None,
    );
    state.page_down();
    assert_eq!(state.offset, 3);
    state.page_up();
    assert_eq!(state.offset, 0);
}

#[test]
fn pager_scroll_is_line_sized() {
    let mut state = PagerState::new(
        |_, _, _| test_render("1\n2\n3\n4\n5".into()),
        80,
        2,
        "1\n2\n3\n4\n5".into(),
        PaneLayout::default(),
        Vec::new(),
        TintPalette::default(),
        None,
    );
    state.scroll_down(3);
    assert_eq!(state.offset, 3);
    state.scroll_up(2);
    assert_eq!(state.offset, 1);
}

#[test]
fn rerenders_when_width_changes() {
    let mut state = PagerState::new(
        |width, _, _| test_render(format!("width={width}")),
        80,
        10,
        "width=80".into(),
        PaneLayout::default(),
        Vec::new(),
        TintPalette::default(),
        None,
    );
    assert_eq!(state.line_at(0), Some("width=80"));

    state.set_dimensions(100, 10);

    assert_eq!(state.line_at(0), Some("width=100"));
}

#[test]
fn horizontal_scroll_is_clamped_to_widest_displayed_line() {
    let line = "this is a very long line";
    let mut state = PagerState::new(
        |_, _, _| test_render(format!("short\n{line}")),
        10,
        4,
        format!("short\n{line}"),
        PaneLayout::default(),
        Vec::new(),
        TintPalette::default(),
        None,
    );

    state.scroll_right();
    state.scroll_right();
    state.scroll_right();

    assert_eq!(state.horizontal_offset, line.len() - 10);

    state.set_dimensions(20, 4);

    assert_eq!(state.horizontal_offset, line.len() - 20);
}

#[test]
fn finds_matches_in_all_plain_text() {
    let matches = find_matches(
        &[
            "alpha beta".to_owned(),
            "gamma alpha".to_owned(),
            "delta".to_owned(),
        ],
        "alpha",
    );
    assert_eq!(matches.len(), 2);
    assert_eq!(matches[0].line, 0);
    assert_eq!(matches[1].line, 1);
}

#[test]
fn search_matches_rendered_text_without_ansi() {
    let mut state = PagerState::new(
        |_, _, _| test_render("\u{1b}[1malpha\u{1b}[0m\nbeta".into()),
        80,
        4,
        "\u{1b}[1malpha\u{1b}[0m\nbeta".into(),
        PaneLayout::default(),
        Vec::new(),
        TintPalette::default(),
        None,
    );

    assert!(state.handle_hud_key(KeyCode::Char('/'), KeyModifiers::Plain));
    assert!(state.handle_hud_key(KeyCode::Char('a'), KeyModifiers::Plain));
    assert!(state.handle_hud_key(KeyCode::Char('l'), KeyModifiers::Plain));
    assert!(state.handle_hud_key(KeyCode::Enter, KeyModifiers::Plain));

    match &state.search {
        SearchMode::Active { matches, .. } => assert_eq!(matches.len(), 1),
        SearchMode::Inactive | SearchMode::Prompt { .. } => panic!("search not active"),
    }
}

#[test]
fn highlight_reuses_search_background() {
    let rendered = render_highlighted_line(
        "\u{1b}[1malpha\u{1b}[0m",
        0,
        80,
        &[SearchMatch {
            line: 0,
            start: 0,
            end: 5,
        }],
        Some(AnsiColor::Indexed(240)),
        None,
        0,
    );
    assert!(rendered.contains("\u{1b}[1;48;5;240m"));
}

#[test]
fn tinted_lines_fill_to_edge_without_forcing_overflow_marker() {
    let rendered =
        render_highlighted_line("\u{1b}[48;5;240mabc\u{1b}[0m", 0, 6, &[], None, None, 0);
    assert!(rendered.contains("\u{1b}[48;5;240mabc"));
    assert!(rendered.contains("   \u{1b}[0m"));
    assert!(!rendered.contains('»'));
}

#[test]
fn gutter_only_background_does_not_fill_to_edge() {
    let rendered =
        render_highlighted_line("  12 \u{1b}[48;5;238m \u{1b}[0m", 0, 10, &[], None, None, 6);
    assert_eq!(rendered.matches("\u{1b}[48;5;238m").count(), 1);
    assert!(!rendered.contains("\u{1b}[48;5;238m    "));
}

#[test]
fn active_search_reserves_bottom_row_for_hud() {
    let mut state = PagerState::new(
        |_, _, _| test_render("a\nb\nc\nd".into()),
        80,
        4,
        "a\nb\nc\nd".into(),
        PaneLayout::default(),
        Vec::new(),
        TintPalette::default(),
        None,
    );
    assert!(state.handle_hud_key(KeyCode::Char('/'), KeyModifiers::Plain));
    assert!(state.handle_hud_key(KeyCode::Char('b'), KeyModifiers::Plain));
    assert!(state.handle_hud_key(KeyCode::Enter, KeyModifiers::Plain));
    assert_eq!(state.viewport_height(), 3);
    assert_eq!(state.hud_lines().len(), 1);
}

#[test]
fn search_navigation_stops_at_edges_and_reports_boundary() {
    let mut state = PagerState::new(
        |_, _, _| test_render("alpha\nbeta alpha\ngamma alpha".into()),
        80,
        3,
        "alpha\nbeta alpha\ngamma alpha".into(),
        PaneLayout::default(),
        Vec::new(),
        TintPalette::default(),
        None,
    );
    assert!(state.handle_hud_key(KeyCode::Char('/'), KeyModifiers::Plain));
    assert!(state.handle_hud_key(KeyCode::Char('a'), KeyModifiers::Plain));
    assert!(state.handle_hud_key(KeyCode::Char('l'), KeyModifiers::Plain));
    assert!(state.handle_hud_key(KeyCode::Char('p'), KeyModifiers::Plain));
    assert!(state.handle_hud_key(KeyCode::Char('h'), KeyModifiers::Plain));
    assert!(state.handle_hud_key(KeyCode::Char('a'), KeyModifiers::Plain));
    assert!(state.handle_hud_key(KeyCode::Enter, KeyModifiers::Plain));

    state.next_match();
    state.next_match();
    assert!(state.handle_hud_key(KeyCode::Char('n'), KeyModifiers::Plain));

    match &state.search {
        SearchMode::Active { current, .. } => assert_eq!(*current, 2),
        SearchMode::Inactive | SearchMode::Prompt { .. } => panic!("search not active"),
    }
    assert!(state.hud_lines().join("\n").contains("end of file"));

    assert!(state.handle_hud_key(KeyCode::Char('N'), KeyModifiers::Plain));
    assert!(state.handle_hud_key(KeyCode::Char('N'), KeyModifiers::Plain));
    assert!(state.handle_hud_key(KeyCode::Char('N'), KeyModifiers::Plain));

    match &state.search {
        SearchMode::Active { current, .. } => assert_eq!(*current, 0),
        SearchMode::Inactive | SearchMode::Prompt { .. } => panic!("search not active"),
    }
    assert!(state.hud_lines().join("\n").contains("beginning of file"));
}

#[test]
fn hud_is_full_width_and_uses_background() {
    let hud = render_search_hud("alpha", 12, Some(AnsiColor::Indexed(240)), Some("1/3"));
    assert!(hud.contains("\u{1b}[48;5;240m"));
    assert!(hud.contains("/alpha"));
    assert!(hud.contains("1/3"));
}

#[test]
fn file_filter_narrows_files_and_rerenders_output() {
    let files = vec!["a.go".into(), "b.rs".into(), "c.go".into()];
    let mut state = PagerState::new(
        |_, filter, _| {
            if filter.is_empty() {
                test_render("a.go\nbody\nb.rs\nbody\nc.go\nbody".into())
            } else {
                test_render(format!("{filter}\nfiltered"))
            }
        },
        80,
        10,
        "a.go\nbody\nb.rs\nbody\nc.go\nbody".into(),
        PaneLayout::default(),
        files,
        TintPalette::default(),
        None,
    );

    assert!(state.handle_hud_key(KeyCode::Char('f'), KeyModifiers::Control));
    assert!(state.handle_hud_key(KeyCode::Char('.'), KeyModifiers::Plain));
    assert!(state.handle_hud_key(KeyCode::Char('g'), KeyModifiers::Plain));
    assert!(state.handle_hud_key(KeyCode::Char('o'), KeyModifiers::Plain));

    assert_eq!(state.file_filter_query, ".go");
    assert_eq!(
        state.visible_files,
        vec!["a.go".to_owned(), "c.go".to_owned()]
    );
    assert_eq!(state.line_at(0), Some(".go"));
}

#[test]
fn file_filter_hud_bolds_current_top_file() {
    let files = vec!["file1".into(), "file2".into()];
    let initial = "\u{1b}[1mfile1\u{1b}[0m\nx\n\u{1b}[1mfile2\u{1b}[0m\ny".to_owned();
    let rendered = initial.clone();
    let mut state = PagerState::new(
        |_, _, _| test_render(rendered.clone()),
        80,
        6,
        initial,
        PaneLayout::default(),
        files,
        TintPalette::default(),
        None,
    );
    assert!(state.handle_hud_key(KeyCode::Char('f'), KeyModifiers::Control));
    state.navigate_next_file();

    let hud = state.hud_lines().join("\n");
    assert!(hud.contains("\u{1b}[1m") || hud.contains("\u{1b}[1;48"));
    assert!(hud.contains("file2"));
}

#[test]
fn file_filter_navigation_uses_up_and_down() {
    let files = vec!["file1".into(), "file2".into()];
    let initial = "file1\nx\nfile2\ny".to_owned();
    let rendered = initial.clone();
    let mut state = PagerState::new(
        |_, _, _| test_render(rendered.clone()),
        80,
        6,
        initial,
        PaneLayout::default(),
        files,
        TintPalette::default(),
        None,
    );
    assert!(state.handle_hud_key(KeyCode::Char('f'), KeyModifiers::Control));
    assert!(state.handle_hud_key(KeyCode::Down, KeyModifiers::Plain));
    assert_eq!(state.current_top_file_name().as_deref(), Some("file2"));
    assert!(state.handle_hud_key(KeyCode::Up, KeyModifiers::Plain));
    assert_eq!(state.current_top_file_name().as_deref(), Some("file1"));
}

#[test]
fn applying_new_palette_rerenders_output() {
    let mut state = PagerState::new(
        |_, _, palette| test_render(format!("{:?}", palette.changed_line_bg)),
        80,
        4,
        "None".into(),
        PaneLayout::default(),
        Vec::new(),
        TintPalette::default(),
        None,
    );

    state.apply_palette(
        TintPalette {
            changed_line_bg: Some(AnsiColor::Indexed(240)),
            gutter_fg: Some(AnsiColor::Indexed(238)),
        },
        None,
    );

    assert_eq!(state.line_at(0), Some("Some(Indexed(240))"));
}

#[test]
fn file_name_filter_matches_by_substring() {
    let filtered =
        filter_file_names(&["foo.go".into(), "bar.rs".into(), "baz.go".into()], ".go");
    assert_eq!(filtered, vec!["foo.go".to_owned(), "baz.go".to_owned()]);
}

#[test]
fn file_headers_are_discovered_in_rendered_output() {
    let headers = build_file_header_lines(
        &[
            "file1".to_owned(),
            "  body".to_owned(),
            "file2".to_owned(),
            "  body".to_owned(),
        ],
        &["file1".into(), "file2".into()],
    );
    assert_eq!(headers[0].line, 0);
    assert_eq!(headers[1].line, 2);
}

#[test]
fn question_mark_toggles_help_overlay() {
    let mut state = PagerState::new(
        |_, _, _| test_render("file1\nbody".into()),
        80,
        10,
        "file1\nbody".into(),
        PaneLayout::default(),
        Vec::new(),
        TintPalette::default(),
        None,
    );
    assert!(state.handle_hud_key(KeyCode::Char('?'), KeyModifiers::Plain));
    assert!(state.help_open);
    assert!(state.hud_cursor_position().is_none());
    assert!(state.handle_hud_key(KeyCode::Esc, KeyModifiers::Plain));
    assert!(!state.help_open);
}

#[test]
fn help_overlay_uses_hud_tint_and_centers_content() {
    let overlay =
        render_centered_overlay_lines(40, 20, Some(AnsiColor::Indexed(240)), &["mdiff help"]);
    assert_eq!(overlay.len(), 1);
    assert!(overlay[0].0 > 0);
    assert!(overlay[0].1 > 0);
    assert!(
        overlay[0].2.contains("\u{1b}[48;5;240m")
            || overlay[0].2.contains("\u{1b}[1;48;5;240m")
    );
}

#[test]
fn extract_column_range_selects_by_display_width() {
    assert_eq!(extract_column_range("abcdefgh", 2, 5), "cde");
    assert_eq!(extract_column_range("abcdefgh", 0, 3), "abc");
    assert_eq!(extract_column_range("abcdefgh", 6, 100), "gh");
    assert_eq!(extract_column_range("abcdefgh", 0, 100), "abcdefgh");
}

#[test]
fn encode_base64_matches_known_values() {
    assert_eq!(encode_base64(b"hello"), "aGVsbG8=");
    assert_eq!(encode_base64(b"ab"), "YWI=");
    assert_eq!(encode_base64(b"abc"), "YWJj");
    assert_eq!(encode_base64(b""), "");
}
