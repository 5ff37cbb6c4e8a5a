use mdiff::render::display_width;
use mdiff::render::document_fits;
use mdiff::render::expand_tabs;
use mdiff::render::format_right_line_number;
use mdiff::render::gap_states_fit;
use mdiff::render::layout::THRESHOLD_WIDTH;
use mdiff::render::pane_layout;
use mdiff::render::render_compact_elision_row;
use mdiff::render::render_document;
use mdiff::render::render_document_with_state;
use mdiff::render::render_inline_document;
use mdiff::render::render_inline_document_with_state;
use mdiff::render::render_inline_inserted_line;
use mdiff::render::render_styled_cell;
use mdiff::render::should_render_side_by_side;
use mdiff::render::GapId;
use mdiff::render::GapState;
use mdiff::render::GapStates;
use mdiff::render::Layout;
use mdiff::render::PaneLayout;
use mdiff::render::RenderMode;
use mdiff::render::StyledLine;
use mdiff::render::TintPalette;
use mdiff::terminal_palette::AnsiColor;
use mdiff::unified_diff::Document;
use mdiff::unified_diff::Hunk;
use mdiff::unified_diff::Item;
use mdiff::unified_diff::Row;

#[test]
fn expands_tabs_from_column_zero() {
    assert_eq!(expand_tabs("\tX"), "        X");
}

#[test]
fn display_width_matches_ascii_length() {
    assert_eq!(display_width("abcdef"), 6);
}

#[test]
fn renders_changed_rows_with_background_escape() {
    let document = Document::from_items(vec![
        Item::FileHeader("demo.txt".into()),
        Item::Hunk(Hunk {
            header: String::new(),
            old_start: 3,
            new_start: 3,
            new_len: 1,
            rows: vec![Row::Change {
                old: "cat".into(),
                new: "cot".into(),
            }],
        }),
    ]);
    let palette = TintPalette {
        changed_line_bg: Some(AnsiColor::Indexed(240)),
        gutter_fg: Some(AnsiColor::Indexed(238)),
    };

    let rendered = render_document(&document, 140, &palette);
    assert!(rendered.contains("\u{1b}[1mdemo.txt\u{1b}[0m"));
    assert!(rendered.contains("⋮"));
    assert!(!rendered.contains("@@ -1 +1 @@"));
    // left (deleted) side has tinted background
    assert!(rendered.contains("\u{1b}[48;5;240mcat"));
    // right (added) side has gutter mark (foreground color)
    assert!(rendered.contains("\u{1b}[48;5;238m \u{1b}[0mcot"));
    assert!(rendered.contains("\u{1b}[1m 3  \u{1b}[0m"));
    assert!(!rendered.contains(" | "));
}

#[test]
fn renders_inline_document_with_markers_and_ellipsis() {
    let document = Document::from_items(vec![
        Item::FileHeader("src/unified_diff.rs".into()),
        Item::Hunk(Hunk {
            header: String::new(),
            old_start: 15,
            new_start: 15,
            new_len: 3,
            rows: vec![
                Row::Context("    pub old_start: usize,".into()),
                Row::Delete("    pub old_len: usize,".into()),
                Row::Context("    pub new_start: usize,".into()),
            ],
        }),
        Item::Hunk(Hunk {
            header: String::new(),
            old_start: 127,
            new_start: 126,
            new_len: 3,
            rows: vec![
                Row::Change {
                    old: "    let (old_start, old_len, new_start, new_len) = parse_hunk_header(&header).unwrap_or((0, 0, 0, 0));".into(),
                    new: "    let (old_start, new_start, new_len) = parse_hunk_header(&header).unwrap_or((0, 0, 0));".into(),
                },
                Row::Context("    let rows = build_rows(std::mem::take(raw_rows));".into()),
            ],
        }),
    ]);
    let palette = TintPalette {
        changed_line_bg: Some(AnsiColor::Indexed(240)),
        gutter_fg: Some(AnsiColor::Indexed(238)),
    };

    let rendered = render_inline_document(&document, 80, &palette);
    assert!(rendered.contains("\u{1b}[1msrc/unified_diff.rs\u{1b}[0m"));
    assert!(rendered.contains("   ⋮"));
    assert!(rendered.contains("  15      pub old_start: usize,"));
    // deleted lines keep the tinted background and dim the removed text payload
    assert!(rendered.contains("\u{1b}[48;5;240m  16  \u{1b}[2m    pub old_len: usize,\u{1b}[0m"));
    assert!(rendered.contains("  16  "));
    assert!(rendered.contains("  16      pub new_start: usize,"));
    assert!(rendered.contains(" 127  "));
    // changed/inserted lines have gutter mark
    assert!(rendered.contains("\u{1b}[48;5;238m \u{1b}[0m"));
}

#[test]
fn renders_gap_continuation_marker_before_first_insert_after_elision() {
    let document = Document::from_items(vec![
        Item::FileHeader("demo.txt".into()),
        Item::Hunk(Hunk {
            header: String::new(),
            old_start: 1,
            new_start: 1,
            new_len: 1,
            rows: vec![Row::Context("alpha".into())],
        }),
        Item::Hunk(Hunk {
            header: String::new(),
            old_start: 10,
            new_start: 10,
            new_len: 1,
            rows: vec![Row::Insert("beta".into())],
        }),
    ]);
    let palette = TintPalette {
        changed_line_bg: Some(AnsiColor::Indexed(240)),
        gutter_fg: Some(AnsiColor::Indexed(238)),
    };

    let rendered = render_document(&document, 140, &palette);
    assert!(rendered.contains(" ⋮ "));
    assert!(rendered.contains(".."));
    assert!(rendered.contains("\u{1b}[1m 10 \u{1b}[0m"));
}

fn gamma_document() -> Document {
    Document::from_items(vec![
        Item::FileHeader("demo.txt".into()),
        Item::Hunk(Hunk {
            header: String::new(),
            old_start: 3,
            new_start: 3,
            new_len: 1,
            rows: vec![Row::Context("gamma".into())],
        }),
    ])
}

#[test]
fn renders_spinner_for_loading_gap() {
    let document = gamma_document();
    let mut gap_states = GapStates::new();
    gap_states.insert(
        GapId {
            file_path: "demo.txt".into(),
            hunk_index: 0,
        },
        GapState::Loading,
    );

    let rendered =
        render_document_with_state(&document, 140, &TintPalette::default(), &gap_states, 0);

    assert!(rendered.lines[1].contains('⠁'));
    assert_eq!(
        rendered.line_metadata[1]
            .gap
            .as_ref()
            .map(|gap| gap.start_line),
        Some(1)
    );
}

#[test]
fn renders_expanded_gap_content_in_place_of_ellipsis() {
    let document = gamma_document();
    let mut gap_states = GapStates::new();
    gap_states.insert(
        GapId {
            file_path: "demo.txt".into(),
            hunk_index: 0,
        },
        GapState::Expanded(vec!["alpha".into(), "beta".into()]),
    );

    let rendered =
        render_document_with_state(&document, 140, &TintPalette::default(), &gap_states, 0);

    assert!(rendered.lines[1].contains("alpha"));
    assert!(rendered.lines[2].contains("beta"));
    assert!(rendered.line_metadata[1].gap.is_none());
    assert!(!rendered.into_output().contains('⋮'));
}

#[test]
fn inline_insert_uses_gutter_mark() {
    let palette = TintPalette {
        changed_line_bg: Some(AnsiColor::Indexed(240)),
        gutter_fg: Some(AnsiColor::Indexed(238)),
    };

    let line = render_inline_inserted_line(12, "abc", 4, &palette);
    assert!(line.starts_with("  12 "));
    assert!(line.contains("\u{1b}[48;5;238m \u{1b}[0mabc"));
}

#[test]
fn inline_insertions_keep_full_text_for_horizontal_scroll() {
    let palette = TintPalette {
        changed_line_bg: Some(AnsiColor::Indexed(240)),
        gutter_fg: Some(AnsiColor::Indexed(238)),
    };

    let line = render_inline_inserted_line(12, "abcdefghijklmnopqrstuvwxyz", 4, &palette);
    assert!(line.contains("abcdefghijklmnopqrstuvwxyz"));
}

#[test]
fn side_by_side_keeps_full_right_text_for_horizontal_scroll() {
    let long = "abcdefghijklmnopqrstuvwxyzabcdefghijklmnopqrstuvwxyzabcdefghijklmnopqrstuvwxyz";
    let document = Document::from_items(vec![
        Item::FileHeader("demo.txt".into()),
        Item::Hunk(Hunk {
            header: String::new(),
            old_start: 1,
            new_start: 1,
            new_len: 2,
            rows: vec![Row::Insert("abc".into()), Row::Insert(long.into())],
        }),
    ]);
    let palette = TintPalette {
        changed_line_bg: Some(AnsiColor::Indexed(240)),
        gutter_fg: Some(AnsiColor::Indexed(238)),
    };

    let rendered = render_document(&document, 140, &palette);
    assert!(rendered.contains(long));
    // inserted lines use gutter mark, not background
    assert!(rendered.contains("\u{1b}[48;5;238m \u{1b}[0mabc"));
}

#[test]
fn non_tinted_side_by_side_cells_do_not_pad_hidden_spaces() {
    let line = StyledLine {
        text: "abc".into(),
        ..Default::default()
    };

    let rendered = render_styled_cell(&line, 20);
    assert_eq!(rendered, "abc");
}

#[test]
fn render_mode_threshold_is_strictly_greater_than_120() {
    let mode = RenderMode {
        side_by_side: 121 > THRESHOLD_WIDTH,
        width: 121,
    };
    assert!(mode.side_by_side);
    assert!(should_render_side_by_side(121));
    assert!(!should_render_side_by_side(120));
}

#[test]
fn styled_line_with_background_renders_bg() {
    let line = StyledLine {
        text: "abc".into(),
        background: Some(AnsiColor::Indexed(240)),
    };

    let rendered = render_styled_cell(&line, 20);
    assert_eq!(rendered, "\u{1b}[48;5;240mabc\u{1b}[0m");
}

#[test]
fn formats_right_line_numbers_only() {
    assert_eq!(format_right_line_number(Some(12)), "12");
    assert_eq!(format_right_line_number(None), "");
}

#[test]
fn renders_centered_italic_chunk_header() {
    let header = render_compact_elision_row(Layout {
        center_number_width: 4,
        left_text_width: 6,
        right_visible_width: 6,
        right_render_width: 6,
    });
    assert!(header.contains(" ⋮  "));
}

#[test]
fn elision_row_is_exact() {
    let header = render_compact_elision_row(Layout {
        center_number_width: 4,
        left_text_width: 6,
        right_visible_width: 6,
        right_render_width: 6,
    });
    assert_eq!(header, "         ⋮          ");
}

#[test]
fn tabs_reach_the_next_stop() {
    assert_eq!(expand_tabs("abc\tX"), "abc     X");
    assert_eq!(expand_tabs("12345678\tX"), "12345678        X");
    assert_eq!(expand_tabs("宽\tX"), "宽      X");
    assert_eq!(expand_tabs(""), "");
}

#[test]
fn wide_characters_count_twice() {
    assert_eq!(display_width("宽a"), 3);
    assert_eq!(display_width("e\u{301}"), 1);
    assert_eq!(display_width("\t"), 8);
    assert_eq!(display_width("\u{7}"), 0);
}

#[test]
fn mode_depends_on_the_terminal() {
    assert_eq!(
        RenderMode::detect(false, Some(200)),
        RenderMode {
            side_by_side: false,
            width: 0
        }
    );
    assert_eq!(
        RenderMode::detect(true, Some(200)),
        RenderMode {
            side_by_side: true,
            width: 200
        }
    );
    assert_eq!(
        RenderMode::detect(true, None),
        RenderMode {
            side_by_side: false,
            width: 0
        }
    );
    assert_eq!(
        TintPalette::detect((Some(AnsiColor::Indexed(1)), None)),
        TintPalette {
            changed_line_bg: Some(AnsiColor::Indexed(1)),
            gutter_fg: None,
        }
    );
}

#[test]
fn panes_of_both_layouts() {
    let document = gamma_document();
    assert_eq!(
        pane_layout(&document, 140),
        PaneLayout {
            left_end: 66,
            right_start: 74,
            content_start: 0
        }
    );
    assert_eq!(
        pane_layout(&document, 120),
        PaneLayout {
            left_end: 0,
            right_start: 0,
            content_start: 6
        }
    );
}

#[test]
fn side_by_side_lines_are_exact() {
    let document = Document::from_items(vec![
        Item::Meta("0123456789012345678901234567890".into()),
        Item::FileHeader("f".into()),
        Item::Hunk(Hunk {
            header: String::new(),
            old_start: 1,
            new_start: 1,
            new_len: 3,
            rows: vec![
                Row::Context("a".into()),
                Row::Delete("b".into()),
                Row::Insert("".into()),
                Row::Annotation("\\ none".into()),
            ],
        }),
    ]);
    let palette = TintPalette {
        changed_line_bg: Some(AnsiColor::Rgb(1, 2, 3)),
        gutter_fg: Some(AnsiColor::Indexed(4)),
    };
    let rendered =
        render_document_with_state(&document, 16, &palette, &GapStates::new(), 0).into_output();
    let expected = [
        "0123456789012345",
        "",
        "\u{1b}[1mf\u{1b}[0m",
        "a     \u{1b}[1m 1  \u{1b}[0m  \u{1b}[2ma\u{1b}[0m",
        "\u{1b}[48;2;1;2;3mb   \u{1b}[0m  \u{1b}[1m    \u{1b}[0m  ",
        "      \u{1b}[1m 2  \u{1b}[0m \u{1b}[48;5;4m \u{1b}[0m ",
        "\\ none",
    ];
    assert_eq!(rendered, expected.join("\n"));
}

#[test]
fn inline_lines_are_exact() {
    let document = Document::from_items(vec![
        Item::FileHeader("f".into()),
        Item::Hunk(Hunk {
            header: String::new(),
            old_start: 1,
            new_start: 3,
            new_len: 2,
            rows: vec![
                Row::Delete("b".into()),
                Row::Change {
                    old: "c".into(),
                    new: "".into(),
                },
                Row::Annotation("\\ none".into()),
            ],
        }),
        Item::Meta("not shown".into()),
        Item::FileHeader("g".into()),
    ]);
    let plain = render_inline_document(&document, 0, &TintPalette::default());
    let expected = [
        "\u{1b}[1mf\u{1b}[0m",
        "   ⋮",
        "   1 -\u{1b}[2mb\u{1b}[0m",
        "   2 -\u{1b}[2mc\u{1b}[0m",
        "   3  ",
        "\\ none",
        "",
        "\u{1b}[1mg\u{1b}[0m",
    ];
    assert_eq!(plain, expected.join("\n"));
    let palette = TintPalette {
        changed_line_bg: Some(AnsiColor::Indexed(7)),
        gutter_fg: Some(AnsiColor::Indexed(9)),
    };
    let tinted = render_inline_document(&document, 0, &palette);
    let lines: Vec<&str> = tinted.split('\n').collect();
    assert_eq!(lines[2], "\u{1b}[48;5;7m   1  \u{1b}[2mb\u{1b}[0m");
    assert_eq!(lines[4], "   3 \u{1b}[48;5;9m \u{1b}[0m ");
}

#[test]
fn gaps_tell_where_they_are() {
    let hunk = |start: usize, len: usize| {
        Item::Hunk(Hunk {
            header: String::new(),
            old_start: start,
            new_start: start,
            new_len: len,
            rows: vec![Row::Context("x".into())],
        })
    };
    let document = Document::from_items(vec![
        Item::FileHeader("f".into()),
        hunk(1, 1),
        hunk(2, 0),
        hunk(9, 1),
    ]);
    let rendered =
        render_inline_document_with_state(&document, &TintPalette::default(), &GapStates::new(), 0);
    assert_eq!(rendered.lines.len(), rendered.line_metadata.len());
    let gaps: Vec<(usize, usize, usize)> = rendered
        .line_metadata
        .iter()
        .filter_map(|meta| {
            meta.gap
                .as_ref()
                .map(|gap| (gap.id.hunk_index, gap.start_line, gap.line_count))
        })
        .collect();
    assert_eq!(gaps, vec![(2, 2, 7)]);
}

#[test]
fn gap_states_overwrite_each_other() {
    let id = || GapId {
        file_path: "f".into(),
        hunk_index: 1,
    };
    let mut states = GapStates::new();
    assert_eq!(states.get(&id()), None);
    states.insert(id(), GapState::Loading);
    states.insert(
        GapId {
            file_path: "g".into(),
            hunk_index: 1,
        },
        GapState::Loading,
    );
    states.insert(id(), GapState::Expanded(vec!["x".into()]));
    assert_eq!(states.get(&id()), Some(&GapState::Expanded(vec!["x".into()])));
    assert_eq!(states.entries.len(), 2);
}

#[test]
fn spinner_goes_round() {
    let document = gamma_document();
    let mut states = GapStates::new();
    states.insert(
        GapId {
            file_path: "demo.txt".into(),
            hunk_index: 0,
        },
        GapState::Loading,
    );
    let glyphs: Vec<String> = (0..5)
        .map(|frame| {
            let rendered = render_inline_document_with_state(
                &document,
                &TintPalette::default(),
                &states,
                frame,
            );
            rendered.lines[1].trim().to_owned()
        })
        .collect();
    assert_eq!(glyphs, vec!["⠁", "⠂", "⠄", "⠂", "⠁"]);
}

#[test]
fn line_numbers_that_cannot_be_counted_are_told() {
    let document = Document::from_items(vec![Item::Hunk(Hunk {
        header: String::new(),
        old_start: usize::MAX,
        new_start: 1,
        new_len: 1,
        rows: vec![Row::Context("x".into())],
    })]);
    assert!(!document_fits(&document));
    assert!(document_fits(&gamma_document()));
    assert!(gap_states_fit(&GapStates::new(), &gamma_document()));
}

#[test]
fn unchanged_text_is_dim_on_the_right() {
    let document = Document::from_items(vec![
        Item::FileHeader("f".into()),
        Item::Hunk(Hunk {
            header: String::new(),
            old_start: 2,
            new_start: 2,
            new_len: 4,
            rows: vec![
                Row::Context("\tkept".into()),
                Row::Context("".into()),
                Row::Insert("new".into()),
                Row::Change {
                    old: "cat".into(),
                    new: "cot".into(),
                },
            ],
        }),
    ]);
    let mut states = GapStates::new();
    states.insert(
        GapId {
            file_path: "f".into(),
            hunk_index: 0,
        },
        GapState::Expanded(vec!["filled".into()]),
    );
    let palette = TintPalette::default();
    let wide = render_document_with_state(&document, 140, &palette, &states, 0);
    assert!(wide.lines[1].starts_with("filled "));
    assert!(wide.lines[1].ends_with("\u{1b}[1m 1  \u{1b}[0m  \u{1b}[2mfilled\u{1b}[0m"));
    assert!(wide.lines[2].starts_with("        kept "));
    assert!(wide.lines[2].ends_with("\u{1b}[1m 2  \u{1b}[0m  \u{1b}[2m        kept\u{1b}[0m"));
    assert!(wide.lines[3].ends_with("\u{1b}[1m 3  \u{1b}[0m  "));
    assert!(wide.lines[4].ends_with("\u{1b}[1m 4  \u{1b}[0m  new"));
    assert!(wide.lines[5].ends_with("\u{1b}[1m 5  \u{1b}[0m  cot"));
    for line in &wide.lines[3..] {
        assert!(!line.contains("\u{1b}[2m"));
    }
}

#[test]
fn copies_say_the_same() {
    let state = GapState::Expanded(vec!["x".into(), "y".into()]);
    assert_eq!(state.clone(), state);
    assert_eq!(GapState::Loading.clone(), GapState::Loading);
    let rendered = render_inline_document_with_state(
        &gamma_document(),
        &TintPalette::default(),
        &GapStates::new(),
        0,
    );
    assert!(rendered.line_metadata[1].gap.is_some());
    assert_eq!(rendered.line_metadata[1].clone(), rendered.line_metadata[1]);
    assert_eq!(rendered.clone(), rendered);
}
