use mdiff::backend::slice_lines;
use mdiff::pager::extract_column_range;
use mdiff::pager::strip_ansi_text;
use mdiff::pager::KeyCode;
use mdiff::pager::KeyModifiers;
use mdiff::pager::PagerAction;
use mdiff::pager::PagerEvent;
use mdiff::pager::PagerState;
use mdiff::render::cells::render_plain_cell;
use mdiff::render::display_width;
use mdiff::render::render_document_with_state;
use mdiff::render::render_inline_document;
use mdiff::render::render_inline_document_with_state;
use mdiff::render::GapId;
use mdiff::render::GapState;
use mdiff::render::GapStates;
use mdiff::render::PaneLayout;
use mdiff::render::TintPalette;
use mdiff::snapshot::build_snapshot;
use mdiff::terminal_palette::AnsiColor;
use mdiff::unified_diff::parse;
use mdiff::unified_diff::Document;
use mdiff::unified_diff::Hunk;
use mdiff::unified_diff::Item;
use mdiff::unified_diff::Row;

const DIFF: &str = "\
diff --git a/src/one.rs b/src/one.rs
index 1111111..2222222 100644
--- a/src/one.rs
+++ b/src/one.rs
@@ -8,4 +8,5 @@ fn one() {
 \tkept
-old text
+new text
+\tadded
 also kept
diff --git a/two.txt b/two.txt
index 3333333..4444444 100644
--- a/two.txt
+++ b/two.txt
@@ -1,2 +1 @@
-gone
 stays
\\ No newline at end of file
";

fn palette() -> TintPalette {
    TintPalette {
        changed_line_bg: Some(AnsiColor::Indexed(240)),
        gutter_fg: Some(AnsiColor::Rgb(1, 2, 3)),
    }
}

#[test]
fn rows_keep_both_sides_in_order() {
    let document = parse("@@ -1,3 +1,3 @@\n a\n-b\n-c\n+d\n e\n+f\n");
    let Item::Hunk(hunk) = &document.items[0] else {
        panic!("expected hunk");
    };
    let mut old = Vec::new();
    let mut new = Vec::new();
    for row in &hunk.rows {
        match row {
            Row::Context(line) => {
                old.push(line.as_str());
                new.push(line.as_str());
            }
            Row::Delete(line) => old.push(line.as_str()),
            Row::Insert(line) => new.push(line.as_str()),
            Row::Change { old: left, new: right } => {
                old.push(left.as_str());
                new.push(right.as_str());
            }
            Row::Annotation(_) => {}
        }
    }
    assert_eq!(old, vec!["a", "b", "c", "e"]);
    assert_eq!(new, vec!["a", "d", "e", "f"]);
}

#[test]
fn parsing_keeps_every_line() {
    let document = parse(DIFF);
    let mut count = 0;
    for item in &document.items {
        count += match item {
            Item::FileHeader(_) | Item::Meta(_) => 1,
            Item::Hunk(hunk) => {
                1 + hunk
                    .rows
                    .iter()
                    .map(|row| if matches!(row, Row::Change { .. }) { 2 } else { 1 })
                    .sum::<usize>()
            }
        };
    }
    assert_eq!(count, DIFF.lines().count());
}

#[test]
fn every_text_is_rendered_in_both_layouts() {
    let snapshot = build_snapshot(DIFF.to_owned());
    for width in [80, 140] {
        let rendered = snapshot.render(width, "", &palette(), &GapStates::new(), 0);
        let shown = strip_ansi_text(&rendered.into_output());
        for text in [
            "        kept",
            "old text",
            "new text",
            "        added",
            "also kept",
            "gone",
            "stays",
            "\\ No newline",
            "src/one.rs",
            "two.txt",
        ] {
            assert!(shown.contains(text), "{text} on {width} columns");
        }
    }
}

#[test]
fn selecting_on_the_right_copies_the_right_side() {
    let snapshot = build_snapshot(DIFF.to_owned());
    let rendered = snapshot.render(140, "", &palette(), &GapStates::new(), 0);
    let layout = rendered.layout;
    let texts: Vec<String> = rendered
        .lines
        .iter()
        .map(|line| extract_column_range(&strip_ansi_text(line), layout.right_start, usize::MAX))
        .collect();
    assert_eq!(texts[2], "        kept");
    assert_eq!(texts[3], "new text");
    assert_eq!(texts[4], "        added");

    let output = rendered.into_output();
    let mut state = PagerState::new(
        |_: usize, _: &str, _: &TintPalette| (String::new(), PaneLayout::default()),
        140,
        30,
        output,
        layout,
        snapshot.files.clone(),
        palette(),
        None,
    );
    state.handle_event(PagerEvent::Press {
        row: 3,
        column: layout.right_start as u16,
    });
    assert_eq!(
        state.handle_event(PagerEvent::Release { row: 4 }),
        PagerAction::Copy("new text\n        added".to_owned())
    );
    assert_eq!(state.file_headers.len(), 2);
    assert_eq!(state.file_headers[1].name, "two.txt");
}

#[test]
fn filled_gaps_run_into_their_hunk() {
    let snapshot = build_snapshot(DIFF.to_owned());
    let plain = snapshot.render(80, "", &TintPalette::default(), &GapStates::new(), 0);
    let gap = plain.line_metadata[1].gap.clone().expect("a gap");
    assert_eq!((gap.start_line, gap.line_count), (1, 7));
    let content: String = (1..=20).map(|i| format!("text {i}\n")).collect();
    let mut states = GapStates::new();
    states.insert(
        gap.id.clone(),
        GapState::Expanded(slice_lines(&content, gap.start_line, gap.line_count)),
    );
    let filled = snapshot.render(80, "", &TintPalette::default(), &states, 0);
    assert_eq!(filled.lines[1], "   1  text 1");
    assert_eq!(filled.lines[7], "   7  text 7");
    assert_eq!(filled.lines[8], "   8          kept");
    assert!(filled.line_metadata[1..8].iter().all(|meta| meta.gap.is_none()));
}

#[test]
fn gaps_of_other_files_stay_open() {
    let document = Document::from_items(vec![
        Item::FileHeader("a".into()),
        Item::Hunk(Hunk {
            header: String::new(),
            old_start: 3,
            new_start: 3,
            new_len: 1,
            rows: vec![Row::Context("x".into())],
        }),
        Item::FileHeader("b".into()),
        Item::Hunk(Hunk {
            header: String::new(),
            old_start: 3,
            new_start: 3,
            new_len: 1,
            rows: vec![Row::Context("y".into())],
        }),
    ]);
    let mut states = GapStates::new();
    states.insert(
        GapId {
            file_path: "a".into(),
            hunk_index: 0,
        },
        GapState::Expanded(Vec::new()),
    );
    let rendered =
        render_document_with_state(&document, 140, &TintPalette::default(), &states, 0);
    let gaps: Vec<&str> = rendered
        .line_metadata
        .iter()
        .filter_map(|meta| meta.gap.as_ref().map(|gap| gap.id.file_path.as_str()))
        .collect();
    assert_eq!(gaps, vec!["b"]);
    let inline =
        render_inline_document_with_state(&document, &TintPalette::default(), &states, 0);
    assert_eq!(inline.lines.len(), 6);
}

#[test]
fn inline_numbers_line_up() {
    let document = Document::from_items(vec![Item::Hunk(Hunk {
        header: String::new(),
        old_start: 99_998,
        new_start: 7,
        new_len: 2,
        rows: vec![
            Row::Context("x".into()),
            Row::Delete("y".into()),
            Row::Delete("z".into()),
        ],
    })]);
    let text = render_inline_document(&document, 0, &TintPalette::default());
    assert_eq!(
        text,
        "     ⋮\n     7  x\n 99999 -\u{1b}[2my\u{1b}[0m\n100000 -\u{1b}[2mz\u{1b}[0m"
    );
}

#[test]
fn cells_take_their_columns() {
    for (text, width) in [("", 3), ("abcdef", 3), ("a宽宽", 4), ("宽", 1), ("e\u{301}x", 5)] {
        assert_eq!(display_width(&render_plain_cell(text, width)), width);
    }
}

#[test]
fn typing_narrows_the_files() {
    let snapshot = build_snapshot(DIFF.to_owned());
    let mut state = PagerState::new(
        |width: usize, filter: &str, colors: &TintPalette| {
            let rendered = snapshot.render(width, filter, colors, &GapStates::new(), 0);
            let layout = rendered.layout;
            (rendered.into_output(), layout)
        },
        80,
        20,
        String::new(),
        PaneLayout::default(),
        snapshot.files.clone(),
        palette(),
        None,
    );
    state.set_dimensions(100, 20);
    assert_eq!(state.file_headers.len(), 2);
    let mut seen = state.visible_files.clone();
    state.handle_event(PagerEvent::Key {
        code: KeyCode::Char('f'),
        modifiers: KeyModifiers::Control,
    });
    for ch in "two".chars() {
        state.handle_event(PagerEvent::Key {
            code: KeyCode::Char(ch),
            modifiers: KeyModifiers::Plain,
        });
        assert!(state.visible_files.iter().all(|file| seen.contains(file)));
        assert_eq!(state.file_headers.len(), state.visible_files.len());
        seen = state.visible_files.clone();
    }
    assert_eq!(seen, vec!["two.txt".to_owned()]);
    assert_eq!(state.plain_lines[0], "two.txt");
    let frame = state.frame();
    assert_eq!(frame.rows.len() + frame.hud.len(), 20);
}

fn hunk_at(start: usize, text: &str) -> Item {
    Item::Hunk(Hunk {
        header: String::new(),
        old_start: start,
        new_start: start,
        new_len: 1,
        rows: vec![Row::Context(text.into())],
    })
}

#[test]
fn spinners_turn_only_while_a_gap_loads() {
    let document = Document::from_items(vec![Item::FileHeader("a".into()), hunk_at(3, "x")]);
    let id = GapId {
        file_path: "a".into(),
        hunk_index: 0,
    };
    let colors = palette();
    let mut states = GapStates::new();
    for filled in [false, true] {
        if filled {
            let lines = vec!["one".to_owned(), "two".to_owned()];
            states.insert(id.clone(), GapState::Expanded(lines));
        }
        let wide = render_document_with_state(&document, 140, &colors, &states, 0);
        let narrow = render_inline_document_with_state(&document, &colors, &states, 0);
        for frame in 1..6 {
            let other = render_document_with_state(&document, 140, &colors, &states, frame);
            assert_eq!(other, wide);
            let other = render_inline_document_with_state(&document, &colors, &states, frame);
            assert_eq!(other, narrow);
        }
    }
    states.insert(id, GapState::Loading);
    let first = render_inline_document_with_state(&document, &colors, &states, 0);
    let second = render_inline_document_with_state(&document, &colors, &states, 1);
    assert_eq!(first.lines[1], "   ⠁");
    assert_eq!(second.lines[1], "   ⠂");
}

#[test]
fn a_single_column_leaves_out_lines_outside_hunks() {
    let full = Document::from_items(vec![
        Item::Meta("before".into()),
        hunk_at(2, "w"),
        Item::Meta("between".into()),
        hunk_at(9, "x"),
        Item::FileHeader("a".into()),
        Item::Meta("index 1..2".into()),
        hunk_at(3, "y"),
        Item::Meta("behind".into()),
    ]);
    let bare = Document::from_items(vec![
        hunk_at(2, "w"),
        hunk_at(9, "x"),
        Item::FileHeader("a".into()),
        hunk_at(3, "y"),
    ]);
    let states = GapStates::new();
    let rendered = render_inline_document_with_state(&full, &palette(), &states, 0);
    assert_eq!(
        rendered,
        render_inline_document_with_state(&bare, &palette(), &states, 0)
    );
    assert_eq!(rendered.lines.len(), 8);
    let wide = render_document_with_state(&full, 140, &palette(), &states, 0);
    assert_eq!(wide.lines[0], "before");
    assert_eq!(wide.lines.len(), 12);
}

#[test]
fn no_foreground_colors_are_written() {
    let snapshot = build_snapshot(DIFF.to_owned());
    for width in [80, 140] {
        let rendered = snapshot.render(width, "", &palette(), &GapStates::new(), 0);
        let output = rendered.into_output();
        assert!(output.contains("\u{1b}[48;5;240m"));
        assert!(output.contains("\u{1b}[48;2;1;2;3m"));
        assert!(!output.contains("\u{1b}[38;"));
        for part in output.split('\u{1b}').skip(1) {
            assert!(
                ["[0m", "[1m", "[2m", "[48;"]
                    .iter()
                    .any(|code| part.starts_with(code)),
                "{part} on {width} columns"
            );
        }
    }
}

#[test]
fn reported_gaps_start_at_line_one_or_later() {
    let document = Document::from_items(vec![
        Item::FileHeader("a".into()),
        Item::Hunk(Hunk {
            header: String::new(),
            old_start: 0,
            new_start: 0,
            new_len: 0,
            rows: vec![Row::Delete("gone".into())],
        }),
        hunk_at(4, "x"),
    ]);
    let rendered = render_document_with_state(&document, 140, &palette(), &GapStates::new(), 0);
    let gaps: Vec<(usize, usize)> = rendered
        .line_metadata
        .iter()
        .filter_map(|meta| meta.gap.as_ref().map(|gap| (gap.start_line, gap.line_count)))
        .collect();
    assert_eq!(gaps, vec![(1, 3)]);
}

#[test]
fn setting_a_gap_keeps_the_others() {
    let id = |hunk_index: usize| GapId {
        file_path: "a".into(),
        hunk_index,
    };
    let mut states = GapStates::new();
    states.insert(id(0), GapState::Loading);
    states.insert(id(1), GapState::Loading);
    states.insert(id(0), GapState::Expanded(vec!["x".into()]));
    assert_eq!(
        states.entries,
        vec![
            (id(0), GapState::Expanded(vec!["x".into()])),
            (id(1), GapState::Loading),
        ]
    );
}

#[test]
fn a_refresh_shows_the_files_of_the_new_diff() {
    let snapshot = build_snapshot(DIFF.to_owned());
    let mut state = PagerState::new(
        |width: usize, filter: &str, colors: &TintPalette| {
            let rendered = snapshot.render(width, filter, colors, &GapStates::new(), 0);
            let layout = rendered.layout;
            (rendered.into_output(), layout)
        },
        80,
        3,
        "before".to_owned(),
        PaneLayout::default(),
        vec!["old.rs".to_owned()],
        palette(),
        None,
    );
    assert!(state.file_headers.is_empty());
    state.apply_files(snapshot.files.clone());
    assert_eq!(state.all_files, snapshot.files);
    assert_eq!(state.visible_files, vec!["src/one.rs", "two.txt"]);
    assert_eq!(state.plain_lines[0], "src/one.rs");
    assert_eq!(state.file_headers.len(), 2);
    state.jump_to_file_index(1);
    let top = state.current_top_file_name();
    state.apply_files(snapshot.files.clone());
    assert_eq!(top.as_deref(), Some("two.txt"));
    assert_eq!(state.current_top_file_name(), top);
}
