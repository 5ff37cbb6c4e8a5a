use mdiff::pager::page_or_render;
use mdiff::pager::Opening;
use mdiff::render::GapStates;
use mdiff::render::PaneLayout;
use mdiff::render::TintPalette;
use mdiff::snapshot::build_snapshot;

const DIFF: &str = "\
diff --git a/a.go b/a.go
--- a/a.go
+++ b/a.go
@@ -1 +1 @@
-x
+y
diff --git a/b.rs b/b.rs
--- a/b.rs
+++ b/b.rs
@@ -4 +4 @@
-p
+q
";

#[test]
fn snapshots_know_their_files() {
    let snapshot = build_snapshot(DIFF.to_owned());
    assert_eq!(snapshot.files, vec!["a.go".to_owned(), "b.rs".to_owned()]);
    assert_eq!(snapshot.raw_stdout, DIFF);
}

#[test]
fn refreshing_tells_what_is_new() {
    let mut snapshot = build_snapshot(DIFF.to_owned());
    assert!(!snapshot.refresh(DIFF.to_owned()));
    assert_eq!(snapshot.files.len(), 2);
    assert!(snapshot.refresh(String::new()));
    assert!(snapshot.files.is_empty());
    assert!(snapshot.document.items.is_empty());
}

#[test]
fn rendering_follows_width_and_filter() {
    let snapshot = build_snapshot(DIFF.to_owned());
    let palette = TintPalette::default();
    let gaps = GapStates::new();
    let narrow = snapshot.render(120, "", &palette, &gaps, 0);
    assert_eq!(narrow.layout.content_start, 6);
    assert_eq!(
        narrow.into_output(),
        "\u{1b}[1ma.go\u{1b}[0m\n   1 -\u{1b}[2mx\u{1b}[0m\n   1  y\n\n\u{1b}[1mb.rs\u{1b}[0m\n   ⋮\n   4 -\u{1b}[2mp\u{1b}[0m\n   4  q"
    );
    let wide = snapshot.render(121, ".rs", &palette, &gaps, 0);
    assert!(wide.layout.left_end > 0);
    let text = wide.into_output();
    assert!(text.starts_with("\u{1b}[1mb.rs\u{1b}[0m\n"));
    assert!(!text.contains("a.go"));
}

fn ten_lines(width: usize, filter: &str, _: &TintPalette) -> (String, PaneLayout) {
    let text: Vec<String> = (0..10).map(|i| format!("{width}/{filter}/{i}")).collect();
    (text.join("\n"), PaneLayout::default())
}

#[test]
fn long_output_is_paged() {
    let open = |force, terminal| {
        page_or_render(
            vec!["f".to_owned()],
            force,
            terminal,
            TintPalette::default(),
            None,
            ten_lines,
        )
    };
    match open(true, None) {
        Opening::Print(output) => assert!(output.starts_with("0//0\n")),
        Opening::Page(_) => panic!("paged without a terminal"),
    }
    match open(false, Some((80, 10))) {
        Opening::Print(output) => assert!(output.starts_with("80//0\n")),
        Opening::Page(_) => panic!("paged what fits"),
    }
    match open(false, Some((80, 9))) {
        Opening::Print(_) => panic!("printed what does not fit"),
        Opening::Page(state) => {
            assert_eq!(state.lines.len(), 10);
            assert_eq!((state.width, state.height), (80, 9));
            assert_eq!(state.all_files, vec!["f".to_owned()]);
        }
    }
    assert!(matches!(open(true, Some((80, 50))), Opening::Page(_)));
}
