use mdiff::backend::Backend;
use mdiff::rage::format_ansi_color;
use mdiff::rage::format_env;
use mdiff::rage::format_rgb;
use mdiff::rage::report;
use mdiff::rage::variable_names;
use mdiff::rage::RageInfo;
use mdiff::render::RenderMode;
use mdiff::terminal_palette::tint_with_background;
use mdiff::terminal_palette::tint_without_background;
use mdiff::terminal_palette::AnsiColor;
use mdiff::terminal_palette::StdoutColorLevel;

#[test]
fn values_of_the_report() {
    assert_eq!(format_rgb(Some((1, 20, 255))), "(1, 20, 255)");
    assert_eq!(format_rgb(None), "<none>");
    assert_eq!(
        format_ansi_color(Some(AnsiColor::Rgb(1, 2, 3))),
        "Rgb(1, 2, 3)"
    );
    assert_eq!(format_ansi_color(Some(AnsiColor::Indexed(7))), "Indexed(7)");
    assert_eq!(format_ansi_color(None), "<none>");
    assert_eq!(format_env(&None), "<unset>");
    assert_eq!(format_env(&Some("x".to_owned())), "x");
    assert_eq!(
        variable_names(),
        vec![
            "TERM",
            "COLORTERM",
            "COLORFGBG",
            "TERM_PROGRAM",
            "TMUX",
            "INSIDE_EMACS"
        ]
    );
}

#[test]
fn report_of_a_known_background() {
    let info = RageInfo {
        cwd: "/work".to_owned(),
        backend: Backend::Git,
        root: Some("/".to_owned()),
        command: "git diff".to_owned(),
        stdout_is_tty: true,
        terminal_size: Some((140, 50)),
        render_mode: RenderMode {
            side_by_side: true,
            width: 140,
        },
        tint: tint_with_background(
            StdoutColorLevel::Ansi256,
            (0, 0, 0),
            false,
            (10, 10, 10),
            Some(AnsiColor::Indexed(232)),
        ),
        env: vec![
            ("TERM".to_owned(), Some("xterm".to_owned())),
            ("TMUX".to_owned(), None),
        ],
    };
    let expected = "\
mdiff rage
cwd: /work
backend: Git
repository root: /
backend command: git diff
stdout is tty: true
terminal size: 140x50
side by side: true (threshold > 120, width=140)
supports-color stdout level: Ansi256
crossterm bg query error: <none>
queried bg (8-bit rgb): (0, 0, 0)
bg source: Queried
effective bg: (0, 0, 0)
is light background: false
overlay rgb: (255, 255, 255)
overlay alpha: 0.04
blended tint rgb: (10, 10, 10)
final tint color: Indexed(232)
env TERM: xterm
env TMUX: <unset>
";
    assert_eq!(report(&info), expected);
}

#[test]
fn report_of_an_unknown_background() {
    let info = RageInfo {
        cwd: "/work".to_owned(),
        backend: Backend::PlainDiff,
        root: None,
        command: "diff".to_owned(),
        stdout_is_tty: false,
        terminal_size: None,
        render_mode: RenderMode {
            side_by_side: false,
            width: 0,
        },
        tint: tint_without_background(StdoutColorLevel::Unknown, true),
        env: Vec::new(),
    };
    let text = report(&info);
    assert!(text.contains("repository root: <none>\n"));
    assert!(text.contains("terminal size: <unknown>\n"));
    assert!(text.contains("crossterm bg query error: query_background_color failed\n"));
    assert!(text.contains("bg source: Failed\n"));
    assert!(text.contains("is light background: <unknown>\n"));
    assert!(text.contains("overlay alpha: <none>\n"));
}
