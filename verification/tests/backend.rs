use mdiff::backend::detect;
use mdiff::backend::detect_details;
use mdiff::backend::has_flag;
use mdiff::backend::last_flag_value;
use mdiff::backend::shell_quote_lossy;
use mdiff::backend::slice_lines;
use mdiff::backend::take_flag;
use mdiff::backend::take_options;
use mdiff::backend::Argument;
use mdiff::backend::Backend;
use mdiff::backend::Detection;
use mdiff::backend::FetchPlan;
use mdiff::backend::FileFetcher;
use mdiff::backend::RepositoryMarkers;

const NONE: RepositoryMarkers = RepositoryMarkers {
    git: false,
    hg: false,
};
const GIT: RepositoryMarkers = RepositoryMarkers {
    git: true,
    hg: false,
};
const HG: RepositoryMarkers = RepositoryMarkers {
    git: false,
    hg: true,
};

#[test]
fn detects_git_repository() {
    assert_eq!(detect(&[GIT, NONE]), Backend::Git);
}

#[test]
fn detects_hg_repository() {
    assert_eq!(detect(&[HG, NONE]), Backend::Hg);
}

#[test]
fn prefers_nearest_repository_marker() {
    assert_eq!(detect(&[HG, GIT, NONE]), Backend::Hg);
}

#[test]
fn detect_details_reports_root() {
    let detection = detect_details(&[NONE, GIT, NONE]);
    assert_eq!(detection.backend, Backend::Git);
    assert_eq!(detection.root, Some(1));
}

#[test]
fn git_goes_before_hg_in_one_directory() {
    let both = RepositoryMarkers {
        git: true,
        hg: true,
    };
    assert_eq!(detect(&[both]), Backend::Git);
    assert_eq!(
        detect_details(&[NONE, NONE]),
        Detection {
            backend: Backend::PlainDiff,
            root: None
        }
    );
}

fn texts(list: &[&str]) -> Vec<String> {
    list.iter().map(|text| text.to_string()).collect()
}

fn arguments(list: &[&str]) -> Vec<Argument<usize>> {
    list.iter()
        .enumerate()
        .map(|(raw, text)| Argument {
            text: text.to_string(),
            raw,
        })
        .collect()
}

#[test]
fn removes_rage_flag_from_arguments() {
    let mut args = arguments(&["--cached", "--rage", "--stat"]);

    assert!(take_flag(&mut args, "--rage"));
    let kept: Vec<&str> = args.iter().map(|arg| arg.text.as_str()).collect();
    assert_eq!(kept, vec!["--cached", "--stat"]);
}

#[test]
fn removes_short_pager_flag_from_arguments() {
    let mut args = arguments(&["-P", "--cached", "--stat"]);

    assert!(take_flag(&mut args, "-P"));
    let kept: Vec<&str> = args.iter().map(|arg| arg.text.as_str()).collect();
    assert_eq!(kept, vec!["--cached", "--stat"]);
}

#[test]
fn removes_long_pager_flag_from_arguments() {
    let mut args = arguments(&["--cached", "--pager", "--stat"]);

    assert!(take_flag(&mut args, "--pager"));
    let kept: Vec<&str> = args.iter().map(|arg| arg.text.as_str()).collect();
    assert_eq!(kept, vec!["--cached", "--stat"]);
}

#[test]
fn taking_a_flag_takes_all_of_it_and_nothing_else() {
    let mut args = arguments(&["-P", "a", "-P", "b"]);
    assert!(take_flag(&mut args, "-P"));
    let raw: Vec<usize> = args.iter().map(|arg| arg.raw).collect();
    assert_eq!(raw, vec![1, 3]);
    assert!(!take_flag(&mut args, "-P"));
    assert_eq!(args.len(), 2);
}

#[test]
fn options_are_taken_from_the_arguments() {
    let mut args = arguments(&["--rage", "a", "--pager"]);
    let options = take_options(&mut args);
    assert!(options.rage && options.force_pager);
    assert_eq!(args.len(), 1);
    let mut args = arguments(&["-P", "--pager", "a"]);
    let options = take_options(&mut args);
    assert!(!options.rage && options.force_pager);
    let kept: Vec<&str> = args.iter().map(|arg| arg.text.as_str()).collect();
    assert_eq!(kept, vec!["--pager", "a"]);
    let mut args = arguments(&["a"]);
    let options = take_options(&mut args);
    assert!(!options.rage && !options.force_pager);
}

#[test]
fn slices_requested_line_range() {
    assert_eq!(
        slice_lines("one\ntwo\nthree\nfour\n", 2, 2),
        vec!["two".to_owned(), "three".to_owned()]
    );
}

#[test]
fn line_ranges_end_with_the_content() {
    assert_eq!(slice_lines("one\ntwo\n", 2, 9), vec!["two".to_owned()]);
    assert_eq!(slice_lines("one\ntwo\n", 0, 1), vec!["one".to_owned()]);
    assert!(slice_lines("one\ntwo\n", 3, 1).is_empty());
    assert!(slice_lines("one\ntwo\n", usize::MAX, usize::MAX).is_empty());
}

#[test]
fn names_of_commands() {
    assert_eq!(Backend::Git.describe(), "git diff");
    assert_eq!(Backend::Hg.describe(), "hg diff");
    assert_eq!(Backend::PlainDiff.describe(), "diff");
}

#[test]
fn commands_switch_colors_off() {
    let git = Backend::Git.command();
    assert_eq!(git.program, "git");
    assert_eq!(
        git.args,
        texts(&["-c", "color.ui=false", "-c", "core.pager=cat", "diff"])
    );
    assert_eq!(
        git.env,
        vec![
            ("NO_COLOR".to_owned(), "1".to_owned()),
            ("CLICOLOR".to_owned(), "0".to_owned()),
            ("GIT_PAGER".to_owned(), "cat".to_owned()),
        ]
    );
    let hg = Backend::Hg.command();
    assert_eq!(hg.args, texts(&["--config", "ui.color=off", "diff"]));
    let diff = Backend::PlainDiff.command();
    assert_eq!(diff.program, "diff");
    assert!(diff.args.is_empty() && diff.env.is_empty());
}

#[test]
fn previews_are_quoted() {
    assert_eq!(
        Backend::Git.command_preview(&texts(&["HEAD~3..HEAD", "it's", ""])),
        "git -c color.ui=false -c core.pager=cat diff 'HEAD~3..HEAD' 'it'\\''s' ''"
    );
    assert_eq!(
        Backend::Hg.command_preview(&texts(&["-c"])),
        "hg --config ui.color=off diff -c"
    );
    assert_eq!(Backend::PlainDiff.command_preview(&[]), "diff");
}

#[test]
fn quoting_leaves_plain_words_alone() {
    assert_eq!(shell_quote_lossy("a/b.c_d-e:f=1"), "a/b.c_d-e:f=1");
    assert_eq!(shell_quote_lossy(""), "''");
    assert_eq!(shell_quote_lossy("a b"), "'a b'");
    assert_eq!(shell_quote_lossy("'"), "''\\'''");
}

#[test]
fn flags_are_found_whole() {
    let args = texts(&["--cached", "-w"]);
    assert!(has_flag(&args, "--cached"));
    assert!(!has_flag(&args, "--cache"));
    assert!(!has_flag(&[], "-w"));
}

#[test]
fn last_value_of_a_flag_counts() {
    let flags = texts(&["-r", "--rev"]);
    let value = |list: &[&str]| last_flag_value(&texts(list), &flags);
    assert_eq!(value(&["-r", "1", "--rev=2"]), Some("2".to_owned()));
    assert_eq!(value(&["--rev=2", "-r", "1"]), Some("1".to_owned()));
    assert_eq!(value(&["-r=3"]), Some("3".to_owned()));
    assert_eq!(value(&["-r", "1", "-r"]), None);
    assert_eq!(value(&["x"]), None);
    assert_eq!(value(&["-r", "--rev=2"]), Some("--rev=2".to_owned()));
}

fn run(program: &str, args: &[&str]) -> FetchPlan {
    FetchPlan::Run {
        program: program.to_owned(),
        args: texts(args),
    }
}

#[test]
fn files_come_from_what_was_compared() {
    let fetcher = |backend, args: &[&str]| {
        FileFetcher::new(
            backend,
            texts(args),
            vec![("known".to_owned(), "abc123".to_owned())],
        )
    };
    let git = fetcher(Backend::Git, &[]);
    assert_eq!(git.fetch_right_file("known"), run("git", &["show", "abc123"]));
    assert_eq!(git.fetch_right_file("other"), FetchPlan::WorkingTree);
    let cached = fetcher(Backend::Git, &["--cached"]);
    assert_eq!(cached.fetch_right_file("other"), run("git", &["show", ":other"]));
    let staged = fetcher(Backend::Git, &["--staged"]);
    assert_eq!(staged.fetch_right_file("other"), run("git", &["show", ":other"]));
    let hg = fetcher(Backend::Hg, &["-r", "12"]);
    assert_eq!(
        hg.fetch_right_file("p"),
        run("hg", &["cat", "-r", "12", "p"])
    );
    assert_eq!(
        fetcher(Backend::Hg, &[]).fetch_right_file("p"),
        FetchPlan::WorkingTree
    );
    assert_eq!(
        fetcher(Backend::PlainDiff, &[]).fetch_right_file("p"),
        FetchPlan::WorkingDirectory
    );
}
