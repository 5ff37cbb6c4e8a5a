//! A report of what decides how a diff looks.

use crate::backend::Backend;
use crate::render::RenderMode;
use crate::terminal_palette::AnsiColor;
use crate::terminal_palette::BackgroundSource;
use crate::terminal_palette::Rgb;
use crate::terminal_palette::StdoutColorLevel;
use crate::terminal_palette::TintDiagnostics;
use crate::text;
use crate::text_laws;
use crate::text::push_decimal;
use vstd::prelude::*;

verus! {

broadcast use vstd::seq::group_seq_axioms;

/// What the report is about.
pub struct RageInfo {
    /// The working directory.
    pub cwd: String,
    pub backend: Backend,
    /// The root of the repository.
    pub root: Option<String>,
    /// The command line that is run.
    pub command: String,
    pub stdout_is_tty: bool,
    /// The columns and rows of the terminal.
    pub terminal_size: Option<(u16, u16)>,
    pub render_mode: RenderMode,
    pub tint: TintDiagnostics,
    /// Variables of the environment, with their values if they are set.
    pub env: Vec<(String, Option<String>)>,
}

/// The variables of the environment that matter, in the order in which they
/// are reported.
pub open spec fn reported_variables() -> Seq<Seq<char>> {
    seq![
        "TERM"@,
        "COLORTERM"@,
        "COLORFGBG"@,
        "TERM_PROGRAM"@,
        "TMUX"@,
        "INSIDE_EMACS"@,
    ]
}

/// The variables of the environment that matter.
pub fn variable_names() -> (names: Vec<String>)
    ensures
        text::texts(names@) == reported_variables(),
{
    let mut names: Vec<String> = Vec::new();
    names.push("TERM".to_owned());
    names.push("COLORTERM".to_owned());
    names.push("COLORFGBG".to_owned());
    names.push("TERM_PROGRAM".to_owned());
    names.push("TMUX".to_owned());
    names.push("INSIDE_EMACS".to_owned());
    assert(text::texts(names@) =~= reported_variables());
    names
}

// ---------------------------------------------------------------------------
// Values
// ---------------------------------------------------------------------------

/// A truth value as a text.
pub open spec fn bool_text(value: bool) -> Seq<char> {
    if value {
        "true"@
    } else {
        "false"@
    }
}

/// A color as a text.
pub open spec fn rgb_text(rgb: Option<Rgb>) -> Seq<char> {
    match rgb {
        Some((r, g, b)) => "("@ + text::decimal(r as nat) + ", "@ + text::decimal(g as nat) + ", "@
            + text::decimal(b as nat) + ")"@,
        None => "<none>"@,
    }
}

/// A color of the terminal as a text.
pub open spec fn ansi_color_text(color: Option<AnsiColor>) -> Seq<char> {
    match color {
        Some(AnsiColor::Rgb(r, g, b)) => "Rgb"@ + rgb_text(Some((r, g, b))),
        Some(AnsiColor::Indexed(index)) => "Indexed("@ + text::decimal(index as nat) + ")"@,
        None => "<none>"@,
    }
}

/// A size as a text.
pub open spec fn size_text(size: Option<(u16, u16)>) -> Seq<char> {
    match size {
        Some((columns, rows)) => text::decimal(columns as nat) + "x"@ + text::decimal(rows as nat),
        None => "<unknown>"@,
    }
}

/// A number of hundredths as a text with two decimal places.
pub open spec fn hundredths_text(value: Option<u8>) -> Seq<char> {
    match value {
        Some(value) => text::decimal((value / 100) as nat) + "."@ + text::decimal(
            ((value / 10) % 10) as nat,
        ) + text::decimal((value % 10) as nat),
        None => "<none>"@,
    }
}

/// The name of a backend.
pub open spec fn backend_text(backend: Backend) -> Seq<char> {
    match backend {
        Backend::Git => "Git"@,
        Backend::Hg => "Hg"@,
        Backend::PlainDiff => "PlainDiff"@,
    }
}

/// The name of a color level.
pub open spec fn level_text(level: StdoutColorLevel) -> Seq<char> {
    match level {
        StdoutColorLevel::TrueColor => "TrueColor"@,
        StdoutColorLevel::Ansi256 => "Ansi256"@,
        StdoutColorLevel::Ansi16 => "Ansi16"@,
        StdoutColorLevel::Unknown => "Unknown"@,
    }
}

/// The name of a source of the background.
pub open spec fn source_text(source: BackgroundSource) -> Seq<char> {
    match source {
        BackgroundSource::Queried => "Queried"@,
        BackgroundSource::Unavailable => "Unavailable"@,
        BackgroundSource::Failed => "Failed"@,
    }
}

/// An optional text, or what stands for it.
pub open spec fn text_or(value: Option<String>, missing: Seq<char>) -> Seq<char> {
    match value {
        Some(value) => value@,
        None => missing,
    }
}

/// How the sides are laid out.
pub open spec fn mode_text(mode: RenderMode) -> Seq<char> {
    bool_text(mode.side_by_side) + " (threshold > 120, width="@ + text::decimal(mode.width as nat)
        + ")"@
}

/// A color as a text.
pub fn format_rgb(rgb: Option<Rgb>) -> (text: String)
    ensures
        text@ == rgb_text(rgb),
{
    match rgb {
        Some((r, g, b)) => {
            let mut text = "(".to_owned();
            push_decimal(&mut text, r as usize);
            text.push_str(", ");
            push_decimal(&mut text, g as usize);
            text.push_str(", ");
            push_decimal(&mut text, b as usize);
            text.push_str(")");
            text
        },
        None => "<none>".to_owned(),
    }
}

/// A color of the terminal as a text.
pub fn format_ansi_color(color: Option<AnsiColor>) -> (text: String)
    ensures
        text@ == ansi_color_text(color),
{
    match color {
        Some(AnsiColor::Rgb(r, g, b)) => {
            let mut text = "Rgb".to_owned();
            text.push_str(format_rgb(Some((r, g, b))).as_str());
            text
        },
        Some(AnsiColor::Indexed(index)) => {
            let mut text = "Indexed(".to_owned();
            push_decimal(&mut text, index as usize);
            text.push_str(")");
            text
        },
        None => "<none>".to_owned(),
    }
}

/// The value of a variable of the environment as a text.
pub fn format_env(value: &Option<String>) -> (text: String)
    ensures
        text@ == text_or(*value, "<unset>"@),
{
    match value {
        Some(value) => value.clone(),
        None => "<unset>".to_owned(),
    }
}

/// A truth value as a text.
fn format_bool(value: bool) -> (text: String)
    ensures
        text@ == bool_text(value),
{
    if value {
        "true".to_owned()
    } else {
        "false".to_owned()
    }
}

/// A size as a text.
fn format_size(size: Option<(u16, u16)>) -> (text: String)
    ensures
        text@ == size_text(size),
{
    match size {
        Some((columns, rows)) => {
            let mut text = String::new();
            push_decimal(&mut text, columns as usize);
            text.push_str("x");
            push_decimal(&mut text, rows as usize);
            assert(text@ =~= size_text(size));
            text
        },
        None => "<unknown>".to_owned(),
    }
}

/// A number of hundredths as a text.
fn format_hundredths(value: Option<u8>) -> (text: String)
    ensures
        text@ == hundredths_text(value),
{
    match value {
        Some(hundredths) => {
            let mut text = String::new();
            push_decimal(&mut text, (hundredths / 100) as usize);
            text.push_str(".");
            push_decimal(&mut text, ((hundredths / 10) % 10) as usize);
            push_decimal(&mut text, (hundredths % 10) as usize);
            assert(text@ =~= hundredths_text(value));
            text
        },
        None => "<none>".to_owned(),
    }
}

/// The name of a backend.
fn backend_name(backend: Backend) -> (name: String)
    ensures
        name@ == backend_text(backend),
{
    match backend {
        Backend::Git => "Git".to_owned(),
        Backend::Hg => "Hg".to_owned(),
        Backend::PlainDiff => "PlainDiff".to_owned(),
    }
}

/// The name of a color level.
fn level_name(level: StdoutColorLevel) -> (name: String)
    ensures
        name@ == level_text(level),
{
    match level {
        StdoutColorLevel::TrueColor => "TrueColor".to_owned(),
        StdoutColorLevel::Ansi256 => "Ansi256".to_owned(),
        StdoutColorLevel::Ansi16 => "Ansi16".to_owned(),
        StdoutColorLevel::Unknown => "Unknown".to_owned(),
    }
}

/// The name of a source of the background.
fn source_name(source: BackgroundSource) -> (name: String)
    ensures
        name@ == source_text(source),
{
    match source {
        BackgroundSource::Queried => "Queried".to_owned(),
        BackgroundSource::Unavailable => "Unavailable".to_owned(),
        BackgroundSource::Failed => "Failed".to_owned(),
    }
}

// ---------------------------------------------------------------------------
// The report
// ---------------------------------------------------------------------------

/// A line of the report.
pub open spec fn report_line(label: Seq<char>, value: Seq<char>) -> Seq<char> {
    label + ": "@ + value + "\n"@
}

/// The lines about the first `n` variables of the environment.
pub open spec fn env_lines(env: Seq<(String, Option<String>)>, n: nat) -> Seq<char>
    decreases n,
{
    if n == 0 {
        Seq::empty()
    } else {
        let (name, value) = env[n - 1];
        env_lines(env, (n - 1) as nat) + report_line("env "@ + name@, text_or(value, "<unset>"@))
    }
}

/// The lines about the repository and the terminal.
pub open spec fn setting_lines(info: RageInfo) -> Seq<char> {
    report_line("cwd"@, info.cwd@) + report_line("backend"@, backend_text(info.backend))
        + report_line("repository root"@, text_or(info.root, "<none>"@)) + report_line(
        "backend command"@,
        info.command@,
    ) + report_line("stdout is tty"@, bool_text(info.stdout_is_tty)) + report_line(
        "terminal size"@,
        size_text(info.terminal_size),
    ) + report_line("side by side"@, mode_text(info.render_mode))
}

/// The lines about the tint.
pub open spec fn tint_lines(tint: TintDiagnostics) -> Seq<char> {
    report_line("supports-color stdout level"@, level_text(tint.stdout_color_level)) + report_line(
        "crossterm bg query error"@,
        match tint.query_error {
            Some(error) => error@,
            None => "<none>"@,
        },
    ) + report_line("queried bg (8-bit rgb)"@, rgb_text(tint.queried_bg)) + report_line(
        "bg source"@,
        source_text(tint.bg_source),
    ) + report_line("effective bg"@, rgb_text(tint.effective_bg)) + report_line(
        "is light background"@,
        match tint.is_light {
            Some(light) => bool_text(light),
            None => "<unknown>"@,
        },
    ) + report_line("overlay rgb"@, rgb_text(tint.overlay)) + report_line(
        "overlay alpha"@,
        hundredths_text(tint.alpha),
    ) + report_line("blended tint rgb"@, rgb_text(tint.blended_rgb)) + report_line(
        "final tint color"@,
        ansi_color_text(tint.final_color),
    )
}

/// The whole report.
pub open spec fn report_text(info: RageInfo) -> Seq<char> {
    "mdiff rage\n"@ + setting_lines(info) + tint_lines(info.tint) + env_lines(
        info.env@,
        info.env@.len(),
    )
}

/// Appends a line of the report.
fn push_report_line(out: &mut String, label: &str, value: &str)
    ensures
        final(out)@ == old(out)@ + report_line(label@, value@),
{
    let ghost before = out@;
    out.push_str(label);
    out.push_str(": ");
    out.push_str(value);
    out.push_str("\n");
    assert(out@ =~= before + report_line(label@, value@));
}

/// Appends the lines about the repository and the terminal.
fn push_setting_lines(out: &mut String, info: &RageInfo)
    ensures
        final(out)@ == old(out)@ + setting_lines(*info),
{
    let ghost before = out@;
    push_report_line(out, "cwd", info.cwd.as_str());
    push_report_line(out, "backend", backend_name(info.backend).as_str());
    let root = match &info.root {
        Some(root) => root.clone(),
        None => "<none>".to_owned(),
    };
    push_report_line(out, "repository root", root.as_str());
    push_report_line(out, "backend command", info.command.as_str());
    push_report_line(out, "stdout is tty", format_bool(info.stdout_is_tty).as_str());
    push_report_line(out, "terminal size", format_size(info.terminal_size).as_str());
    let mut mode = format_bool(info.render_mode.side_by_side);
    mode.push_str(" (threshold > 120, width=");
    push_decimal(&mut mode, info.render_mode.width);
    mode.push_str(")");
    push_report_line(out, "side by side", mode.as_str());
    assert(out@ =~= before + setting_lines(*info));
}

/// Appends the lines about the tint.
#[verifier::rlimit(30)]
fn push_tint_lines(out: &mut String, tint: &TintDiagnostics)
    ensures
        final(out)@ == old(out)@ + tint_lines(*tint),
{
    let ghost before = out@;
    push_report_line(
        out,
        "supports-color stdout level",
        level_name(tint.stdout_color_level).as_str(),
    );
    let error = match tint.query_error {
        Some(error) => error,
        None => "<none>",
    };
    push_report_line(out, "crossterm bg query error", error);
    push_report_line(out, "queried bg (8-bit rgb)", format_rgb(tint.queried_bg).as_str());
    push_report_line(out, "bg source", source_name(tint.bg_source).as_str());
    push_report_line(out, "effective bg", format_rgb(tint.effective_bg).as_str());
    let light = match tint.is_light {
        Some(light) => format_bool(light),
        None => "<unknown>".to_owned(),
    };
    push_report_line(out, "is light background", light.as_str());
    push_report_line(out, "overlay rgb", format_rgb(tint.overlay).as_str());
    push_report_line(out, "overlay alpha", format_hundredths(tint.alpha).as_str());
    push_report_line(out, "blended tint rgb", format_rgb(tint.blended_rgb).as_str());
    push_report_line(out, "final tint color", format_ansi_color(tint.final_color).as_str());
    assert(out@ =~= before + tint_lines(*tint));
}

/// The report about `info`.
pub fn report(info: &RageInfo) -> (out: String)
    ensures
        out@ == report_text(*info),
{
    let mut out = "mdiff rage\n".to_owned();
    push_setting_lines(&mut out, info);
    push_tint_lines(&mut out, &info.tint);
    let ghost head = out@;
    let mut index: usize = 0;
    assert(out@ =~= head + env_lines(info.env@, 0));
    while index < info.env.len()
        invariant
            index <= info.env@.len(),
            out@ == head + env_lines(info.env@, index as nat),
        decreases info.env@.len() - index,
    {
        let ghost before = out@;
        let mut label = "env ".to_owned();
        label.push_str(info.env[index].0.as_str());
        push_report_line(&mut out, label.as_str(), format_env(&info.env[index].1).as_str());
        index += 1;
        assert(out@ =~= head + env_lines(info.env@, index as nat));
    }
    out
}

// ---------------------------------------------------------------------------
// Laws
// ---------------------------------------------------------------------------

/// Whether `report` has a line that says `value` of `label`.
pub open spec fn tells(report: Seq<char>, label: Seq<char>, value: Seq<char>) -> bool {
    text::contains(report, label + seq![':', ' '] + value + seq!['\n'])
}

proof fn lemma_tells(label: Seq<char>, value: Seq<char>, before: Seq<char>, behind: Seq<char>)
    ensures
        tells(before + report_line(label, value) + behind, label, value),
{
    reveal_strlit(": ");
    reveal_strlit("\n");
    assert(": "@ =~= seq![':', ' ']);
    assert("\n"@ =~= seq!['\n']);
    text_laws::lemma_middle_is_contained(
        before,
        label + seq![':', ' '] + value + seq!['\n'],
        behind,
    );
}

proof fn lemma_still_tells(
    before: Seq<char>,
    part: Seq<char>,
    behind: Seq<char>,
    label: Seq<char>,
    value: Seq<char>,
)
    requires
        tells(part, label, value),
    ensures
        tells(before + part + behind, label, value),
{
    let line = label + seq![':', ' '] + value + seq!['\n'];
    let around = text_laws::lemma_contained_is_middle(part, line);
    text_laws::lemma_middle_is_contained(before + around.0, line, around.1 + behind);
    assert(before + part + behind =~= before + around.0 + line + (around.1 + behind));
}

spec fn joined(list: Seq<Seq<char>>) -> Seq<char>
    decreases list.len(),
{
    if list.len() == 0 {
        Seq::empty()
    } else {
        joined(list.drop_last()) + list.last()
    }
}

proof fn lemma_joined_tells(list: Seq<Seq<char>>, i: int, label: Seq<char>, value: Seq<char>)
    requires
        0 <= i < list.len(),
        list[i] == report_line(label, value),
    ensures
        tells(joined(list), label, value),
    decreases list.len(),
{
    let none = Seq::<char>::empty();
    let before = joined(list.drop_last());
    if i == list.len() - 1 {
        lemma_tells(label, value, before, none);
        assert(before + list.last() + none =~= joined(list));
    } else {
        assert(list.drop_last()[i] == list[i]);
        lemma_joined_tells(list.drop_last(), i, label, value);
        lemma_still_tells(none, before, list.last(), label, value);
        assert(none + before + list.last() =~= joined(list));
    }
}

proof fn lemma_joined_push(list: Seq<Seq<char>>, line: Seq<char>)
    ensures
        joined(list.push(line)) == joined(list) + line,
{
    assert(list.push(line).drop_last() =~= list);
}

spec fn setting_list(info: RageInfo) -> Seq<Seq<char>> {
    Seq::<Seq<char>>::empty().push(report_line("cwd"@, info.cwd@)).push(
        report_line("backend"@, backend_text(info.backend)),
    ).push(report_line("repository root"@, text_or(info.root, "<none>"@))).push(
        report_line("backend command"@, info.command@),
    ).push(report_line("stdout is tty"@, bool_text(info.stdout_is_tty))).push(
        report_line("terminal size"@, size_text(info.terminal_size)),
    ).push(report_line("side by side"@, mode_text(info.render_mode)))
}

proof fn lemma_setting_list(info: RageInfo)
    ensures
        joined(setting_list(info)) == setting_lines(info),
{
    let l0 = Seq::<Seq<char>>::empty();
    let l1 = l0.push(report_line("cwd"@, info.cwd@));
    let l2 = l1.push(report_line("backend"@, backend_text(info.backend)));
    let l3 = l2.push(report_line("repository root"@, text_or(info.root, "<none>"@)));
    let l4 = l3.push(report_line("backend command"@, info.command@));
    let l5 = l4.push(report_line("stdout is tty"@, bool_text(info.stdout_is_tty)));
    let l6 = l5.push(report_line("terminal size"@, size_text(info.terminal_size)));
    lemma_joined_push(l0, l1.last());
    lemma_joined_push(l1, l2.last());
    lemma_joined_push(l2, l3.last());
    lemma_joined_push(l3, l4.last());
    lemma_joined_push(l4, l5.last());
    lemma_joined_push(l5, l6.last());
    lemma_joined_push(l6, report_line("side by side"@, mode_text(info.render_mode)));
    assert(joined(l0) + l1.last() =~= l1.last());
}

spec fn tint_list(tint: TintDiagnostics) -> Seq<Seq<char>> {
    Seq::<Seq<char>>::empty().push(
        report_line("supports-color stdout level"@, level_text(tint.stdout_color_level)),
    ).push(
        report_line(
            "crossterm bg query error"@,
            match tint.query_error {
                Some(error) => error@,
                None => "<none>"@,
            },
        ),
    ).push(report_line("queried bg (8-bit rgb)"@, rgb_text(tint.queried_bg))).push(
        report_line("bg source"@, source_text(tint.bg_source)),
    ).push(report_line("effective bg"@, rgb_text(tint.effective_bg))).push(
        report_line(
            "is light background"@,
            match tint.is_light {
                Some(light) => bool_text(light),
                None => "<unknown>"@,
            },
        ),
    ).push(report_line("overlay rgb"@, rgb_text(tint.overlay))).push(
        report_line("overlay alpha"@, hundredths_text(tint.alpha)),
    ).push(report_line("blended tint rgb"@, rgb_text(tint.blended_rgb))).push(
        report_line("final tint color"@, ansi_color_text(tint.final_color)),
    )
}

proof fn lemma_tint_list(tint: TintDiagnostics)
    ensures
        joined(tint_list(tint)) == tint_lines(tint),
{
    let all = tint_list(tint);
    assert(all.len() == 10);
    let l0 = Seq::<Seq<char>>::empty();
    let l1 = l0.push(all[0]);
    let l2 = l1.push(all[1]);
    let l3 = l2.push(all[2]);
    let l4 = l3.push(all[3]);
    let l5 = l4.push(all[4]);
    let l6 = l5.push(all[5]);
    let l7 = l6.push(all[6]);
    let l8 = l7.push(all[7]);
    let l9 = l8.push(all[8]);
    lemma_joined_push(l0, all[0]);
    lemma_joined_push(l1, all[1]);
    lemma_joined_push(l2, all[2]);
    lemma_joined_push(l3, all[3]);
    lemma_joined_push(l4, all[4]);
    lemma_joined_push(l5, all[5]);
    lemma_joined_push(l6, all[6]);
    lemma_joined_push(l7, all[7]);
    lemma_joined_push(l8, all[8]);
    lemma_joined_push(l9, all[9]);
    assert(l9.push(all[9]) =~= all);
    assert(joined(l0) + all[0] =~= all[0]);
}

proof fn lemma_settings_told(info: RageInfo, i: int, label: Seq<char>, value: Seq<char>)
    requires
        0 <= i < setting_list(info).len(),
        setting_list(info)[i] == report_line(label, value),
    ensures
        tells(report_text(info), label, value),
{
    lemma_setting_list(info);
    lemma_joined_tells(setting_list(info), i, label, value);
    let rest = tint_lines(info.tint) + env_lines(info.env@, info.env@.len());
    lemma_still_tells("mdiff rage\n"@, setting_lines(info), rest, label, value);
    assert("mdiff rage\n"@ + setting_lines(info) + rest =~= report_text(info));
}

proof fn lemma_tint_told(info: RageInfo, i: int, label: Seq<char>, value: Seq<char>)
    requires
        0 <= i < tint_list(info.tint).len(),
        tint_list(info.tint)[i] == report_line(label, value),
    ensures
        tells(report_text(info), label, value),
{
    lemma_tint_list(info.tint);
    lemma_joined_tells(tint_list(info.tint), i, label, value);
    let above = "mdiff rage\n"@ + setting_lines(info);
    let below = env_lines(info.env@, info.env@.len());
    lemma_still_tells(above, tint_lines(info.tint), below, label, value);
}

/// The report tells where the command runs, in which repository, what is run, and
/// what the terminal is like.
pub proof fn lemma_report_tells_settings(info: RageInfo)
    ensures
        tells(report_text(info), "cwd"@, info.cwd@),
        tells(report_text(info), "backend"@, backend_text(info.backend)),
        tells(
            report_text(info),
            "repository root"@,
            match info.root {
                Some(root) => root@,
                None => "<none>"@,
            },
        ),
        tells(report_text(info), "backend command"@, info.command@),
        tells(
            report_text(info),
            "stdout is tty"@,
            if info.stdout_is_tty {
                "true"@
            } else {
                "false"@
            },
        ),
        tells(
            report_text(info),
            "terminal size"@,
            match info.terminal_size {
                Some((columns, rows)) => text::decimal(columns as nat) + seq!['x'] + text::decimal(
                    rows as nat,
                ),
                None => "<unknown>"@,
            },
        ),
        tells(report_text(info), "side by side"@, mode_text(info.render_mode)),
{
    reveal_strlit("x");
    assert("x"@ =~= seq!['x']);
    lemma_settings_told(info, 0, "cwd"@, info.cwd@);
    lemma_settings_told(info, 1, "backend"@, backend_text(info.backend));
    lemma_settings_told(info, 2, "repository root"@, text_or(info.root, "<none>"@));
    lemma_settings_told(info, 3, "backend command"@, info.command@);
    lemma_settings_told(info, 4, "stdout is tty"@, bool_text(info.stdout_is_tty));
    lemma_settings_told(info, 5, "terminal size"@, size_text(info.terminal_size));
    lemma_settings_told(info, 6, "side by side"@, mode_text(info.render_mode));
}

/// The report tells what became of the tint, from the query of the background to
/// the color that is used.
pub proof fn lemma_report_tells_tint(info: RageInfo)
    ensures
        tells(
            report_text(info),
            "supports-color stdout level"@,
            level_text(info.tint.stdout_color_level),
        ),
        tells(
            report_text(info),
            "crossterm bg query error"@,
            match info.tint.query_error {
                Some(error) => error@,
                None => "<none>"@,
            },
        ),
        tells(report_text(info), "queried bg (8-bit rgb)"@, rgb_text(info.tint.queried_bg)),
        tells(report_text(info), "bg source"@, source_text(info.tint.bg_source)),
        tells(report_text(info), "effective bg"@, rgb_text(info.tint.effective_bg)),
        tells(
            report_text(info),
            "is light background"@,
            match info.tint.is_light {
                Some(light) => if light {
                    "true"@
                } else {
                    "false"@
                },
                None => "<unknown>"@,
            },
        ),
        tells(report_text(info), "overlay rgb"@, rgb_text(info.tint.overlay)),
        tells(report_text(info), "overlay alpha"@, hundredths_text(info.tint.alpha)),
        tells(report_text(info), "blended tint rgb"@, rgb_text(info.tint.blended_rgb)),
        tells(report_text(info), "final tint color"@, ansi_color_text(info.tint.final_color)),
{
    let tint = info.tint;
    let error = match tint.query_error {
        Some(error) => error@,
        None => "<none>"@,
    };
    let light = match tint.is_light {
        Some(light) => bool_text(light),
        None => "<unknown>"@,
    };
    lemma_tint_told(info, 0, "supports-color stdout level"@, level_text(tint.stdout_color_level));
    lemma_tint_told(info, 1, "crossterm bg query error"@, error);
    lemma_tint_told(info, 2, "queried bg (8-bit rgb)"@, rgb_text(tint.queried_bg));
    lemma_tint_told(info, 3, "bg source"@, source_text(tint.bg_source));
    lemma_tint_told(info, 4, "effective bg"@, rgb_text(tint.effective_bg));
    lemma_tint_told(info, 5, "is light background"@, light);
    lemma_tint_told(info, 6, "overlay rgb"@, rgb_text(tint.overlay));
    lemma_tint_told(info, 7, "overlay alpha"@, hundredths_text(tint.alpha));
    lemma_tint_told(info, 8, "blended tint rgb"@, rgb_text(tint.blended_rgb));
    lemma_tint_told(info, 9, "final tint color"@, ansi_color_text(tint.final_color));
}

proof fn lemma_env_told(env: Seq<(String, Option<String>)>, n: nat, i: int)
    requires
        0 <= i < n <= env.len(),
    ensures
        tells(env_lines(env, n), "env "@ + env[i].0@, text_or(env[i].1, "<unset>"@)),
    decreases n,
{
    let none = Seq::<char>::empty();
    let before = env_lines(env, (n - 1) as nat);
    let label = "env "@ + env[i].0@;
    let value = text_or(env[i].1, "<unset>"@);
    if i == n - 1 {
        lemma_tells(label, value, before, none);
        assert(before + report_line(label, value) + none =~= env_lines(env, n));
    } else {
        lemma_env_told(env, (n - 1) as nat, i);
        let last = report_line("env "@ + env[n - 1].0@, text_or(env[n - 1].1, "<unset>"@));
        lemma_still_tells(none, before, last, label, value);
        assert(none + before + last =~= env_lines(env, n));
    }
}

/// The report tells the value of each variable of the environment that was looked
/// at, or that it has none.
pub proof fn lemma_report_tells_environment(info: RageInfo, i: int)
    requires
        0 <= i < info.env@.len(),
    ensures
        tells(
            report_text(info),
            seq!['e', 'n', 'v', ' '] + info.env@[i].0@,
            match info.env@[i].1 {
                Some(value) => value@,
                None => "<unset>"@,
            },
        ),
{
    reveal_strlit("env ");
    assert("env "@ =~= seq!['e', 'n', 'v', ' ']);
    lemma_env_told(info.env@, info.env@.len(), i);
    let none = Seq::<char>::empty();
    let above = "mdiff rage\n"@ + setting_lines(info) + tint_lines(info.tint);
    let lines = env_lines(info.env@, info.env@.len());
    let label = "env "@ + info.env@[i].0@;
    let value = text_or(info.env@[i].1, "<unset>"@);
    lemma_still_tells(above, lines, none, label, value);
    assert(above + lines + none =~= report_text(info));
}

/// How values are told: a color by its three parts, or by its number, an opacity
/// with two decimal places, and the layout with the width that it is for.
pub proof fn lemma_values_are_told(r: u8, g: u8, b: u8, hundredths: u8, mode: RenderMode)
    ensures
        rgb_text(Some((r, g, b))) == seq!['('] + text::decimal(r as nat) + seq![',', ' ']
            + text::decimal(g as nat) + seq![',', ' '] + text::decimal(b as nat) + seq![')'],
        ansi_color_text(Some(AnsiColor::Rgb(r, g, b))) == seq!['R', 'g', 'b'] + rgb_text(
            Some((r, g, b)),
        ),
        ansi_color_text(Some(AnsiColor::Indexed(r))) == "Indexed("@ + text::decimal(r as nat)
            + seq![')'],
        rgb_text(None) == "<none>"@,
        ansi_color_text(None) == "<none>"@,
        hundredths_text(None) == "<none>"@,
        hundredths_text(Some(hundredths)).len() == 4,
        ({
            let told = hundredths_text(Some(hundredths));
            &&& told[1] == '.'
            &&& text::digit_value(told[0]) * 100 + text::digit_value(told[2]) * 10
                + text::digit_value(told[3]) == hundredths
            &&& text::is_digit(told[0]) && text::is_digit(told[2]) && text::is_digit(told[3])
        }),
        mode_text(mode) == (if mode.side_by_side {
            "true"@
        } else {
            "false"@
        }) + " (threshold > 120, width="@ + text::decimal(mode.width as nat) + seq![')'],
{
    reveal_strlit("(");
    reveal_strlit(", ");
    reveal_strlit(")");
    reveal_strlit("Rgb");
    reveal_strlit(".");
    assert("("@ =~= seq!['(']);
    assert(", "@ =~= seq![',', ' ']);
    assert(")"@ =~= seq![')']);
    assert("Rgb"@ =~= seq!['R', 'g', 'b']);
}

} // verus!
