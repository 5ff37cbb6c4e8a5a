//! The pieces that a rendered line is made of.

use crate::terminal_palette::AnsiColor;
use crate::text;
use crate::text::decimal_string;
use crate::text::push_decimal;
use crate::text::push_spaces;
use crate::width;
use crate::width::clip_text;
use crate::width::text_columns;
use crate::width::TAB_STOP;
use vstd::prelude::*;

verus! {

broadcast use vstd::seq::group_seq_axioms;

/// The fewest columns that line numbers get.
pub const MIN_LINE_NUMBER_WIDTH: usize = 4;

/// The columns between two neighbouring panes.
pub const PANE_GAP: usize = 2;

/// Text with a background.
#[derive(Clone, Debug, Eq, PartialEq)]
pub struct StyledLine {
    pub text: String,
    pub background: Option<AnsiColor>,
}

impl Default for StyledLine {
    fn default() -> (line: Self)
        ensures
            line.text@ == Seq::<char>::empty(),
            line.background is None,
    {
        StyledLine { text: String::new(), background: None }
    }
}

/// The columns of `text` where a tab takes a whole tab stop.
pub open spec fn shown_columns(text: Seq<char>) -> nat {
    width::columns(text, TAB_STOP as nat)
}

/// The beginning of `text` that fits into `width` columns.
pub open spec fn clipped(text: Seq<char>, width: nat) -> Seq<char> {
    width::clip(text, width, TAB_STOP as nat)
}

/// `text` with its tabs expanded from the first column on.
pub open spec fn expanded(text: Seq<char>) -> Seq<char> {
    width::expand_tabs_from(text, 0)
}

/// Whether the columns of `text` can be counted.
pub open spec fn countable(text: Seq<char>) -> bool {
    width::countable(text, TAB_STOP as nat)
}

/// The columns of `text`.
pub fn display_width(text: &str) -> (columns: usize)
    requires
        countable(text@),
    ensures
        columns == shown_columns(text@),
{
    text_columns(text, TAB_STOP)
}

/// Cuts `text` to `width` columns.
pub fn clip_plain_text(text: &str, width: usize) -> (result: String)
    requires
        countable(text@),
    ensures
        result@ == clipped(text@, width as nat),
{
    clip_text(text, width, TAB_STOP)
}

/// The number of decimal digits of `value`.
pub fn digit_count(value: usize) -> (count: usize)
    ensures
        count == text::decimal(value as nat).len(),
        1 <= count <= 20,
        value < 10 ==> count == 1,
{
    proof {
        lemma_decimal_len(value as nat);
    }
    let mut count: usize = 1;
    let mut rest: usize = value;
    while rest >= 10
        invariant
            text::decimal(value as nat).len() == count - 1 + text::decimal(rest as nat).len(),
            text::decimal(value as nat).len() <= 20,
            1 <= count,
            value < 10 ==> rest < 10 && count == 1,
        decreases rest,
    {
        proof {
            lemma_decimal_len((rest / 10) as nat);
        }
        rest = rest / 10;
        count += 1;
    }
    count
}

/// Ten to the power of `n`.
pub open spec fn power_of_ten(n: nat) -> nat
    decreases n,
{
    if n == 0 {
        1
    } else {
        10 * power_of_ten((n - 1) as nat)
    }
}

/// A number below a power of ten has no more digits than the power.
pub proof fn lemma_decimal_below_power(value: nat, digits: nat)
    requires
        1 <= digits,
        value < power_of_ten(digits),
    ensures
        1 <= text::decimal(value).len() <= digits,
    decreases digits,
{
    if value >= 10 {
        if digits == 1 {
            assert(power_of_ten(0) == 1);
            assert(power_of_ten(1) == 10);
        } else {
            assert(power_of_ten(digits) == 10 * power_of_ten((digits - 1) as nat));
            lemma_decimal_below_power(value / 10, (digits - 1) as nat);
        }
    }
}

/// No number that a `usize` holds has more than twenty digits.
pub proof fn lemma_decimal_len(value: nat)
    requires
        value <= usize::MAX,
    ensures
        1 <= text::decimal(value).len() <= 20,
{
    assert(power_of_ten(20) == 100000000000000000000) by {
        reveal_with_fuel(power_of_ten, 21);
    }
    lemma_decimal_below_power(value, 20);
}

/// Decimal digits are no tabs.
pub proof fn lemma_decimal_has_no_tabs(value: nat)
    ensures
        width::no_tabs(text::decimal(value)),
    decreases value,
{
    if value >= 10 {
        lemma_decimal_has_no_tabs(value / 10);
        let all = text::decimal(value);
        assert forall|i: int| 0 <= i < all.len() implies #[trigger] all[i] != '\t' by {
            if i < all.len() - 1 {
                assert(all[i] == text::decimal(value / 10)[i]);
            }
        }
    }
}

/// The label of a line number, which may be missing.
pub open spec fn number_label(number: Option<nat>) -> Seq<char> {
    match number {
        Some(number) => text::decimal(number),
        None => Seq::empty(),
    }
}

/// The label of a line number on the right, empty if there is none.
pub fn format_right_line_number(right: Option<usize>) -> (label: String)
    ensures
        label@ == number_label(
            match right {
                Some(line) => Some(line as nat),
                None => None,
            },
        ),
{
    match right {
        Some(line) => decimal_string(line),
        None => String::new(),
    }
}

/// The escape sequence that sets a background.
pub open spec fn bg_code(color: AnsiColor) -> Seq<char> {
    match color {
        AnsiColor::Indexed(index) => "\u{1b}[48;5;"@ + text::decimal(index as nat) + "m"@,
        AnsiColor::Rgb(r, g, b) => "\u{1b}[48;2;"@ + text::decimal(r as nat) + ";"@ + text::decimal(
            g as nat,
        ) + ";"@ + text::decimal(b as nat) + "m"@,
    }
}

/// The escape sequence that sets a foreground.
pub open spec fn fg_code(color: AnsiColor) -> Seq<char> {
    match color {
        AnsiColor::Indexed(index) => "\u{1b}[38;5;"@ + text::decimal(index as nat) + "m"@,
        AnsiColor::Rgb(r, g, b) => "\u{1b}[38;2;"@ + text::decimal(r as nat) + ";"@ + text::decimal(
            g as nat,
        ) + ";"@ + text::decimal(b as nat) + "m"@,
    }
}

/// The escape sequence that sets the background to `color`.
pub fn ansi_bg(color: AnsiColor) -> (code: String)
    ensures
        code@ == bg_code(color),
{
    let mut code: String;
    match color {
        AnsiColor::Indexed(index) => {
            code = "\u{1b}[48;5;".to_owned();
            push_decimal(&mut code, index as usize);
        },
        AnsiColor::Rgb(r, g, b) => {
            code = "\u{1b}[48;2;".to_owned();
            push_decimal(&mut code, r as usize);
            code.push_str(";");
            push_decimal(&mut code, g as usize);
            code.push_str(";");
            push_decimal(&mut code, b as usize);
        },
    }
    code.push_str("m");
    code
}

/// The escape sequence that sets the foreground to `color`.
pub fn ansi_fg(color: AnsiColor) -> (code: String)
    ensures
        code@ == fg_code(color),
{
    let mut code: String;
    match color {
        AnsiColor::Indexed(index) => {
            code = "\u{1b}[38;5;".to_owned();
            push_decimal(&mut code, index as usize);
        },
        AnsiColor::Rgb(r, g, b) => {
            code = "\u{1b}[38;2;".to_owned();
            push_decimal(&mut code, r as usize);
            code.push_str(";");
            push_decimal(&mut code, g as usize);
            code.push_str(";");
            push_decimal(&mut code, b as usize);
        },
    }
    code.push_str("m");
    code
}

/// A file path in bold.
pub open spec fn header_line(path: Seq<char>) -> Seq<char> {
    "\u{1b}[1m"@ + path + "\u{1b}[0m"@
}

/// A file path in bold.
pub fn render_file_header(path: &str) -> (line: String)
    ensures
        line@ == header_line(path@),
{
    let mut line = "\u{1b}[1m".to_owned();
    line.push_str(path);
    line.push_str("\u{1b}[0m");
    line
}

/// The picture of a spinner at `frame`.
pub open spec fn spinner(frame: nat) -> char {
    if frame % 4 == 0 {
        '⠁'
    } else if frame % 4 == 2 {
        '⠄'
    } else {
        '⠂'
    }
}

/// The picture of a spinner at `frame`: four frames, over and over.
pub fn spinner_glyph(frame: usize) -> (glyph: char)
    ensures
        glyph == spinner(frame as nat),
{
    let phase: usize = frame % 4;
    if phase == 0 {
        '⠁'
    } else if phase == 2 {
        '⠄'
    } else {
        '⠂'
    }
}

/// `text` cut to `width` columns and filled up with spaces.
pub open spec fn plain_cell(text: Seq<char>, width: nat) -> Seq<char> {
    clipped(text, width) + text::spaces((width - shown_columns(clipped(text, width))) as nat)
}

/// Cuts `text` to `width` columns and fills it up with spaces.
pub fn render_plain_cell(text: &str, width: usize) -> (cell: String)
    requires
        countable(text@),
    ensures
        cell@ == plain_cell(text@, width as nat),
{
    let mut cell = clip_plain_text(text, width);
    proof {
        width::lemma_clip(text@, width as nat, TAB_STOP as nat);
        width::lemma_countable_prefix(text@, cell@.len() as int, TAB_STOP as nat);
    }
    let used = display_width(cell.as_str());
    push_spaces(&mut cell, width - used);
    cell
}

/// `marker` in the middle of `width` columns.
pub open spec fn marker_cell(width: nat, marker: char) -> Seq<char> {
    let room = if width == 0 {
        0
    } else {
        (width - 1) as nat
    };
    text::spaces(room / 2) + seq![marker] + text::spaces((room - room / 2) as nat)
}

/// Puts `marker` in the middle of `width` columns.
pub fn render_marker_cell(width: usize, marker: char) -> (cell: String)
    ensures
        cell@ == marker_cell(width as nat, marker),
{
    let left_pad: usize = width.saturating_sub(1) / 2;
    let right_pad: usize = width.saturating_sub(1 + left_pad);
    let mut cell = String::new();
    push_spaces(&mut cell, left_pad);
    cell.push(marker);
    push_spaces(&mut cell, right_pad);
    assert(cell@ =~= marker_cell(width as nat, marker));
    cell
}

/// `label` in bold in the middle of `width` columns.
pub open spec fn center_cell(label: Seq<char>, width: nat) -> Seq<char> {
    let visible = clipped(label, width);
    let room = (width - shown_columns(visible)) as nat;
    "\u{1b}[1m"@ + text::spaces(room / 2) + visible + text::spaces((room - room / 2) as nat)
        + "\u{1b}[0m"@
}

/// Puts `label` in bold in the middle of `width` columns.
pub fn render_center_number(label: &str, width: usize) -> (cell: String)
    requires
        countable(label@),
    ensures
        cell@ == center_cell(label@, width as nat),
{
    let visible = clip_plain_text(label, width);
    proof {
        width::lemma_clip(label@, width as nat, TAB_STOP as nat);
        width::lemma_countable_prefix(label@, visible@.len() as int, TAB_STOP as nat);
    }
    let used = display_width(visible.as_str());
    let left_pad: usize = (width - used) / 2;
    let right_pad: usize = width - (used + left_pad);
    let mut cell = "\u{1b}[1m".to_owned();
    push_spaces(&mut cell, left_pad);
    cell.push_str(visible.as_str());
    push_spaces(&mut cell, right_pad);
    cell.push_str("\u{1b}[0m");
    cell
}

/// Dim text; nothing where there is none.
pub open spec fn dimmed(text: Seq<char>) -> Seq<char> {
    if text.len() == 0 {
        text
    } else {
        "\u{1b}[2m"@ + text + "\u{1b}[0m"@
    }
}

/// Makes `text` dim.
pub fn render_dimmed(text: &str) -> (cell: String)
    ensures
        cell@ == dimmed(text@),
{
    if text.is_empty() {
        return text.to_owned();
    }
    let mut cell = "\u{1b}[2m".to_owned();
    cell.push_str(text);
    cell.push_str("\u{1b}[0m");
    cell
}

/// `text` cut to `width` columns, on `background`; nothing where nothing is
/// left of it.
pub open spec fn styled_cell(
    text: Seq<char>,
    background: Option<AnsiColor>,
    width: nat,
) -> Seq<char> {
    let visible = clipped(text, width);
    if visible.len() == 0 {
        Seq::empty()
    } else {
        match background {
            Some(color) => bg_code(color) + visible + "\u{1b}[0m"@,
            None => visible,
        }
    }
}

/// Cuts a styled line to `width` columns.
pub fn render_styled_cell(line: &StyledLine, width: usize) -> (cell: String)
    requires
        countable(line.text@),
    ensures
        cell@ == styled_cell(line.text@, line.background, width as nat),
{
    let visible = clip_plain_text(line.text.as_str(), width);
    if visible.as_str().is_empty() {
        return String::new();
    }
    match line.background {
        Some(color) => {
            let mut cell = ansi_bg(color);
            cell.push_str(visible.as_str());
            cell.push_str("\u{1b}[0m");
            cell
        },
        None => visible,
    }
}

} // verus!
