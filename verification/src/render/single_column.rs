//! The lines of a diff in a single column.

use super::cells;
use super::cells::ansi_bg;
use super::cells::digit_count;
use super::cells::spinner_glyph;
use super::lines;
use super::lines::RenderedDocument;
use super::TintPalette;
use crate::text;
use crate::text::push_decimal;
use crate::text::push_spaces;
use crate::width;
use crate::width::expand_tabs;
use vstd::prelude::*;

verus! {

broadcast use vstd::seq::group_seq_axioms;

/// A line number at the right end of `width` columns.
pub open spec fn number_cell(number: nat, width: nat) -> Seq<char> {
    text::pad_left(text::decimal(number), width)
}

/// A marker at the right end of the columns of the line numbers.
pub open spec fn marker_line(width: nat, marker: char) -> Seq<char> {
    text::pad_left(seq![marker], width)
}

/// A line that both sides have.
pub open spec fn context_line(number: nat, line: Seq<char>, width: nat) -> Seq<char> {
    number_cell(number, width) + "  "@ + cells::expanded(line)
}

/// A line that is gone: dim, on the background of the palette, or behind a
/// minus sign where there is no background.
pub open spec fn deleted_line(
    number: nat,
    line: Seq<char>,
    width: nat,
    palette: TintPalette,
) -> Seq<char> {
    let payload = "\u{1b}[2m"@ + cells::expanded(line) + "\u{1b}[0m"@;
    match palette.changed_line_bg {
        Some(color) => cells::bg_code(color) + number_cell(number, width) + "  "@ + payload,
        None => number_cell(number, width) + " -"@ + payload,
    }
}

/// A line that is new: behind a mark in the color of the palette, if it has
/// one. A space stands for an empty line behind such a mark.
pub open spec fn inserted_line(
    number: nat,
    line: Seq<char>,
    width: nat,
    palette: TintPalette,
) -> Seq<char> {
    let payload = cells::expanded(line);
    match palette.gutter_fg {
        Some(color) => number_cell(number, width) + " "@ + cells::bg_code(color) + " \u{1b}[0m"@
            + if payload.len() == 0 {
            " "@
        } else {
            payload
        },
        None => number_cell(number, width) + " "@ + " "@ + payload,
    }
}

/// Appends `number` at the right end of `width` columns.
fn push_line_number(line: &mut String, number: usize, width: usize)
    ensures
        final(line)@ == old(line)@ + number_cell(number as nat, width as nat),
{
    let ghost before = line@;
    let digits = digit_count(number);
    if digits < width {
        push_spaces(line, width - digits);
    }
    push_decimal(line, number);
    assert(line@ =~= before + number_cell(number as nat, width as nat));
}

/// A marker at the right end of the columns of the line numbers.
fn render_inline_marker(line_number_width: usize, marker: char) -> (line: String)
    ensures
        line@ == marker_line(line_number_width as nat, marker),
{
    let mut line = String::new();
    if line_number_width > 1 {
        push_spaces(&mut line, line_number_width - 1);
    }
    line.push(marker);
    assert(line@ =~= marker_line(line_number_width as nat, marker));
    line
}

/// The line that stands for lines that are left out.
pub fn render_inline_ellipsis(line_number_width: usize) -> (line: String)
    ensures
        line@ == marker_line(line_number_width as nat, '⋮'),
{
    render_inline_marker(line_number_width, '⋮')
}

/// The line that stands for lines that are being fetched.
pub fn render_inline_spinner(line_number_width: usize, frame: usize) -> (line: String)
    ensures
        line@ == marker_line(line_number_width as nat, cells::spinner(frame as nat)),
{
    render_inline_marker(line_number_width, spinner_glyph(frame))
}

/// A line that both sides have.
pub fn render_inline_context_line(
    line_number: usize,
    text: &str,
    line_number_width: usize,
) -> (line: String)
    requires
        width::fits_columns(text@),
    ensures
        line@ == context_line(line_number as nat, text@, line_number_width as nat),
{
    let mut line = String::new();
    push_line_number(&mut line, line_number, line_number_width);
    line.push_str("  ");
    line.push_str(expand_tabs(text).as_str());
    assert(line@ =~= context_line(line_number as nat, text@, line_number_width as nat));
    line
}

/// A line that is gone.
pub fn render_inline_deleted_line(
    line_number: usize,
    text: &str,
    line_number_width: usize,
    palette: &TintPalette,
) -> (line: String)
    requires
        width::fits_columns(text@),
    ensures
        line@ == deleted_line(line_number as nat, text@, line_number_width as nat, *palette),
{
    let mut line = String::new();
    match palette.changed_line_bg {
        Some(color) => {
            line.push_str(ansi_bg(color).as_str());
            push_line_number(&mut line, line_number, line_number_width);
            line.push_str("  ");
        },
        None => {
            push_line_number(&mut line, line_number, line_number_width);
            line.push_str(" -");
        },
    }
    line.push_str("\u{1b}[2m");
    line.push_str(expand_tabs(text).as_str());
    line.push_str("\u{1b}[0m");
    assert(line@ =~= deleted_line(
        line_number as nat,
        text@,
        line_number_width as nat,
        *palette,
    ));
    line
}

/// A line that is new.
pub fn render_inline_inserted_line(
    line_number: usize,
    text: &str,
    line_number_width: usize,
    palette: &TintPalette,
) -> (line: String)
    requires
        width::fits_columns(text@),
    ensures
        line@ == inserted_line(line_number as nat, text@, line_number_width as nat, *palette),
{
    let mut line = String::new();
    push_line_number(&mut line, line_number, line_number_width);
    line.push_str(" ");
    let payload = expand_tabs(text);
    match palette.gutter_fg {
        Some(color) => {
            line.push_str(ansi_bg(color).as_str());
            line.push_str(" \u{1b}[0m");
            if payload.as_str().is_empty() {
                line.push_str(" ");
            } else {
                line.push_str(payload.as_str());
            }
        },
        None => {
            line.push_str(" ");
            line.push_str(payload.as_str());
        },
    }
    assert(line@ =~= inserted_line(
        line_number as nat,
        text@,
        line_number_width as nat,
        *palette,
    ));
    line
}

/// The new side of a line that changed.
pub fn render_inline_changed_line(
    line_number: usize,
    new: &str,
    line_number_width: usize,
    palette: &TintPalette,
) -> (line: String)
    requires
        width::fits_columns(new@),
    ensures
        line@ == inserted_line(line_number as nat, new@, line_number_width as nat, *palette),
{
    render_inline_inserted_line(line_number, new, line_number_width, palette)
}

/// Appends lines that were left out above a hunk and are now shown.
pub fn render_inline_expanded_gap_lines(
    shown: &Vec<String>,
    start_line: usize,
    line_number_width: usize,
    output: &mut RenderedDocument,
)
    requires
        old(output).wf(),
        start_line + shown@.len() <= usize::MAX,
        forall|i: int| 0 <= i < shown@.len() ==> width::fits_columns(#[trigger] shown@[i]@),
    ensures
        final(output).wf(),
        final(output).layout == old(output).layout,
        final(output)@ == old(output)@ + Seq::new(
            shown@.len(),
            |i: int|
                lines::text_line(
                    context_line((start_line + i) as nat, shown@[i]@, line_number_width as nat),
                ),
        ),
{
    let ghost before = output@;
    let ghost added = Seq::new(
        shown@.len(),
        |i: int|
            lines::text_line(
                context_line((start_line + i) as nat, shown@[i]@, line_number_width as nat),
            ),
    );
    let mut offset: usize = 0;
    assert(output@ =~= before + added.take(0));
    while offset < shown.len()
        invariant
            offset <= shown@.len(),
            start_line + shown@.len() <= usize::MAX,
            output.wf(),
            output.layout == old(output).layout,
            output@ == before + added.take(offset as int),
            added == Seq::new(
                shown@.len(),
                |i: int|
                    lines::text_line(
                        context_line((start_line + i) as nat, shown@[i]@, line_number_width as nat),
                    ),
            ),
            forall|i: int| 0 <= i < shown@.len() ==> width::fits_columns(#[trigger] shown@[i]@),
        decreases shown@.len() - offset,
    {
        output.push_line(
            render_inline_context_line(
                start_line + offset,
                shown[offset].as_str(),
                line_number_width,
            ),
            None,
        );
        assert(output@ =~= before + added.take(offset + 1));
        offset += 1;
    }
    assert(added.take(offset as int) =~= added);
}

} // verus!
