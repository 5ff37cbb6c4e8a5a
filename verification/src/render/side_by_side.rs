//! The lines of a diff with its two sides next to each other.

use super::cells;
use super::cells::ansi_bg;
use super::cells::clip_plain_text;
use super::cells::format_right_line_number;
use super::cells::render_center_number;
use super::cells::render_dimmed;
use super::cells::render_marker_cell;
use super::cells::render_plain_cell;
use super::cells::render_styled_cell;
use super::cells::spinner_glyph;
use super::cells::StyledLine;
use super::cells::PANE_GAP;
use super::layout;
use super::layout::Layout;
use super::lines;
use super::lines::RenderedDocument;
use super::TintPalette;
use crate::terminal_palette::AnsiColor;
use crate::text;
use crate::text::push_spaces;
use crate::unified_diff::Row;
use crate::unified_diff::RowView;
use crate::width;
use crate::width::expand_tabs;
use vstd::prelude::*;

verus! {

broadcast use vstd::seq::group_seq_axioms;

/// A row whose cells are filled in.
#[derive(Clone, Debug, Eq, PartialEq)]
pub enum RenderedRow {
    SideBySide {
        left_text: String,
        left_background: Option<AnsiColor>,
        center_number: String,
        right_gutter: bool,
        right_dim: bool,
        right_line: StyledLine,
    },
    /// A line that goes over both sides.
    FullWidth(String),
}

/// What a [`RenderedRow`] says.
pub enum RenderedRowView {
    SideBySide {
        left: Seq<char>,
        left_background: Option<AnsiColor>,
        number: Seq<char>,
        right_gutter: bool,
        right_dim: bool,
        right: Seq<char>,
        right_background: Option<AnsiColor>,
    },
    FullWidth(Seq<char>),
}

impl View for RenderedRow {
    type V = RenderedRowView;

    open spec fn view(&self) -> RenderedRowView {
        match self {
            RenderedRow::SideBySide {
                left_text,
                left_background,
                center_number,
                right_gutter,
                right_dim,
                right_line,
            } => RenderedRowView::SideBySide {
                left: left_text@,
                left_background: *left_background,
                number: center_number@,
                right_gutter: *right_gutter,
                right_dim: *right_dim,
                right: right_line.text@,
                right_background: right_line.background,
            },
            RenderedRow::FullWidth(line) => RenderedRowView::FullWidth(line@),
        }
    }
}

/// A line that both sides show, dim on the right.
pub open spec fn same_row(line: Seq<char>, number: nat) -> RenderedRowView {
    RenderedRowView::SideBySide {
        left: cells::expanded(line),
        left_background: None,
        number: text::decimal(number),
        right_gutter: false,
        right_dim: true,
        right: cells::expanded(line),
        right_background: None,
    }
}

/// The cells of a row whose line on the right, if it has one, is `number`.
pub open spec fn rendered_row(row: RowView, number: nat, palette: TintPalette) -> RenderedRowView {
    match row {
        RowView::Context(line) => same_row(line, number),
        RowView::Delete(line) => RenderedRowView::SideBySide {
            left: cells::expanded(line),
            left_background: palette.changed_line_bg,
            number: Seq::empty(),
            right_gutter: false,
            right_dim: false,
            right: Seq::empty(),
            right_background: None,
        },
        RowView::Insert(line) => RenderedRowView::SideBySide {
            left: Seq::empty(),
            left_background: None,
            number: text::decimal(number),
            right_gutter: true,
            right_dim: false,
            right: cells::expanded(line),
            right_background: None,
        },
        RowView::Change { old, new } => RenderedRowView::SideBySide {
            left: cells::expanded(old),
            left_background: palette.changed_line_bg,
            number: text::decimal(number),
            right_gutter: true,
            right_dim: false,
            right: cells::expanded(new),
            right_background: None,
        },
        RowView::Annotation(line) => RenderedRowView::FullWidth(line),
    }
}

/// A left cell on its background.
pub open spec fn left_cell(left: Seq<char>, background: Option<AnsiColor>, width: nat) -> Seq<char> {
    match background {
        Some(color) => cells::bg_code(color) + cells::plain_cell(left, width) + "\u{1b}[0m"@,
        None => cells::plain_cell(left, width),
    }
}

/// The two columns in front of the right side: those of lines that are new end
/// in a mark, if the palette has a color for it.
pub open spec fn gutter_cell(marked: bool, palette: TintPalette) -> Seq<char> {
    match palette.gutter_fg {
        Some(color) if marked => " "@ + cells::bg_code(color) + " "@ + "\u{1b}[0m"@,
        _ => text::spaces(PANE_GAP as nat),
    }
}

/// The right cell, which may be dim; a space stands for an empty one behind a
/// mark.
pub open spec fn right_cell(
    right: Seq<char>,
    background: Option<AnsiColor>,
    marked: bool,
    dim: bool,
    width: nat,
) -> Seq<char> {
    let cell = cells::styled_cell(right, background, width);
    if cell.len() == 0 && marked {
        " "@
    } else if dim {
        cells::dimmed(cell)
    } else {
        cell
    }
}

/// The line of a row. Where it goes on behind lines that are left out
/// (`continued`), two dots stand for an empty left side.
pub open spec fn row_line(
    row: RenderedRowView,
    width: nat,
    layout: Layout,
    palette: TintPalette,
    continued: bool,
) -> Seq<char> {
    match row {
        RenderedRowView::SideBySide {
            left,
            left_background,
            number,
            right_gutter,
            right_dim,
            right,
            right_background,
        } => {
            let shown = if continued && left.len() == 0 {
                ".."@
            } else {
                left
            };
            left_cell(shown, left_background, layout.left_text_width as nat) + text::spaces(
                PANE_GAP as nat,
            ) + cells::center_cell(number, layout.center_number_width as nat) + gutter_cell(
                right_gutter,
                palette,
            ) + right_cell(
                right,
                right_background,
                right_gutter,
                right_dim,
                layout.right_render_width as nat,
            )
        },
        RenderedRowView::FullWidth(line) => cells::clipped(line, width),
    }
}

/// The line of a line that was left out and is now shown.
pub open spec fn filled_line(
    line: Seq<char>,
    number: nat,
    layout: Layout,
    palette: TintPalette,
) -> lines::LineView {
    lines::text_line(row_line(same_row(line, number), 0, layout, palette, false))
}

/// The line that has nothing but `marker` in the middle.
pub open spec fn marker_row(layout: Layout, marker: char) -> Seq<char> {
    text::spaces(layout.left_text_width as nat) + text::spaces(PANE_GAP as nat)
        + cells::marker_cell(layout.center_number_width as nat, marker) + text::spaces(
        PANE_GAP as nat,
    ) + text::spaces(layout.right_visible_width as nat)
}

/// Whether the cells of a row can be cut to columns.
pub open spec fn row_countable(row: RenderedRowView) -> bool {
    match row {
        RenderedRowView::SideBySide {
            left,
            left_background,
            number,
            right_gutter,
            right_dim,
            right,
            right_background,
        } => cells::countable(left) && cells::countable(number) && cells::countable(right),
        RenderedRowView::FullWidth(line) => cells::countable(line),
    }
}

/// The line that has nothing but `marker` in the middle.
fn render_compact_marker_row(layout: Layout, marker: char) -> (line: String)
    ensures
        line@ == marker_row(layout, marker),
{
    let mut line = String::new();
    push_spaces(&mut line, layout.left_text_width);
    push_spaces(&mut line, PANE_GAP);
    line.push_str(render_marker_cell(layout.center_number_width, marker).as_str());
    push_spaces(&mut line, PANE_GAP);
    push_spaces(&mut line, layout.right_visible_width);
    assert(line@ =~= marker_row(layout, marker));
    line
}

/// The line that stands for lines that are left out.
pub fn render_compact_elision_row(layout: Layout) -> (line: String)
    ensures
        line@ == marker_row(layout, '⋮'),
{
    render_compact_marker_row(layout, '⋮')
}

/// The line that stands for lines that are being fetched.
pub fn render_compact_spinner_row(layout: Layout, frame: usize) -> (line: String)
    ensures
        line@ == marker_row(layout, cells::spinner(frame as nat)),
{
    render_compact_marker_row(layout, spinner_glyph(frame))
}

/// Fills in the cells of `row` and counts its lines.
pub fn render_row(
    row: &Row,
    old_line: &mut usize,
    new_line: &mut usize,
    palette: &TintPalette,
) -> (rendered: RenderedRow)
    requires
        layout::row_fits(row@),
        *old(old_line) < usize::MAX || !layout::has_left(row@),
        *old(new_line) < usize::MAX || !layout::has_right(row@),
    ensures
        rendered@ == rendered_row(row@, *old(new_line) as nat, *palette),
        row_countable(rendered@),
        *final(old_line) == *old(old_line) + if layout::has_left(row@) {
            1int
        } else {
            0int
        },
        *final(new_line) == *old(new_line) + if layout::has_right(row@) {
            1int
        } else {
            0int
        },
{
    proof {
        cells::lemma_decimal_has_no_tabs(*new_line as nat);
    }
    match row {
        Row::Context(text) => {
            let line = expand_tabs(text.as_str());
            let right_number = *new_line;
            *old_line += 1;
            *new_line += 1;
            proof {
                width::lemma_expand_tabs(text@, 0);
            }
            RenderedRow::SideBySide {
                left_text: line.clone(),
                left_background: None,
                center_number: format_right_line_number(Some(right_number)),
                right_gutter: false,
                right_dim: true,
                right_line: StyledLine { text: line, background: None },
            }
        },
        Row::Delete(text) => {
            *old_line += 1;
            proof {
                width::lemma_expand_tabs(text@, 0);
            }
            RenderedRow::SideBySide {
                left_text: expand_tabs(text.as_str()),
                left_background: palette.changed_line_bg,
                center_number: format_right_line_number(None),
                right_gutter: false,
                right_dim: false,
                right_line: StyledLine::default(),
            }
        },
        Row::Insert(text) => {
            let right_number = *new_line;
            *new_line += 1;
            proof {
                width::lemma_expand_tabs(text@, 0);
            }
            RenderedRow::SideBySide {
                left_text: String::new(),
                left_background: None,
                center_number: format_right_line_number(Some(right_number)),
                right_gutter: true,
                right_dim: false,
                right_line: StyledLine { text: expand_tabs(text.as_str()), background: None },
            }
        },
        Row::Change { old, new } => {
            let right_number = *new_line;
            *old_line += 1;
            *new_line += 1;
            proof {
                width::lemma_expand_tabs(old@, 0);
                width::lemma_expand_tabs(new@, 0);
            }
            RenderedRow::SideBySide {
                left_text: expand_tabs(old.as_str()),
                left_background: palette.changed_line_bg,
                center_number: format_right_line_number(Some(right_number)),
                right_gutter: true,
                right_dim: false,
                right_line: StyledLine { text: expand_tabs(new.as_str()), background: None },
            }
        },
        Row::Annotation(text) => RenderedRow::FullWidth(text.clone()),
    }
}

/// Appends the line of a row whose cells are filled in.
pub fn push_rendered_row(
    output: &mut RenderedDocument,
    width: usize,
    layout: Layout,
    palette: &TintPalette,
    row: RenderedRow,
    show_gap_continuation: &mut bool,
)
    requires
        old(output).wf(),
        row_countable(row@),
    ensures
        final(output).wf(),
        final(output).layout == old(output).layout,
        final(output)@ == old(output)@.push(
            lines::text_line(
                row_line(row@, width as nat, layout, *palette, *old(show_gap_continuation)),
            ),
        ),
        *final(show_gap_continuation) == (*old(show_gap_continuation) && row@ is FullWidth),
{
    match row {
        RenderedRow::SideBySide {
            left_text,
            left_background,
            center_number,
            right_gutter,
            right_dim,
            right_line,
        } => {
            let ghost continued = *show_gap_continuation;
            let dots = *show_gap_continuation && left_text.as_str().is_empty();
            let mut left = left_text;
            if dots {
                left = "..".to_owned();
                proof {
                    reveal_strlit("..");
                    assert(width::no_tabs(".."@));
                }
            }
            *show_gap_continuation = false;
            let mut line = String::new();
            let cell = render_plain_cell(left.as_str(), layout.left_text_width);
            match left_background {
                Some(color) => {
                    line.push_str(ansi_bg(color).as_str());
                    line.push_str(cell.as_str());
                    line.push_str("\u{1b}[0m");
                },
                None => {
                    line.push_str(cell.as_str());
                },
            }
            assert(line@ =~= left_cell(left@, left_background, layout.left_text_width as nat));
            push_spaces(&mut line, PANE_GAP);
            line.push_str(
                render_center_number(center_number.as_str(), layout.center_number_width).as_str(),
            );
            let ghost before_gutter = line@;
            match palette.gutter_fg {
                Some(color) => {
                    if right_gutter {
                        line.push_str(" ");
                        line.push_str(ansi_bg(color).as_str());
                        line.push_str(" ");
                        line.push_str("\u{1b}[0m");
                    } else {
                        push_spaces(&mut line, PANE_GAP);
                    }
                },
                None => {
                    push_spaces(&mut line, PANE_GAP);
                },
            }
            assert(line@ =~= before_gutter + gutter_cell(right_gutter, *palette));
            let right = render_styled_cell(&right_line, layout.right_render_width);
            if right.as_str().is_empty() && right_gutter {
                line.push_str(" ");
            } else if right_dim {
                line.push_str(render_dimmed(right.as_str()).as_str());
            } else {
                line.push_str(right.as_str());
            }
            assert(line@ =~= row_line(row@, width as nat, layout, *palette, continued));
            output.push_line(line, None);
        },
        RenderedRow::FullWidth(text) => {
            output.push_line(clip_plain_text(text.as_str(), width), None);
        },
    }
}

/// Appends lines that were left out above a hunk and are now shown.
pub fn render_expanded_gap_lines(
    shown: &Vec<String>,
    start_line: usize,
    layout: Layout,
    palette: &TintPalette,
    output: &mut RenderedDocument,
)
    requires
        old(output).wf(),
        start_line + shown@.len() <= usize::MAX,
        forall|i: int| 0 <= i < shown@.len() ==> width::fits_columns(#[trigger] shown@[i]@),
    ensures
        final(output).wf(),
        final(output).layout == old(output).layout,
        final(output)@ == old(output)@ + Seq::new(
            shown@.len(),
            |i: int| filled_line(shown@[i]@, (start_line + i) as nat, layout, *palette),
        ),
{
    let ghost before = output@;
    let ghost added = Seq::new(
        shown@.len(),
        |i: int| filled_line(shown@[i]@, (start_line + i) as nat, layout, *palette),
    );
    let mut offset: usize = 0;
    assert(output@ =~= before + added.take(0));
    while offset < shown.len()
        invariant
            offset <= shown@.len(),
            start_line + shown@.len() <= usize::MAX,
            output.wf(),
            output.layout == old(output).layout,
            output@ == before + added.take(offset as int),
            added == Seq::new(
                shown@.len(),
                |i: int| filled_line(shown@[i]@, (start_line + i) as nat, layout, *palette),
            ),
            forall|i: int| 0 <= i < shown@.len() ==> width::fits_columns(#[trigger] shown@[i]@),
        decreases shown@.len() - offset,
    {
        let expanded = expand_tabs(shown[offset].as_str());
        proof {
            width::lemma_expand_tabs(shown@[offset as int]@, 0);
            cells::lemma_decimal_has_no_tabs((start_line + offset) as nat);
        }
        let rendered = RenderedRow::SideBySide {
            left_text: expanded.clone(),
            left_background: None,
            center_number: format_right_line_number(Some(start_line + offset)),
            right_gutter: false,
            right_dim: true,
            right_line: StyledLine { text: expanded, background: None },
        };
        let mut show_gap_continuation = false;
        // The width only matters to lines that go over both sides.
        push_rendered_row(output, 0, layout, palette, rendered, &mut show_gap_continuation);
        assert(output@ =~= before + added.take(offset + 1));
        offset += 1;
    }
    assert(added.take(offset as int) =~= added);
}

} // verus!
