//! The styles that rendered lines are written in.

use super::cells;
use super::document;
use super::document::Format;
use super::document::Rendering;
use super::gaps;
use super::laws;
use super::layout;
use super::layout::Layout;
use super::lines;
use super::side_by_side;
use super::side_by_side::RenderedRowView;
use super::single_column;
use super::TintPalette;
use crate::terminal_palette::AnsiColor;
use crate::text;
use crate::unified_diff::HunkView;
use crate::unified_diff::ItemView;
use crate::unified_diff::RowView;
use crate::width;
use crate::width::TAB_STOP;
use vstd::prelude::*;

verus! {

broadcast use vstd::seq::group_seq_axioms;

// ---------------------------------------------------------------------------
// Text without escape characters
// ---------------------------------------------------------------------------

/// Whether `line` holds no escape character.
pub open spec fn plain(line: Seq<char>) -> bool {
    text::without(line, '\u{1b}')
}

/// Whether the texts of a row hold no escape character.
pub open spec fn row_is_plain(row: RowView) -> bool {
    match row {
        RowView::Context(line) | RowView::Delete(line) | RowView::Insert(line)
        | RowView::Annotation(line) => plain(line),
        RowView::Change { old, new } => plain(old) && plain(new),
    }
}

/// Whether the texts of the rows of a hunk hold no escape character.
pub open spec fn hunk_is_plain(hunk: HunkView) -> bool {
    forall|i: int| 0 <= i < hunk.rows.len() ==> row_is_plain(#[trigger] hunk.rows[i])
}

/// Whether the texts of an item hold no escape character.
pub open spec fn item_is_plain(item: ItemView) -> bool {
    match item {
        ItemView::FileHeader(line) | ItemView::Meta(line) => plain(line),
        ItemView::Hunk(hunk) => hunk_is_plain(hunk),
    }
}

/// Whether the texts of all of `items` hold no escape character.
pub open spec fn items_are_plain(items: Seq<ItemView>) -> bool {
    forall|i: int| 0 <= i < items.len() ==> item_is_plain(#[trigger] items[i])
}

/// Whether the lines that a gap was filled with hold no escape character.
pub open spec fn state_is_plain(state: gaps::GapStateView) -> bool {
    match state {
        gaps::GapStateView::Loading => true,
        gaps::GapStateView::Expanded(shown) => forall|i: int|
            0 <= i < shown.len() ==> plain(#[trigger] shown[i]),
    }
}

/// Whether no gap was filled with an escape character.
pub open spec fn gaps_are_plain(entries: Seq<(gaps::GapId, gaps::GapState)>) -> bool {
    forall|j: int| 0 <= j < entries.len() ==> state_is_plain((#[trigger] entries[j]).1@)
}

// ---------------------------------------------------------------------------
// Text in bold, dim or on a background
// ---------------------------------------------------------------------------

/// Whether what stands in `line` at `at` sets bold or dim text or a background,
/// or ends a style.
pub open spec fn sets_tint(line: Seq<char>, at: int) -> bool {
    ||| text::occurs_at(line, at, "\u{1b}[0m"@)
    ||| text::occurs_at(line, at, "\u{1b}[1m"@)
    ||| text::occurs_at(line, at, "\u{1b}[2m"@)
    ||| text::occurs_at(line, at, "\u{1b}[48;"@)
}

/// Whether the escape characters of `line` set no more than bold or dim text
/// and backgrounds.
pub open spec fn only_tints(line: Seq<char>) -> bool {
    forall|at: int|
        0 <= at < line.len() && #[trigger] line[at] == '\u{1b}' ==> sets_tint(line, at)
}

/// Whether `only_tints` holds of all of `list`.
pub open spec fn lines_only_tint(list: Seq<lines::LineView>) -> bool {
    forall|i: int| 0 <= i < list.len() ==> only_tints((#[trigger] list[i]).text)
}

proof fn lemma_occurs_in_sum(left: Seq<char>, right: Seq<char>, at: int, part: Seq<char>)
    ensures
        text::occurs_at(left, at, part) ==> text::occurs_at(left + right, at, part),
        text::occurs_at(right, at, part) ==> text::occurs_at(left + right, left.len() + at, part),
{
    let all = left + right;
    if text::occurs_at(left, at, part) {
        assert(all.subrange(at, at + part.len()) =~= left.subrange(at, at + part.len()));
    }
    if text::occurs_at(right, at, part) {
        let moved = left.len() + at;
        assert(all.subrange(moved, moved + part.len()) =~= right.subrange(at, at + part.len()));
    }
}

proof fn lemma_tints_add(left: Seq<char>, right: Seq<char>)
    requires
        only_tints(left),
        only_tints(right),
    ensures
        only_tints(left + right),
{
    let all = left + right;
    assert forall|at: int| 0 <= at < all.len() && #[trigger] all[at] == '\u{1b}' implies sets_tint(
        all,
        at,
    ) by {
        let from = if at < left.len() {
            assert(all[at] == left[at]);
            at
        } else {
            assert(all[at] == right[at - left.len()]);
            at - left.len()
        };
        lemma_occurs_in_sum(left, right, from, "\u{1b}[0m"@);
        lemma_occurs_in_sum(left, right, from, "\u{1b}[1m"@);
        lemma_occurs_in_sum(left, right, from, "\u{1b}[2m"@);
        lemma_occurs_in_sum(left, right, from, "\u{1b}[48;"@);
    }
}

/// Where only tints are set, there is no foreground color.
pub proof fn lemma_tints_are_no_foreground(line: Seq<char>)
    requires
        only_tints(line),
    ensures
        !text::contains(line, "\u{1b}[38;"@),
{
    reveal_strlit("\u{1b}[0m");
    reveal_strlit("\u{1b}[1m");
    reveal_strlit("\u{1b}[2m");
    reveal_strlit("\u{1b}[48;");
    reveal_strlit("\u{1b}[38;");
    assert forall|at: int| !text::occurs_at(line, at, "\u{1b}[38;"@) by {
        if text::occurs_at(line, at, "\u{1b}[38;"@) {
            let found = line.subrange(at, at + 5);
            assert(found[0] == line[at]);
            assert(found[2] == line[at + 2]);
            assert(line[at] == '\u{1b}' && line[at + 2] == '3');
            assert(sets_tint(line, at));
            assert(line.subrange(at, at + 4)[2] == line[at + 2]);
        }
    }
}

proof fn lemma_written_tints()
    ensures
        only_tints("\u{1b}[0m"@),
        only_tints("\u{1b}[1m"@),
        only_tints("\u{1b}[2m"@),
        only_tints(" \u{1b}[0m"@),
        only_tints("\u{1b}[48;5;"@),
        only_tints("\u{1b}[48;2;"@),
{
    reveal_strlit("\u{1b}[0m");
    reveal_strlit("\u{1b}[1m");
    reveal_strlit("\u{1b}[2m");
    reveal_strlit(" \u{1b}[0m");
    reveal_strlit("\u{1b}[48;5;");
    reveal_strlit("\u{1b}[48;2;");
    reveal_strlit("\u{1b}[48;");
    assert("\u{1b}[0m"@.subrange(0, 4) =~= "\u{1b}[0m"@);
    assert("\u{1b}[1m"@.subrange(0, 4) =~= "\u{1b}[1m"@);
    assert("\u{1b}[2m"@.subrange(0, 4) =~= "\u{1b}[2m"@);
    assert(" \u{1b}[0m"@.subrange(1, 5) =~= "\u{1b}[0m"@);
    assert("\u{1b}[48;5;"@.subrange(0, 5) =~= "\u{1b}[48;"@);
    assert("\u{1b}[48;2;"@.subrange(0, 5) =~= "\u{1b}[48;"@);
}

proof fn lemma_decimal_is_plain(value: nat)
    ensures
        plain(text::decimal(value)),
    decreases value,
{
    if value >= 10 {
        lemma_decimal_is_plain(value / 10);
        let all = text::decimal(value);
        assert forall|i: int| 0 <= i < all.len() implies #[trigger] all[i] != '\u{1b}' by {
            if i < all.len() - 1 {
                assert(all[i] == text::decimal(value / 10)[i]);
            }
        }
    }
}

proof fn lemma_bg_code_tints(color: AnsiColor)
    ensures
        only_tints(cells::bg_code(color)),
{
    reveal_strlit(";");
    reveal_strlit("m");
    lemma_written_tints();
    match color {
        AnsiColor::Indexed(index) => {
            let number = text::decimal(index as nat);
            lemma_decimal_is_plain(index as nat);
            lemma_tints_add("\u{1b}[48;5;"@, number);
            lemma_tints_add("\u{1b}[48;5;"@ + number, "m"@);
        },
        AnsiColor::Rgb(r, g, b) => {
            lemma_decimal_is_plain(r as nat);
            lemma_decimal_is_plain(g as nat);
            lemma_decimal_is_plain(b as nat);
            let red = "\u{1b}[48;2;"@ + text::decimal(r as nat);
            let green = red + ";"@ + text::decimal(g as nat);
            lemma_tints_add("\u{1b}[48;2;"@, text::decimal(r as nat));
            lemma_tints_add(red, ";"@);
            lemma_tints_add(red + ";"@, text::decimal(g as nat));
            lemma_tints_add(green, ";"@);
            lemma_tints_add(green + ";"@, text::decimal(b as nat));
            lemma_tints_add(green + ";"@ + text::decimal(b as nat), "m"@);
        },
    }
}

// ---------------------------------------------------------------------------
// Lines
// ---------------------------------------------------------------------------

proof fn lemma_header_tints(path: Seq<char>)
    requires
        plain(path),
    ensures
        only_tints(cells::header_line(path)),
{
    lemma_written_tints();
    lemma_tints_add("\u{1b}[1m"@, path);
    lemma_tints_add("\u{1b}[1m"@ + path, "\u{1b}[0m"@);
}

proof fn lemma_number_cell_is_plain(number: nat, number_width: nat)
    ensures
        plain(single_column::number_cell(number, number_width)),
{
    lemma_decimal_is_plain(number);
    let digits = text::decimal(number);
    let cell = single_column::number_cell(number, number_width);
    assert forall|i: int| 0 <= i < cell.len() implies #[trigger] cell[i] != '\u{1b}' by {
        let room = cell.len() - digits.len();
        if i >= room {
            assert(cell[i] == digits[i - room]);
        }
    }
}

proof fn lemma_context_line_tints(number: nat, line: Seq<char>, number_width: nat)
    requires
        plain(line),
    ensures
        only_tints(single_column::context_line(number, line, number_width)),
{
    reveal_strlit("  ");
    let cell = single_column::number_cell(number, number_width);
    lemma_number_cell_is_plain(number, number_width);
    width::lemma_expand_tabs_without(line, 0, '\u{1b}');
    lemma_tints_add(cell, "  "@);
    lemma_tints_add(cell + "  "@, cells::expanded(line));
}

proof fn lemma_deleted_line_tints(
    number: nat,
    line: Seq<char>,
    number_width: nat,
    palette: TintPalette,
)
    requires
        plain(line),
    ensures
        only_tints(single_column::deleted_line(number, line, number_width, palette)),
{
    reveal_strlit("  ");
    reveal_strlit(" -");
    lemma_written_tints();
    let cell = single_column::number_cell(number, number_width);
    let shown = cells::expanded(line);
    let payload = "\u{1b}[2m"@ + shown + "\u{1b}[0m"@;
    lemma_number_cell_is_plain(number, number_width);
    width::lemma_expand_tabs_without(line, 0, '\u{1b}');
    lemma_tints_add("\u{1b}[2m"@, shown);
    lemma_tints_add("\u{1b}[2m"@ + shown, "\u{1b}[0m"@);
    match palette.changed_line_bg {
        Some(color) => {
            lemma_bg_code_tints(color);
            let code = cells::bg_code(color);
            lemma_tints_add(code, cell);
            lemma_tints_add(code + cell, "  "@);
            lemma_tints_add(code + cell + "  "@, payload);
        },
        None => {
            lemma_tints_add(cell, " -"@);
            lemma_tints_add(cell + " -"@, payload);
        },
    }
}

proof fn lemma_inserted_line_tints(
    number: nat,
    line: Seq<char>,
    number_width: nat,
    palette: TintPalette,
)
    requires
        plain(line),
    ensures
        only_tints(single_column::inserted_line(number, line, number_width, palette)),
{
    reveal_strlit(" ");
    lemma_written_tints();
    let cell = single_column::number_cell(number, number_width);
    let shown = cells::expanded(line);
    lemma_number_cell_is_plain(number, number_width);
    width::lemma_expand_tabs_without(line, 0, '\u{1b}');
    lemma_tints_add(cell, " "@);
    match palette.gutter_fg {
        Some(color) => {
            lemma_bg_code_tints(color);
            let code = cells::bg_code(color);
            let payload = if shown.len() == 0 {
                " "@
            } else {
                shown
            };
            lemma_tints_add(cell + " "@, code);
            lemma_tints_add(cell + " "@ + code, " \u{1b}[0m"@);
            lemma_tints_add(cell + " "@ + code + " \u{1b}[0m"@, payload);
        },
        None => {
            lemma_tints_add(cell + " "@, " "@);
            lemma_tints_add(cell + " "@ + " "@, shown);
        },
    }
}

proof fn lemma_plain_cell_is_plain(line: Seq<char>, width: nat)
    requires
        plain(line),
    ensures
        plain(cells::plain_cell(line, width)),
{
    width::lemma_clip_without(line, width, TAB_STOP as nat, '\u{1b}');
    let kept = cells::clipped(line, width);
    let cell = cells::plain_cell(line, width);
    assert forall|i: int| 0 <= i < cell.len() implies #[trigger] cell[i] != '\u{1b}' by {
        if i < kept.len() {
            assert(cell[i] == kept[i]);
        }
    }
}

proof fn lemma_left_cell_tints(left: Seq<char>, background: Option<AnsiColor>, width: nat)
    requires
        plain(left),
    ensures
        only_tints(side_by_side::left_cell(left, background, width)),
{
    let cell = cells::plain_cell(left, width);
    lemma_plain_cell_is_plain(left, width);
    match background {
        Some(color) => {
            lemma_written_tints();
            lemma_bg_code_tints(color);
            lemma_tints_add(cells::bg_code(color), cell);
            lemma_tints_add(cells::bg_code(color) + cell, "\u{1b}[0m"@);
        },
        None => {},
    }
}

proof fn lemma_center_cell_tints(label: Seq<char>, width: nat)
    requires
        plain(label),
    ensures
        only_tints(cells::center_cell(label, width)),
{
    lemma_written_tints();
    width::lemma_clip_without(label, width, TAB_STOP as nat, '\u{1b}');
    let visible = cells::clipped(label, width);
    let room = (width - cells::shown_columns(visible)) as nat;
    let before = text::spaces(room / 2);
    let behind = text::spaces((room - room / 2) as nat);
    lemma_tints_add("\u{1b}[1m"@, before);
    lemma_tints_add("\u{1b}[1m"@ + before, visible);
    lemma_tints_add("\u{1b}[1m"@ + before + visible, behind);
    lemma_tints_add("\u{1b}[1m"@ + before + visible + behind, "\u{1b}[0m"@);
}

proof fn lemma_gutter_cell_tints(marked: bool, palette: TintPalette)
    ensures
        only_tints(side_by_side::gutter_cell(marked, palette)),
{
    reveal_strlit(" ");
    match palette.gutter_fg {
        Some(color) if marked => {
            lemma_written_tints();
            lemma_bg_code_tints(color);
            let code = cells::bg_code(color);
            lemma_tints_add(" "@, code);
            lemma_tints_add(" "@ + code, " "@);
            lemma_tints_add(" "@ + code + " "@, "\u{1b}[0m"@);
        },
        _ => {},
    }
}

proof fn lemma_right_cell_tints(
    right: Seq<char>,
    background: Option<AnsiColor>,
    marked: bool,
    dim: bool,
    width: nat,
)
    requires
        plain(right),
    ensures
        only_tints(side_by_side::right_cell(right, background, marked, dim, width)),
{
    reveal_strlit(" ");
    lemma_written_tints();
    width::lemma_clip_without(right, width, TAB_STOP as nat, '\u{1b}');
    let visible = cells::clipped(right, width);
    match background {
        Some(color) => {
            lemma_bg_code_tints(color);
            lemma_tints_add(cells::bg_code(color), visible);
            lemma_tints_add(cells::bg_code(color) + visible, "\u{1b}[0m"@);
        },
        None => {},
    }
    let cell = cells::styled_cell(right, background, width);
    lemma_tints_add("\u{1b}[2m"@, cell);
    lemma_tints_add("\u{1b}[2m"@ + cell, "\u{1b}[0m"@);
}

/// Whether the cells of a row hold no escape character.
spec fn cells_are_plain(row: RenderedRowView) -> bool {
    match row {
        RenderedRowView::SideBySide {
            left,
            left_background,
            number,
            right_gutter,
            right_dim,
            right,
            right_background,
        } => plain(left) && plain(number) && plain(right),
        RenderedRowView::FullWidth(line) => plain(line),
    }
}

proof fn lemma_row_line_tints(
    row: RenderedRowView,
    width: nat,
    layout: Layout,
    palette: TintPalette,
    continued: bool,
)
    requires
        cells_are_plain(row),
    ensures
        only_tints(side_by_side::row_line(row, width, layout, palette, continued)),
{
    reveal_strlit("..");
    match row {
        RenderedRowView::SideBySide {
            left,
            left_background,
            number,
            right_gutter,
            right_dim,
            right,
            right_background,
        } => {
            let shown = if continued && left.len() == 0 {
                ".."@
            } else {
                left
            };
            let left_cell = side_by_side::left_cell(
                shown,
                left_background,
                layout.left_text_width as nat,
            );
            let between = text::spaces(cells::PANE_GAP as nat);
            let center = cells::center_cell(number, layout.center_number_width as nat);
            let gutter = side_by_side::gutter_cell(right_gutter, palette);
            let right_cell = side_by_side::right_cell(
                right,
                right_background,
                right_gutter,
                right_dim,
                layout.right_render_width as nat,
            );
            lemma_left_cell_tints(shown, left_background, layout.left_text_width as nat);
            lemma_center_cell_tints(number, layout.center_number_width as nat);
            lemma_gutter_cell_tints(right_gutter, palette);
            lemma_right_cell_tints(
                right,
                right_background,
                right_gutter,
                right_dim,
                layout.right_render_width as nat,
            );
            lemma_tints_add(left_cell, between);
            lemma_tints_add(left_cell + between, center);
            lemma_tints_add(left_cell + between + center, gutter);
            lemma_tints_add(left_cell + between + center + gutter, right_cell);
        },
        RenderedRowView::FullWidth(line) => {
            width::lemma_clip_without(line, width, TAB_STOP as nat, '\u{1b}');
        },
    }
}

proof fn lemma_rendered_row_is_plain(row: RowView, number: nat, palette: TintPalette)
    requires
        row_is_plain(row),
    ensures
        cells_are_plain(side_by_side::rendered_row(row, number, palette)),
{
    lemma_decimal_is_plain(number);
    match row {
        RowView::Context(line) | RowView::Delete(line) | RowView::Insert(line) => {
            width::lemma_expand_tabs_without(line, 0, '\u{1b}');
        },
        RowView::Change { old, new } => {
            width::lemma_expand_tabs_without(old, 0, '\u{1b}');
            width::lemma_expand_tabs_without(new, 0, '\u{1b}');
        },
        RowView::Annotation(_) => {},
    }
}

proof fn lemma_marker_line_tints(rendering: Rendering, gap: gaps::GapView, marker: char)
    requires
        marker != '\u{1b}',
    ensures
        only_tints(rendering.marker_line(gap, marker).text),
{
    assert(plain(rendering.marker_line(gap, marker).text));
}

// ---------------------------------------------------------------------------
// Documents
// ---------------------------------------------------------------------------

proof fn lemma_lines_add(left: Seq<lines::LineView>, right: Seq<lines::LineView>)
    requires
        lines_only_tint(left),
        lines_only_tint(right),
    ensures
        lines_only_tint(left + right),
{
    let all = left + right;
    assert forall|i: int| 0 <= i < all.len() implies only_tints((#[trigger] all[i]).text) by {
        if i < left.len() {
            assert(all[i] == left[i]);
        } else {
            assert(all[i] == right[i - left.len()]);
        }
    }
}

proof fn lemma_row_tints(rendering: Rendering, hunk: HunkView, index: int, continued: bool)
    requires
        0 <= index < hunk.rows.len(),
        row_is_plain(hunk.rows[index]),
    ensures
        lines_only_tint(rendering.row_lines(hunk, index, continued)),
{
    let row = hunk.rows[index];
    let old_number = layout::old_number(hunk, index);
    let new_number = layout::new_number(hunk, index);
    match rendering.format {
        Format::SideBySide { width, layout } => {
            lemma_rendered_row_is_plain(row, new_number, rendering.palette);
            lemma_row_line_tints(
                side_by_side::rendered_row(row, new_number, rendering.palette),
                width,
                layout,
                rendering.palette,
                continued && document::only_annotations(hunk.rows.take(index)),
            );
        },
        Format::Inline { number_width } => {
            match row {
                RowView::Context(line) => {
                    lemma_context_line_tints(new_number, line, number_width);
                },
                RowView::Delete(line) => {
                    lemma_deleted_line_tints(old_number, line, number_width, rendering.palette);
                },
                RowView::Insert(line) => {
                    lemma_inserted_line_tints(new_number, line, number_width, rendering.palette);
                },
                RowView::Change { old, new } => {
                    lemma_deleted_line_tints(old_number, old, number_width, rendering.palette);
                    lemma_inserted_line_tints(new_number, new, number_width, rendering.palette);
                },
                RowView::Annotation(_) => {},
            }
        },
    }
}

proof fn lemma_rows_tint(rendering: Rendering, hunk: HunkView, n: nat, continued: bool)
    requires
        n <= hunk.rows.len(),
        hunk_is_plain(hunk),
    ensures
        lines_only_tint(rendering.rows_lines(hunk, n, continued)),
    decreases n,
{
    if n > 0 {
        let before = (n - 1) as nat;
        lemma_rows_tint(rendering, hunk, before, continued);
        lemma_row_tints(rendering, hunk, before as int, continued);
        lemma_lines_add(
            rendering.rows_lines(hunk, before, continued),
            rendering.row_lines(hunk, before as int, continued),
        );
    }
}

proof fn lemma_gap_tints(rendering: Rendering, gap: gaps::GapView)
    requires
        gaps_are_plain(rendering.gaps),
    ensures
        lines_only_tint(rendering.gap_lines(gap)),
{
    gaps::lemma_state_is_of_entry(rendering.gaps, gap.file_path, gap.hunk_index);
    match gaps::gap_state_in(rendering.gaps, gap.file_path, gap.hunk_index) {
        Some(gaps::GapStateView::Expanded(shown)) => {
            let list = rendering.gap_lines(gap);
            assert(state_is_plain(gaps::GapStateView::Expanded(shown)));
            assert forall|i: int| 0 <= i < list.len() implies only_tints(
                (#[trigger] list[i]).text,
            ) by {
                let number = (gap.start_line + i) as nat;
                assert(list[i] == rendering.filled_line(shown[i], number));
                match rendering.format {
                    Format::SideBySide { width, layout } => {
                        lemma_rendered_row_is_plain(
                            RowView::Context(shown[i]),
                            number,
                            rendering.palette,
                        );
                        lemma_row_line_tints(
                            side_by_side::same_row(shown[i], number),
                            0,
                            layout,
                            rendering.palette,
                            false,
                        );
                    },
                    Format::Inline { number_width } => {
                        lemma_context_line_tints(number, shown[i], number_width);
                    },
                }
            }
        },
        Some(gaps::GapStateView::Loading) => {
            lemma_marker_line_tints(rendering, gap, cells::spinner(rendering.frame));
        },
        None => {
            lemma_marker_line_tints(rendering, gap, '⋮');
        },
    }
}

proof fn lemma_hunk_tints(
    rendering: Rendering,
    path: Seq<char>,
    hunk_index: nat,
    previous: Option<HunkView>,
    hunk: HunkView,
)
    requires
        gaps_are_plain(rendering.gaps),
        hunk_is_plain(hunk),
    ensures
        lines_only_tint(rendering.hunk_lines(path, hunk_index, previous, hunk)),
{
    match gaps::omitted(previous, hunk) {
        Some((start_line, line_count)) => {
            let gap = gaps::GapView { file_path: path, hunk_index, start_line, line_count };
            lemma_gap_tints(rendering, gap);
            lemma_rows_tint(rendering, hunk, hunk.rows.len(), true);
            lemma_lines_add(
                rendering.gap_lines(gap),
                rendering.rows_lines(hunk, hunk.rows.len(), true),
            );
        },
        None => {
            lemma_rows_tint(rendering, hunk, hunk.rows.len(), false);
        },
    }
}

proof fn lemma_meta_tints(rendering: Rendering, line: Seq<char>)
    requires
        plain(line),
    ensures
        lines_only_tint(rendering.meta_lines(line)),
{
    match rendering.format {
        Format::SideBySide { width, layout } => {
            width::lemma_clip_without(line, width, TAB_STOP as nat, '\u{1b}');
        },
        Format::Inline { number_width } => {},
    }
}

proof fn lemma_section_tints(rendering: Rendering, path: Seq<char>, section: Seq<ItemView>)
    requires
        gaps_are_plain(rendering.gaps),
        items_are_plain(section),
    ensures
        lines_only_tint(rendering.section_lines(path, section)),
    decreases section.len(),
{
    if section.len() > 0 {
        let before = section.drop_last();
        assert forall|i: int| 0 <= i < before.len() implies item_is_plain(
            #[trigger] before[i],
        ) by {
            assert(before[i] == section[i]);
        }
        lemma_section_tints(rendering, path, before);
        assert(item_is_plain(section[section.len() - 1]));
        let above = rendering.section_lines(path, before);
        match section.last() {
            ItemView::Hunk(hunk) => {
                let hunk_index = document::hunk_count(before);
                let previous = document::last_hunk(before);
                lemma_hunk_tints(rendering, path, hunk_index, previous, hunk);
                lemma_lines_add(above, rendering.hunk_lines(path, hunk_index, previous, hunk));
            },
            ItemView::Meta(line) => {
                lemma_meta_tints(rendering, line);
                lemma_lines_add(above, rendering.meta_lines(line));
            },
            ItemView::FileHeader(_) => {
                lemma_lines_add(above, Seq::empty());
            },
        }
    }
}

proof fn lemma_part_is_plain(items: Seq<ItemView>, from: int, to: int)
    requires
        0 <= from <= to <= items.len(),
        items_are_plain(items),
    ensures
        items_are_plain(items.subrange(from, to)),
{
    let part = items.subrange(from, to);
    assert forall|i: int| 0 <= i < part.len() implies item_is_plain(#[trigger] part[i]) by {
        assert(part[i] == items[from + i]);
    }
}

proof fn lemma_lines_from_tint(
    rendering: Rendering,
    items: Seq<ItemView>,
    start: int,
    above: Seq<lines::LineView>,
)
    requires
        0 <= start <= items.len(),
        gaps_are_plain(rendering.gaps),
        items_are_plain(items),
        lines_only_tint(above),
    ensures
        lines_only_tint(rendering.lines_from(items, start, above)),
    decreases items.len() - start,
{
    if start < items.len() {
        assert(item_is_plain(items[start]));
        match items[start] {
            ItemView::FileHeader(path) => {
                let end = document::next_header(items, start + 1);
                document::lemma_next_header(items, start + 1);
                lemma_part_is_plain(items, start + 1, end);
                lemma_header_tints(path);
                let headed = rendering.with_header(above, path);
                assert forall|i: int| 0 <= i < headed.len() implies only_tints(
                    (#[trigger] headed[i]).text,
                ) by {
                    if i < above.len() {
                        assert(headed[i] == above[i]);
                    }
                }
                let section = rendering.section_lines(path, items.subrange(start + 1, end));
                lemma_section_tints(rendering, path, items.subrange(start + 1, end));
                lemma_lines_add(headed, section);
                lemma_lines_from_tint(rendering, items, end, headed + section);
            },
            ItemView::Meta(line) => {
                lemma_meta_tints(rendering, line);
                lemma_lines_add(above, rendering.meta_lines(line));
                lemma_lines_from_tint(
                    rendering,
                    items,
                    start + 1,
                    above + rendering.meta_lines(line),
                );
            },
            ItemView::Hunk(_) => {
                let end = document::next_header(items, start);
                document::lemma_next_header(items, start);
                lemma_part_is_plain(items, start, end);
                let section = rendering.section_lines(Seq::empty(), items.subrange(start, end));
                lemma_section_tints(rendering, Seq::empty(), items.subrange(start, end));
                lemma_lines_add(above, section);
                lemma_lines_from_tint(rendering, items, end, above + section);
            },
        }
    }
}

/// No foreground colors are written: where the texts of a diff and of its gaps
/// hold no escape characters, those in its lines set bold or dim text or a
/// background, or end a style, and nothing else.
pub proof fn lemma_no_foreground_colors(rendering: Rendering, items: Seq<ItemView>)
    requires
        items_are_plain(items),
        gaps_are_plain(rendering.gaps),
    ensures
        lines_only_tint(rendering.document_lines(items)),
        forall|i: int|
            0 <= i < rendering.document_lines(items).len() ==> !text::contains(
                (#[trigger] rendering.document_lines(items)[i]).text,
                "\u{1b}[38;"@,
            ),
{
    lemma_lines_from_tint(rendering, items, 0, Seq::empty());
    let list = rendering.document_lines(items);
    assert forall|i: int| 0 <= i < list.len() implies !text::contains(
        (#[trigger] list[i]).text,
        "\u{1b}[38;"@,
    ) by {
        lemma_tints_are_no_foreground(list[i].text);
    }
}

// ---------------------------------------------------------------------------
// Dim text
// ---------------------------------------------------------------------------

proof fn lemma_expanded_is_not_empty(line: Seq<char>)
    requires
        line.len() > 0,
    ensures
        cells::expanded(line).len() > 0,
{
}

/// Side by side, a line that did not change is plain on the left and dim on the
/// right.
pub proof fn lemma_unchanged_text_is_dim(
    items: Seq<ItemView>,
    screen: nat,
    layout: Layout,
    palette: TintPalette,
    k: int,
    hunk: HunkView,
    i: int,
    line: Seq<char>,
    continued: bool,
)
    requires
        layout::is_layout(layout, items, screen),
        0 <= k < items.len(),
        items[k] == ItemView::Hunk(hunk),
        0 <= i < hunk.rows.len(),
        hunk.rows[i] == RowView::Context(line),
        line.len() > 0,
    ensures
        side_by_side::row_line(
            side_by_side::rendered_row(hunk.rows[i], layout::new_number(hunk, i), palette),
            screen,
            layout,
            palette,
            continued,
        ) == cells::plain_cell(cells::expanded(line), layout.left_text_width as nat)
            + text::spaces(cells::PANE_GAP as nat) + cells::center_cell(
            text::decimal(layout::new_number(hunk, i)),
            layout.center_number_width as nat,
        ) + text::spaces(cells::PANE_GAP as nat) + ("\u{1b}[2m"@ + cells::expanded(line)
            + "\u{1b}[0m"@),
{
    lemma_expanded_is_not_empty(line);
    laws::lemma_right_text_is_kept(items, screen, layout, k, hunk, i);
}

/// Side by side, a line that was left out and is now shown is plain on the left
/// and dim on the right.
pub proof fn lemma_filled_text_is_dim(
    line: Seq<char>,
    number: nat,
    layout: Layout,
    palette: TintPalette,
)
    ensures
        side_by_side::filled_line(line, number, layout, palette).text == cells::plain_cell(
            cells::expanded(line),
            layout.left_text_width as nat,
        ) + text::spaces(cells::PANE_GAP as nat) + cells::center_cell(
            text::decimal(number),
            layout.center_number_width as nat,
        ) + text::spaces(cells::PANE_GAP as nat) + cells::dimmed(
            cells::clipped(cells::expanded(line), layout.right_render_width as nat),
        ),
{
    assert(cells::styled_cell(
        cells::expanded(line),
        None,
        layout.right_render_width as nat,
    ) =~= cells::clipped(cells::expanded(line), layout.right_render_width as nat));
}

} // verus!
