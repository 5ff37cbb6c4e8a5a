//! How the rows of a diff look: what stands where, and in which style.

use super::ansi;
use super::ansi::TextStyle;
use super::ansi::ESCAPE;
use super::paint::PaintedChar;
use super::paint_laws;
use super::pane_laws;
use crate::render::cells;
use crate::render::document;
use crate::render::layout::Layout;
use crate::render::lines;
use crate::render::side_by_side;
use crate::render::single_column;
use crate::render::TintPalette;
use crate::terminal_palette::AnsiColor;
use crate::text;
use crate::unified_diff::RowView;
use crate::width;
use crate::width::TAB_STOP;
use vstd::prelude::*;

verus! {

broadcast use vstd::seq::group_seq_axioms;

// ---------------------------------------------------------------------------
// Styles
// ---------------------------------------------------------------------------

/// Plain text on `background`.
pub open spec fn tinted(background: Option<AnsiColor>) -> TextStyle {
    TextStyle { bold: false, dim: false, italic: false, background }
}

/// Bold text.
pub open spec fn bold() -> TextStyle {
    TextStyle { bold: true, dim: false, italic: false, background: None }
}

/// Dim text on `background`.
pub open spec fn dim(background: Option<AnsiColor>) -> TextStyle {
    TextStyle { bold: false, dim: true, italic: false, background }
}

/// `line` in one style.
pub open spec fn styled(line: Seq<char>, style: TextStyle) -> Seq<PaintedChar>
    decreases line.len(),
{
    if line.len() == 0 {
        Seq::empty()
    } else {
        seq![PaintedChar { ch: line[0], style }] + styled(line.drop_first(), style)
    }
}

/// What is seen of a line.
pub open spec fn seen(line: Seq<char>) -> Seq<PaintedChar> {
    paint_laws::looks(line, tinted(None))
}

proof fn lemma_text(line: Seq<char>, style: TextStyle, rest: Seq<char>)
    requires
        text::without(line, ESCAPE),
    ensures
        paint_laws::looks(line + rest, style) == styled(line, style) + paint_laws::looks(
            rest,
            style,
        ),
    decreases line.len(),
{
    let behind = paint_laws::looks(rest, style);
    if line.len() == 0 {
        assert(line + rest =~= rest);
        assert(styled(line, style) + behind =~= behind);
    } else {
        let fewer = line.drop_first();
        assert forall|i: int| 0 <= i < fewer.len() implies #[trigger] fewer[i] != ESCAPE by {
            assert(fewer[i] == line[i + 1]);
        }
        lemma_text(fewer, style, rest);
        assert(line[0] != ESCAPE);
        lemma_first(line, line[0], style, rest);
        assert(line + rest =~= seq![line[0]] + (fewer + rest));
        paint_laws::lemma_char_reads_back(line[0], fewer + rest, style);
    }
}

proof fn lemma_first(line: Seq<char>, ch: char, style: TextStyle, rest: Seq<char>)
    requires
        line.len() > 0,
        line[0] == ch,
    ensures
        styled(line, style) == seq![PaintedChar { ch, style }] + styled(line.drop_first(), style),
        styled(line, style) + paint_laws::looks(rest, style) == seq![PaintedChar { ch, style }] + (
        styled(line.drop_first(), style) + paint_laws::looks(rest, style)),
{
    let one = seq![PaintedChar { ch, style }];
    assert(styled(line, style) == one + styled(line.drop_first(), style));
    assert(one + styled(line.drop_first(), style) + paint_laws::looks(rest, style) =~= one + (
    styled(line.drop_first(), style) + paint_laws::looks(rest, style)));
}

/// Two stretches of text in one style are one stretch.
pub proof fn lemma_styled_add(left: Seq<char>, right: Seq<char>, style: TextStyle)
    ensures
        styled(left + right, style) == styled(left, style) + styled(right, style),
    decreases left.len(),
{
    if left.len() == 0 {
        assert(left + right =~= right);
        assert(styled(left, style) + styled(right, style) =~= styled(right, style));
    } else {
        lemma_styled_add(left.drop_first(), right, style);
        assert((left + right).drop_first() =~= left.drop_first() + right);
        lemma_first(left + right, left[0], style, Seq::empty());
        lemma_first(left, left[0], style, Seq::empty());
        lemma_styled_parts(left, right, left[0], style);
    }
}

proof fn lemma_styled_parts(left: Seq<char>, right: Seq<char>, ch: char, style: TextStyle)
    ensures
        seq![PaintedChar { ch, style }] + (styled(left.drop_first(), style) + styled(right, style))
            == seq![PaintedChar { ch, style }] + styled(left.drop_first(), style) + styled(
            right,
            style,
        ),
{
    let one = seq![PaintedChar { ch, style }];
    assert(one + (styled(left.drop_first(), style) + styled(right, style)) =~= one + styled(
        left.drop_first(),
        style,
    ) + styled(right, style));
}

proof fn lemma_end(style: TextStyle)
    ensures
        paint_laws::looks(Seq::empty(), style) == Seq::<PaintedChar>::empty(),
{
}

proof fn lemma_escapes(color: AnsiColor)
    ensures
        ansi::style_escape(bold()) == "\u{1b}[1m"@,
        ansi::style_escape(dim(None)) == "\u{1b}[2m"@,
        ansi::style_escape(tinted(Some(color))) == cells::bg_code(color),
{
    reveal_strlit("\u{1b}[");
    reveal_strlit("m");
    reveal_strlit("1");
    reveal_strlit("2");
    reveal_strlit("\u{1b}[1m");
    reveal_strlit("\u{1b}[2m");
    reveal_strlit("\u{1b}[48;5;");
    reveal_strlit("\u{1b}[48;2;");
    reveal_strlit("48;5;");
    reveal_strlit("48;2;");
    assert(ansi::style_codes(bold()) =~= seq!["1"@]);
    assert(ansi::style_codes(dim(None)) =~= seq!["2"@]);
    assert(ansi::style_codes(tinted(Some(color))) =~= seq![ansi::background_codes(color)]);
    assert(ansi::style_escape(bold()) =~= "\u{1b}[1m"@);
    assert(ansi::style_escape(dim(None)) =~= "\u{1b}[2m"@);
    assert(ansi::style_escape(tinted(Some(color))) =~= cells::bg_code(color));
}

/// A stretch of text in one style, and plain text behind it.
proof fn lemma_block(style: TextStyle, line: Seq<char>, rest: Seq<char>)
    requires
        text::without(line, ESCAPE),
    ensures
        seen(ansi::style_escape(style) + line + "\u{1b}[0m"@ + rest) == styled(line, style) + seen(
            rest,
        ),
{
    let ended = "\u{1b}[0m"@ + rest;
    assert(ansi::style_escape(style) + line + "\u{1b}[0m"@ + rest =~= ansi::style_escape(style) + (
    line + ended));
    paint_laws::lemma_style_escape_reads_back(style, line + ended);
    lemma_text(line, style, ended);
    paint_laws::lemma_reset_reads_back(rest, style);
}

/// A stretch of text in one style is seen in that style, and plain text as it is.
pub proof fn lemma_stretch(style: TextStyle, line: Seq<char>)
    requires
        text::without(line, ESCAPE),
    ensures
        seen(ansi::style_escape(style) + line + "\u{1b}[0m"@) == styled(line, style),
        seen(line) == styled(line, tinted(None)),
{
    let none = Seq::<char>::empty();
    lemma_block(style, line, none);
    lemma_end(tinted(None));
    assert(ansi::style_escape(style) + line + "\u{1b}[0m"@ + none =~= ansi::style_escape(style)
        + line + "\u{1b}[0m"@);
    assert(styled(line, style) + seen(none) =~= styled(line, style));
    lemma_text(line, tinted(None), none);
    assert(line + none =~= line);
    assert(styled(line, tinted(None)) + seen(none) =~= styled(line, tinted(None)));
}

/// A file header shows its path, in bold, and nothing else. Left out are paths
/// with an escape character in them.
pub proof fn lemma_header_is_bold(path: Seq<char>)
    requires
        text::without(path, ESCAPE),
    ensures
        seen(cells::header_line(path)) == styled(path, bold()),
{
    let none = Seq::<char>::empty();
    lemma_escapes(AnsiColor::Indexed(0));
    lemma_block(bold(), path, none);
    assert(cells::header_line(path) =~= ansi::style_escape(bold()) + path + "\u{1b}[0m"@ + none);
    lemma_end(tinted(None));
    assert(styled(path, bold()) + seen(none) =~= styled(path, bold()));
}

// ---------------------------------------------------------------------------
// Side by side
// ---------------------------------------------------------------------------

/// The text on the left of a row.
pub open spec fn left_text(row: RowView) -> Seq<char> {
    match row {
        RowView::Context(line) => line,
        RowView::Delete(line) => line,
        RowView::Change { old, new } => old,
        RowView::Insert(_) => Seq::empty(),
        RowView::Annotation(_) => Seq::empty(),
    }
}

/// The text on the right of a row.
pub open spec fn right_text(row: RowView) -> Seq<char> {
    match row {
        RowView::Context(line) => line,
        RowView::Insert(line) => line,
        RowView::Change { old, new } => new,
        RowView::Delete(_) => Seq::empty(),
        RowView::Annotation(_) => Seq::empty(),
    }
}

/// Whether what a row shows has no escape character.
pub open spec fn without_escapes(row: RowView) -> bool {
    text::without(left_text(row), ESCAPE) && text::without(right_text(row), ESCAPE)
}

/// Whether `cell` is `line` in a field of `width` columns: the longest beginning
/// of the line that fits, and blanks behind it up to the end of the field.
pub open spec fn fills(cell: Seq<char>, line: Seq<char>, width: nat) -> bool {
    let kept = width::clip(line, width, TAB_STOP as nat);
    &&& cell.len() >= kept.len()
    &&& cell.take(kept.len() as int) == kept
    &&& forall|i: int| kept.len() <= i < cell.len() ==> #[trigger] cell[i] == ' '
    &&& width::columns(cell, TAB_STOP as nat) == width
}

/// Whether `cell` is `line` in the middle of a field of `width` columns, which
/// it fits into: blanks stand on both sides, and one more behind it if they are
/// odd.
pub open spec fn is_centered(cell: Seq<char>, line: Seq<char>, width: nat) -> bool {
    exists|before: nat, behind: nat|
        cell == #[trigger] text::spaces(before) + line + #[trigger] text::spaces(behind) && (before
            == behind || before + 1 == behind) && before + width::columns(line, TAB_STOP as nat)
            + behind == width
}

proof fn lemma_cell_fills(line: Seq<char>, width: nat)
    ensures
        fills(cells::plain_cell(line, width), line, width),
{
    let kept = cells::clipped(line, width);
    let room = (width - cells::shown_columns(kept)) as nat;
    width::lemma_clip(line, width, TAB_STOP as nat);
    width::lemma_columns_add(kept, text::spaces(room), TAB_STOP as nat);
    width::lemma_spaces_columns(room, TAB_STOP as nat);
    assert(cells::plain_cell(line, width).take(kept.len() as int) =~= kept);
}

proof fn lemma_cell_without_escape(line: Seq<char>, width: nat)
    requires
        text::without(line, ESCAPE),
    ensures
        text::without(cells::plain_cell(line, width), ESCAPE),
{
    let cell = cells::plain_cell(line, width);
    let kept = cells::clipped(line, width);
    width::lemma_clip_without(line, width, TAB_STOP as nat, ESCAPE);
    assert forall|i: int| 0 <= i < cell.len() implies #[trigger] cell[i] != ESCAPE by {
        if i < kept.len() {
            assert(cell[i] == kept[i]);
        }
    }
}

proof fn lemma_centered(line: Seq<char>, width: nat)
    requires
        text::without(line, ESCAPE),
        width::columns(line, TAB_STOP as nat) <= width,
    ensures
        is_centered(pane_laws::centered(line, width), line, width),
        text::without(pane_laws::centered(line, width), ESCAPE),
{
    width::lemma_clip(line, width, TAB_STOP as nat);
    let cell = pane_laws::centered(line, width);
    let room = (width - width::columns(line, TAB_STOP as nat)) as nat;
    let before = room / 2;
    let behind = (room - room / 2) as nat;
    assert(cell == text::spaces(before) + line + text::spaces(behind));
    assert forall|i: int| 0 <= i < cell.len() implies #[trigger] cell[i] != ESCAPE by {
        if before <= i < before + line.len() {
            assert(cell[i] == line[i - before]);
        }
    }
}

/// The pieces that a row of two sides is seen as.
pub struct SeenRow {
    pub left: Seq<char>,
    pub left_style: TextStyle,
    pub number: Seq<char>,
    pub mark: TextStyle,
    pub right: Seq<char>,
    pub right_style: TextStyle,
}

impl SeenRow {
    /// The pieces one behind the other: the left text, two blanks, the number in
    /// bold, a blank, the mark of a new line, and the right text.
    pub open spec fn all(self) -> Seq<PaintedChar> {
        styled(self.left, self.left_style) + styled(text::spaces(2), tinted(None)) + styled(
            self.number,
            bold(),
        ) + styled(text::spaces(1), tinted(None)) + styled(text::spaces(1), self.mark) + styled(
            self.right,
            self.right_style,
        )
    }
}

proof fn lemma_seen_left(left: Seq<char>, background: Option<AnsiColor>, width: nat, rest: Seq<char>)
    requires
        text::without(left, ESCAPE),
    ensures
        seen(side_by_side::left_cell(left, background, width) + rest) == styled(
            cells::plain_cell(left, width),
            tinted(background),
        ) + seen(rest),
{
    let cell = cells::plain_cell(left, width);
    lemma_cell_without_escape(left, width);
    match background {
        None => {
            lemma_text(cell, tinted(None), rest);
        },
        Some(color) => {
            lemma_escapes(color);
            lemma_block(tinted(background), cell, rest);
        },
    }
}

proof fn lemma_seen_number(label: Seq<char>, width: nat, rest: Seq<char>)
    requires
        text::without(label, ESCAPE),
        width::columns(label, TAB_STOP as nat) <= width,
    ensures
        seen(cells::center_cell(label, width) + rest) == styled(
            pane_laws::centered(label, width),
            bold(),
        ) + seen(rest),
{
    let middle = pane_laws::centered(label, width);
    lemma_centered(label, width);
    lemma_escapes(AnsiColor::Indexed(0));
    lemma_block(bold(), middle, rest);
    assert(cells::center_cell(label, width) + rest =~= ansi::style_escape(bold()) + middle
        + "\u{1b}[0m"@ + rest);
}

proof fn lemma_seen_gutter(marked: bool, palette: TintPalette, rest: Seq<char>)
    ensures
        seen(side_by_side::gutter_cell(marked, palette) + rest) == styled(
            text::spaces(1),
            tinted(None),
        ) + styled(
            text::spaces(1),
            tinted(
                if marked {
                    palette.gutter_fg
                } else {
                    None
                },
            ),
        ) + seen(rest),
{
    let blank = text::spaces(1);
    let plain = styled(blank, tinted(None));
    match palette.gutter_fg {
        Some(color) if marked => {
            reveal_strlit(" ");
            assert(" "@ =~= blank);
            lemma_escapes(color);
            let tail = ansi::style_escape(tinted(Some(color))) + blank + "\u{1b}[0m"@ + rest;
            lemma_block(tinted(Some(color)), blank, rest);
            lemma_text(blank, tinted(None), tail);
            assert(side_by_side::gutter_cell(marked, palette) + rest =~= blank + tail);
            assert(plain + (styled(blank, tinted(Some(color))) + seen(rest)) =~= plain + styled(
                blank,
                tinted(Some(color)),
            ) + seen(rest));
        },
        _ => {
            let two = text::spaces(2);
            lemma_text(two, tinted(None), rest);
            assert(side_by_side::gutter_cell(marked, palette) =~= two);
            assert(two =~= blank + blank);
            lemma_styled_add(blank, blank, tinted(None));
        },
    }
}

/// What the right cell of a row shows.
pub open spec fn right_shown(right: Seq<char>, marked: bool) -> Seq<char> {
    if right.len() == 0 && marked {
        text::spaces(1)
    } else {
        right
    }
}

proof fn lemma_seen_right(right: Seq<char>, marked: bool, is_dim: bool, width: nat)
    requires
        text::without(right, ESCAPE),
        width::columns(right, TAB_STOP as nat) <= width,
        !(marked && is_dim),
    ensures
        seen(side_by_side::right_cell(right, None, marked, is_dim, width)) == styled(
            right_shown(right, marked),
            if is_dim {
                dim(None)
            } else {
                tinted(None)
            },
        ),
{
    width::lemma_clip(right, width, TAB_STOP as nat);
    let cell = side_by_side::right_cell(right, None, marked, is_dim, width);
    let none = Seq::<char>::empty();
    let shown = right_shown(right, marked);
    lemma_end(tinted(None));
    reveal_strlit(" ");
    assert(" "@ =~= text::spaces(1));
    if is_dim && right.len() > 0 {
        lemma_escapes(AnsiColor::Indexed(0));
        lemma_block(dim(None), right, none);
        assert(cell =~= ansi::style_escape(dim(None)) + right + "\u{1b}[0m"@ + none);
        assert(styled(right, dim(None)) + seen(none) =~= styled(right, dim(None)));
    } else {
        assert(cell =~= shown);
        assert(shown + none =~= shown);
        lemma_text(shown, tinted(None), none);
        assert(styled(shown, tinted(None)) + seen(none) =~= styled(shown, tinted(None)));
        if is_dim {
            assert(styled(shown, tinted(None)) =~= styled(shown, dim(None)));
        }
    }
}

proof fn lemma_seen_pieces(
    row: SeenRow,
    left: Seq<PaintedChar>,
    number: Seq<PaintedChar>,
    gutter: Seq<PaintedChar>,
    right: Seq<PaintedChar>,
)
    requires
        left == styled(row.left, row.left_style),
        number == styled(row.number, bold()),
        gutter == styled(text::spaces(1), tinted(None)) + styled(text::spaces(1), row.mark),
        right == styled(row.right, row.right_style),
    ensures
        left + (styled(text::spaces(2), tinted(None)) + (number + (gutter + right))) == row.all(),
{
    assert(left + (styled(text::spaces(2), tinted(None)) + (number + (gutter + right)))
        =~= row.all());
}

/// The background of the left text of a row: lines that are gone are tinted.
pub open spec fn left_background(row: RowView, palette: TintPalette) -> Option<AnsiColor> {
    if row is Delete || row is Change {
        palette.changed_line_bg
    } else {
        None
    }
}

/// Whether a row has a line that is new.
pub open spec fn is_new(row: RowView) -> bool {
    row is Insert || row is Change
}

/// What is seen of a row of two sides, from left to right: its left text with
/// its tabs expanded, in the columns of the left side and tinted if it is gone;
/// the number of its line on the right, if it has one, in the middle and in
/// bold; a mark if that line is new; and its right text, whole and with its tabs
/// expanded, dim if it did not change. Nothing else is there. Left out are texts
/// with an escape character in them.
pub proof fn lemma_row_is_seen(
    row: RowView,
    number: nat,
    screen: nat,
    layout: Layout,
    palette: TintPalette,
) -> (pieces: SeenRow)
    requires
        !(row is Annotation),
        without_escapes(row),
        text::decimal(number).len() <= layout.center_number_width,
        width::columns(cells::expanded(right_text(row)), TAB_STOP as nat)
            <= layout.right_render_width,
    ensures
        seen(
            side_by_side::row_line(
                side_by_side::rendered_row(row, number, palette),
                screen,
                layout,
                palette,
                false,
            ),
        ) == pieces.all(),
        fills(pieces.left, cells::expanded(left_text(row)), layout.left_text_width as nat),
        pieces.left_style == tinted(left_background(row, palette)),
        is_centered(
            pieces.number,
            if row is Delete {
                Seq::empty()
            } else {
                text::decimal(number)
            },
            layout.center_number_width as nat,
        ),
        pieces.mark == tinted(
            if is_new(row) {
                palette.gutter_fg
            } else {
                None
            },
        ),
        pieces.right == right_shown(cells::expanded(right_text(row)), is_new(row)),
        pieces.right_style == if row is Context {
            dim(None)
        } else {
            tinted(None)
        },
{
    let left = cells::expanded(left_text(row));
    let right = cells::expanded(right_text(row));
    let label = if row is Delete {
        Seq::empty()
    } else {
        text::decimal(number)
    };
    lemma_nothing_expanded();
    width::lemma_expand_tabs_without(left_text(row), 0, ESCAPE);
    width::lemma_expand_tabs_without(right_text(row), 0, ESCAPE);
    lemma_label(row, number);
    let pieces = SeenRow {
        left: cells::plain_cell(left, layout.left_text_width as nat),
        left_style: tinted(left_background(row, palette)),
        number: pane_laws::centered(label, layout.center_number_width as nat),
        mark: tinted(
            if is_new(row) {
                palette.gutter_fg
            } else {
                None
            },
        ),
        right: right_shown(right, is_new(row)),
        right_style: if row is Context {
            dim(None)
        } else {
            tinted(None)
        },
    };
    lemma_cell_fills(left, layout.left_text_width as nat);
    lemma_centered(label, layout.center_number_width as nat);
    lemma_seen_row(row, label, number, screen, layout, palette, pieces);
    pieces
}

proof fn lemma_nothing_expanded()
    ensures
        cells::expanded(Seq::empty()) == Seq::<char>::empty(),
{
    assert(cells::expanded(Seq::<char>::empty()) =~= Seq::<char>::empty());
}

proof fn lemma_label(row: RowView, number: nat)
    ensures
        ({
            let label = if row is Delete {
                Seq::empty()
            } else {
                text::decimal(number)
            };
            &&& text::without(label, ESCAPE)
            &&& width::columns(label, TAB_STOP as nat) <= text::decimal(number).len()
        }),
{
    paint_laws::lemma_decimal_reads_back(number, number);
    let digits = text::decimal(number);
    assert forall|i: int| 0 <= i < digits.len() implies #[trigger] digits[i] != ESCAPE by {
        assert(text::is_digit(digits[i]));
    }
    lemma_digit_columns(digits);
    assert(width::columns(Seq::<char>::empty(), TAB_STOP as nat) == 0);
}

proof fn lemma_digit_columns(digits: Seq<char>)
    requires
        text::all_digits(digits),
    ensures
        width::columns(digits, TAB_STOP as nat) == digits.len(),
    decreases digits.len(),
{
    if digits.len() > 0 {
        let rest = digits.drop_first();
        assert forall|i: int| 0 <= i < rest.len() implies text::is_digit(#[trigger] rest[i]) by {
            assert(rest[i] == digits[i + 1]);
        }
        lemma_digit_columns(rest);
        assert(text::is_digit(digits[0]));
    }
}

#[verifier::rlimit(40)]
proof fn lemma_seen_row(
    row: RowView,
    label: Seq<char>,
    number: nat,
    screen: nat,
    layout: Layout,
    palette: TintPalette,
    pieces: SeenRow,
)
    requires
        !(row is Annotation),
        label == if row is Delete {
            Seq::empty()
        } else {
            text::decimal(number)
        },
        text::without(label, ESCAPE),
        width::columns(label, TAB_STOP as nat) <= layout.center_number_width,
        text::without(cells::expanded(left_text(row)), ESCAPE),
        text::without(cells::expanded(right_text(row)), ESCAPE),
        width::columns(cells::expanded(right_text(row)), TAB_STOP as nat)
            <= layout.right_render_width,
        pieces.left == cells::plain_cell(
            cells::expanded(left_text(row)),
            layout.left_text_width as nat,
        ),
        pieces.left_style == tinted(left_background(row, palette)),
        pieces.number == pane_laws::centered(label, layout.center_number_width as nat),
        pieces.mark == tinted(
            if is_new(row) {
                palette.gutter_fg
            } else {
                None
            },
        ),
        pieces.right == right_shown(cells::expanded(right_text(row)), is_new(row)),
        pieces.right_style == if row is Context {
            dim(None)
        } else {
            tinted(None)
        },
    ensures
        seen(
            side_by_side::row_line(
                side_by_side::rendered_row(row, number, palette),
                screen,
                layout,
                palette,
                false,
            ),
        ) == pieces.all(),
{
    lemma_nothing_expanded();
    let left = cells::expanded(left_text(row));
    let right = cells::expanded(right_text(row));
    let background = left_background(row, palette);
    let left_width = layout.left_text_width as nat;
    let number_width = layout.center_number_width as nat;
    let gap = text::spaces(2);
    let last = side_by_side::right_cell(
        right,
        None,
        is_new(row),
        row is Context,
        layout.right_render_width as nat,
    );
    let gutter = side_by_side::gutter_cell(is_new(row), palette) + last;
    let center = cells::center_cell(label, number_width) + gutter;
    let parted = gap + center;
    let whole = side_by_side::left_cell(left, background, left_width) + parted;
    lemma_row_text(row, number, screen, layout, palette, label);
    assert(side_by_side::row_line(
        side_by_side::rendered_row(row, number, palette),
        screen,
        layout,
        palette,
        false,
    ) =~= whole);
    lemma_seen_left(left, background, left_width, parted);
    lemma_text(gap, tinted(None), center);
    lemma_seen_number(label, number_width, gutter);
    lemma_seen_gutter(is_new(row), palette, last);
    lemma_seen_right(right, is_new(row), row is Context, layout.right_render_width as nat);
    let mark = styled(text::spaces(1), tinted(None)) + styled(text::spaces(1), pieces.mark);
    assert(mark + seen(last) =~= styled(text::spaces(1), tinted(None)) + styled(
        text::spaces(1),
        pieces.mark,
    ) + seen(last));
    lemma_seen_pieces(
        pieces,
        styled(pieces.left, pieces.left_style),
        styled(pieces.number, bold()),
        mark,
        seen(last),
    );
}

/// What a row of two sides is made of, whatever its texts hold: its left text with
/// its tabs expanded on its background, two blanks, the number of its line on the
/// right, the mark of a new line, and its right text with its tabs expanded.
#[verifier::rlimit(40)]
pub proof fn lemma_row_text(
    row: RowView,
    number: nat,
    screen: nat,
    layout: Layout,
    palette: TintPalette,
    label: Seq<char>,
)
    requires
        !(row is Annotation),
        label == if row is Delete {
            Seq::empty()
        } else {
            text::decimal(number)
        },
    ensures
        side_by_side::row_line(
            side_by_side::rendered_row(row, number, palette),
            screen,
            layout,
            palette,
            false,
        ) == side_by_side::left_cell(
            cells::expanded(left_text(row)),
            left_background(row, palette),
            layout.left_text_width as nat,
        ) + text::spaces(2) + cells::center_cell(label, layout.center_number_width as nat)
            + side_by_side::gutter_cell(is_new(row), palette) + side_by_side::right_cell(
            cells::expanded(right_text(row)),
            None,
            is_new(row),
            row is Context,
            layout.right_render_width as nat,
        ),
{
    lemma_nothing_expanded();
}

/// An annotation goes over both sides, cut to the screen.
pub proof fn lemma_annotation_is_seen(
    line: Seq<char>,
    number: nat,
    screen: nat,
    layout: Layout,
    palette: TintPalette,
    continued: bool,
)
    ensures
        ({
            let shown = side_by_side::row_line(
                side_by_side::rendered_row(RowView::Annotation(line), number, palette),
                screen,
                layout,
                palette,
                continued,
            );
            &&& shown.len() <= line.len()
            &&& shown == line.take(shown.len() as int)
            &&& width::columns(shown, TAB_STOP as nat) <= screen
            &&& width::columns(line, TAB_STOP as nat) <= screen ==> shown == line
        }),
{
    width::lemma_clip(line, screen, TAB_STOP as nat);
}

/// Right below a gap two dots stand for a left side that is empty. Everything
/// else is as it is elsewhere: a row whose left side is not empty is the same,
/// and an empty one is as if its left text were two dots.
#[verifier::rlimit(40)]
pub proof fn lemma_dots_below_gap(
    row: RowView,
    number: nat,
    screen: nat,
    layout: Layout,
    palette: TintPalette,
    continued: bool,
)
    requires
        !(row is Annotation),
    ensures
        ({
            let rendered = side_by_side::rendered_row(row, number, palette);
            let shown = side_by_side::row_line(rendered, screen, layout, palette, true);
            let elsewhere = side_by_side::row_line(rendered, screen, layout, palette, false);
            let dots = side_by_side::left_cell(
                seq!['.', '.'],
                left_background(row, palette),
                layout.left_text_width as nat,
            );
            let nothing = side_by_side::left_cell(
                Seq::empty(),
                left_background(row, palette),
                layout.left_text_width as nat,
            );
            &&& cells::expanded(left_text(row)).len() > 0 ==> shown == elsewhere
            &&& cells::expanded(left_text(row)).len() == 0 ==> exists|rest: Seq<char>| shown
                == dots + rest && #[trigger] (nothing + rest) == elsewhere
        }),
{
    lemma_nothing_expanded();
    let rendered = side_by_side::rendered_row(row, number, palette);
    let shown = side_by_side::row_line(rendered, screen, layout, palette, true);
    let elsewhere = side_by_side::row_line(rendered, screen, layout, palette, false);
    let left = cells::expanded(left_text(row));
    let left_width = layout.left_text_width as nat;
    let background = left_background(row, palette);
    let label = if row is Delete {
        Seq::empty()
    } else {
        text::decimal(number)
    };
    lemma_row_text(row, number, screen, layout, palette, label);
    if left.len() == 0 {
        reveal_strlit("..");
        assert(".."@ =~= seq!['.', '.']);
        assert(left =~= Seq::<char>::empty());
        let rest = text::spaces(2) + cells::center_cell(label, layout.center_number_width as nat)
            + side_by_side::gutter_cell(is_new(row), palette) + side_by_side::right_cell(
            cells::expanded(right_text(row)),
            None,
            is_new(row),
            row is Context,
            layout.right_render_width as nat,
        );
        assert(shown =~= side_by_side::left_cell(seq!['.', '.'], background, left_width) + rest);
        assert(side_by_side::left_cell(Seq::empty(), background, left_width) + rest =~= elsewhere);
    }
}

// ---------------------------------------------------------------------------
// A single column
// ---------------------------------------------------------------------------

/// A line number at the right end of its columns.
pub open spec fn number_field(number: nat, width: nat) -> Seq<char> {
    text::pad_left(text::decimal(number), width)
}

proof fn lemma_number_field(number: nat, width: nat)
    ensures
        text::without(number_field(number, width), ESCAPE),
{
    paint_laws::lemma_decimal_reads_back(number, number);
    let digits = text::decimal(number);
    let cell = number_field(number, width);
    assert forall|i: int| 0 <= i < cell.len() implies #[trigger] cell[i] != ESCAPE by {
        let room = cell.len() - digits.len();
        if i >= room {
            assert(cell[i] == digits[i - room]);
            assert(text::is_digit(digits[i - room]));
        }
    }
}

/// In a single column a line that did not change is its number, two blanks and
/// its text with its tabs expanded, all plain. Left out are texts with an escape
/// character in them, here and below.
pub proof fn lemma_context_is_seen(number: nat, line: Seq<char>, number_width: nat)
    requires
        text::without(line, ESCAPE),
    ensures
        seen(single_column::context_line(number, line, number_width)) == styled(
            number_field(number, number_width) + text::spaces(2) + cells::expanded(line),
            tinted(None),
        ),
{
    let none = Seq::<char>::empty();
    let shown = number_field(number, number_width) + text::spaces(2) + cells::expanded(line);
    reveal_strlit("  ");
    assert("  "@ =~= text::spaces(2));
    lemma_number_field(number, number_width);
    width::lemma_expand_tabs_without(line, 0, ESCAPE);
    lemma_joined_without(number_field(number, number_width), text::spaces(2));
    lemma_joined_without(
        number_field(number, number_width) + text::spaces(2),
        cells::expanded(line),
    );
    lemma_text(shown, tinted(None), none);
    assert(shown + none =~= shown);
    lemma_end(tinted(None));
    assert(styled(shown, tinted(None)) + seen(none) =~= styled(shown, tinted(None)));
}

proof fn lemma_joined_without(left: Seq<char>, right: Seq<char>)
    requires
        text::without(left, ESCAPE),
        text::without(right, ESCAPE),
    ensures
        text::without(left + right, ESCAPE),
{
    let all = left + right;
    assert forall|i: int| 0 <= i < all.len() implies #[trigger] all[i] != ESCAPE by {
        if i < left.len() {
            assert(all[i] == left[i]);
        } else {
            assert(all[i] == right[i - left.len()]);
        }
    }
}

/// In a single column a line that is gone is its number and its text, which is
/// dim. Both are tinted, with two blanks between them; without a tint a minus
/// sign stands in front of the text.
#[verifier::rlimit(40)]
pub proof fn lemma_deleted_is_seen(
    number: nat,
    line: Seq<char>,
    number_width: nat,
    palette: TintPalette,
)
    requires
        text::without(line, ESCAPE),
    ensures
        seen(single_column::deleted_line(number, line, number_width, palette)) == styled(
            number_field(number, number_width) + if palette.changed_line_bg is Some {
                seq![' ', ' ']
            } else {
                seq![' ', '-']
            },
            tinted(palette.changed_line_bg),
        ) + styled(cells::expanded(line), dim(palette.changed_line_bg)),
{
    let none = Seq::<char>::empty();
    let kept = cells::expanded(line);
    let field = number_field(number, number_width);
    let ended = "\u{1b}[0m"@ + none;
    let tail = kept + ended;
    reveal_strlit("  ");
    reveal_strlit(" -");
    lemma_number_field(number, number_width);
    width::lemma_expand_tabs_without(line, 0, ESCAPE);
    let background = palette.changed_line_bg;
    let sign = if background is Some {
        seq![' ', ' ']
    } else {
        seq![' ', '-']
    };
    let head = field + sign;
    lemma_joined_without(field, sign);
    lemma_dim_on(background, tail);
    lemma_text(kept, dim(background), ended);
    paint_laws::lemma_reset_reads_back(none, dim(background));
    lemma_end(tinted(None));
    assert(styled(kept, dim(background)) + seen(none) =~= styled(kept, dim(background)));
    lemma_text(head, tinted(background), "\u{1b}[2m"@ + tail);
    match background {
        Some(color) => {
            assert("  "@ =~= sign);
            lemma_escapes(color);
            paint_laws::lemma_style_escape_reads_back(
                tinted(background),
                head + ("\u{1b}[2m"@ + tail),
            );
            assert(single_column::deleted_line(number, line, number_width, palette)
                =~= ansi::style_escape(tinted(background)) + (head + ("\u{1b}[2m"@ + tail)));
        },
        None => {
            assert(" -"@ =~= sign);
            assert(single_column::deleted_line(number, line, number_width, palette) =~= head + (
            "\u{1b}[2m"@ + tail));
        },
    }
}

/// The code for dim text makes text dim and leaves its background.
proof fn lemma_dim_on(background: Option<AnsiColor>, rest: Seq<char>)
    ensures
        paint_laws::looks("\u{1b}[2m"@ + rest, tinted(background)) == paint_laws::looks(
            rest,
            dim(background),
        ),
{
    reveal_strlit("\u{1b}[");
    reveal_strlit("m");
    reveal_strlit("2");
    reveal_strlit("\u{1b}[2m");
    assert("\u{1b}[2m"@ + rest =~= "\u{1b}["@ + "2"@ + "m"@ + rest);
    assert(text::without("2"@, 'm'));
    paint_laws::lemma_escape_reads_back("2"@, rest, tinted(background));
    paint_laws::lemma_code(tinted(background), 2);
    assert("2"@ =~= text::decimal(2));
}

/// In a single column a line that is new is its number, a blank, a mark in the
/// color of the palette, which is a blank without one, and its text, plain. A
/// blank stands for an empty text behind a mark.
#[verifier::rlimit(40)]
pub proof fn lemma_inserted_is_seen(
    number: nat,
    line: Seq<char>,
    number_width: nat,
    palette: TintPalette,
)
    requires
        text::without(line, ESCAPE),
    ensures
        seen(single_column::inserted_line(number, line, number_width, palette)) == styled(
            number_field(number, number_width) + text::spaces(1),
            tinted(None),
        ) + styled(text::spaces(1), tinted(palette.gutter_fg)) + styled(
            right_shown(cells::expanded(line), palette.gutter_fg is Some),
            tinted(None),
        ),
{
    let none = Seq::<char>::empty();
    let field = number_field(number, number_width);
    let blank = text::spaces(1);
    let head = field + blank;
    let shown = right_shown(cells::expanded(line), palette.gutter_fg is Some);
    reveal_strlit(" ");
    reveal_strlit(" \u{1b}[0m");
    reveal_strlit("\u{1b}[0m");
    assert(" "@ =~= blank);
    lemma_number_field(number, number_width);
    width::lemma_expand_tabs_without(line, 0, ESCAPE);
    lemma_joined_without(field, blank);
    lemma_text(shown, tinted(None), none);
    assert(shown + none =~= shown);
    lemma_end(tinted(None));
    assert(styled(shown, tinted(None)) + seen(none) =~= styled(shown, tinted(None)));
    match palette.gutter_fg {
        Some(color) => {
            lemma_escapes(color);
            let tail = ansi::style_escape(tinted(Some(color))) + blank + "\u{1b}[0m"@ + shown;
            lemma_block(tinted(Some(color)), blank, shown);
            lemma_text(head, tinted(None), tail);
            assert(single_column::inserted_line(number, line, number_width, palette) =~= head
                + tail);
            assert(styled(head, tinted(None)) + (styled(blank, tinted(Some(color))) + styled(
                shown,
                tinted(None),
            )) =~= styled(head, tinted(None)) + styled(blank, tinted(Some(color))) + styled(
                shown,
                tinted(None),
            ));
        },
        None => {
            lemma_text(head, tinted(None), blank + shown);
            lemma_text(blank, tinted(None), shown);
            assert(single_column::inserted_line(number, line, number_width, palette) =~= head + (
            blank + shown));
            assert(styled(head, tinted(None)) + (styled(blank, tinted(None)) + styled(
                shown,
                tinted(None),
            )) =~= styled(head, tinted(None)) + styled(blank, tinted(None)) + styled(
                shown,
                tinted(None),
            ));
        },
    }
}

/// In a single column a row is one line for each side that it shows: a changed
/// line is the line that is gone, with its number on the left, and below it the
/// line that is new, with its number on the right. A line that is gone has its
/// number on the left, any other that on the right, and an annotation is as it
/// is.
pub proof fn lemma_inline_row(
    row: RowView,
    old_number: nat,
    new_number: nat,
    number_width: nat,
    palette: TintPalette,
)
    ensures
        ({
            let shown = document::inline_row_lines(
                row,
                old_number,
                new_number,
                number_width,
                palette,
            );
            let gone = single_column::deleted_line(
                old_number,
                left_text(row),
                number_width,
                palette,
            );
            let new = single_column::inserted_line(
                new_number,
                right_text(row),
                number_width,
                palette,
            );
            &&& row is Context ==> shown == seq![
                lines::text_line(
                    single_column::context_line(new_number, right_text(row), number_width),
                ),
            ]
            &&& row is Delete ==> shown == seq![lines::text_line(gone)]
            &&& row is Insert ==> shown == seq![lines::text_line(new)]
            &&& row is Change ==> shown == seq![lines::text_line(gone), lines::text_line(new)]
            &&& row matches RowView::Annotation(line) ==> shown == seq![lines::text_line(line)]
        }),
{
}

/// The pieces of a row, whatever its texts hold: a background is set in front of
/// the left text and ended behind it, and so is bold text around the number and
/// dim text around a line that did not change.
pub proof fn lemma_pieces_of_row(
    line: Seq<char>,
    label: Seq<char>,
    color: AnsiColor,
    width: nat,
    palette: TintPalette,
    marked: bool,
)
    ensures
        ({
            let kept = width::clip(line, width, TAB_STOP as nat);
            let room = (width - width::columns(kept, TAB_STOP as nat)) as nat;
            let shown = width::clip(label, width, TAB_STOP as nat);
            let space = (width - width::columns(shown, TAB_STOP as nat)) as nat;
            let reset = seq![ESCAPE, '[', '0', 'm'];
            &&& side_by_side::left_cell(line, None, width) == kept + text::spaces(room)
            &&& side_by_side::left_cell(line, Some(color), width) == cells::bg_code(color) + (kept
                + text::spaces(room)) + reset
            &&& cells::center_cell(label, width) == seq![ESCAPE, '[', '1', 'm'] + text::spaces(
                space / 2,
            ) + shown + text::spaces((space - space / 2) as nat) + reset
            &&& side_by_side::right_cell(line, None, marked, false, width) == if kept.len() == 0
                && marked {
                seq![' ']
            } else {
                kept
            }
            &&& side_by_side::right_cell(line, None, false, true, width) == if kept.len() == 0 {
                kept
            } else {
                seq![ESCAPE, '[', '2', 'm'] + kept + reset
            }
            &&& marked ==> (palette.gutter_fg matches Some(mark) ==> side_by_side::gutter_cell(
                marked,
                palette,
            ) == seq![' '] + cells::bg_code(mark) + seq![' '] + reset)
            &&& !marked || palette.gutter_fg is None ==> side_by_side::gutter_cell(marked, palette)
                == seq![' ', ' ']
        }),
{
    reveal_strlit("\u{1b}[0m");
    reveal_strlit("\u{1b}[1m");
    reveal_strlit("\u{1b}[2m");
    reveal_strlit(" ");
    let reset = seq![ESCAPE, '[', '0', 'm'];
    assert("\u{1b}[0m"@ =~= reset);
    assert("\u{1b}[1m"@ =~= seq![ESCAPE, '[', '1', 'm']);
    assert("\u{1b}[2m"@ =~= seq![ESCAPE, '[', '2', 'm']);
    assert(" "@ =~= seq![' ']);
    let kept = width::clip(line, width, TAB_STOP as nat);
    assert(cells::styled_cell(line, None, width) =~= kept);
    assert(text::spaces(2) =~= seq![' ', ' ']);
}

/// The lines of a single column, whatever their texts hold.
pub proof fn lemma_inline_text(
    number: nat,
    line: Seq<char>,
    number_width: nat,
    palette: TintPalette,
)
    ensures
        ({
            let field = number_field(number, number_width);
            let shown = cells::expanded(line);
            let reset = seq![ESCAPE, '[', '0', 'm'];
            let payload = seq![ESCAPE, '[', '2', 'm'] + shown + reset;
            &&& single_column::context_line(number, line, number_width) == field + seq![' ', ' ']
                + shown
            &&& single_column::deleted_line(number, line, number_width, palette) == match (
            palette.changed_line_bg) {
                Some(color) => cells::bg_code(color) + field + seq![' ', ' '] + payload,
                None => field + seq![' ', '-'] + payload,
            }
            &&& single_column::inserted_line(number, line, number_width, palette) == match (
            palette.gutter_fg) {
                Some(color) => field + seq![' '] + cells::bg_code(color) + seq![' '] + reset + if (
                shown.len() == 0) {
                    seq![' ']
                } else {
                    shown
                },
                None => field + seq![' ', ' '] + shown,
            }
            &&& cells::header_line(line) == seq![ESCAPE, '[', '1', 'm'] + line + reset
        }),
{
    reveal_strlit("\u{1b}[0m");
    reveal_strlit("\u{1b}[1m");
    reveal_strlit("\u{1b}[2m");
    reveal_strlit(" \u{1b}[0m");
    reveal_strlit(" ");
    reveal_strlit("  ");
    reveal_strlit(" -");
    let reset = seq![ESCAPE, '[', '0', 'm'];
    assert("\u{1b}[0m"@ =~= reset);
    assert("\u{1b}[1m"@ =~= seq![ESCAPE, '[', '1', 'm']);
    assert("\u{1b}[2m"@ =~= seq![ESCAPE, '[', '2', 'm']);
    assert(" "@ =~= seq![' ']);
    assert("  "@ =~= seq![' ', ' ']);
    assert(" -"@ =~= seq![' ', '-']);
    assert(" \u{1b}[0m"@ =~= seq![' '] + reset);
    let field = number_field(number, number_width);
    let shown = cells::expanded(line);
    match palette.gutter_fg {
        Some(mark) => {
            let last = if shown.len() == 0 {
                seq![' ']
            } else {
                shown
            };
            assert(single_column::inserted_line(number, line, number_width, palette) =~= field
                + seq![' '] + cells::bg_code(mark) + seq![' '] + reset + last);
        },
        None => {
            assert(single_column::inserted_line(number, line, number_width, palette) =~= field
                + seq![' ', ' '] + shown);
        },
    }
}

} // verus!
