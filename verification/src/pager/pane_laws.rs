//! How the panes that the renderer makes look to the pager.

use super::ansi;
use super::ansi::ESCAPE;
use super::columns;
use super::paint;
use super::paint_laws;
use crate::render::cells;
use crate::render::cells::PANE_GAP;
use crate::render::laws;
use crate::render::layout;
use crate::render::layout::Layout;
use crate::render::layout::PaneLayout;
use crate::render::side_by_side;
use crate::render::side_by_side::RenderedRowView;
use crate::render::TintPalette;
use crate::terminal_palette::AnsiColor;
use crate::text;
use crate::unified_diff::HunkView;
use crate::unified_diff::ItemView;
use crate::unified_diff::RowView;
use crate::width;
use crate::width::TAB_STOP;
use vstd::prelude::*;

verus! {

broadcast use vstd::seq::group_seq_axioms;

// ---------------------------------------------------------------------------
// What is shown of text that is put together
// ---------------------------------------------------------------------------

proof fn lemma_shown_char(ch: char, rest: Seq<char>)
    requires
        ch != ESCAPE,
    ensures
        ansi::shown_text(seq![ch] + rest) == seq![ch] + ansi::shown_text(rest),
{
    let whole = seq![ch] + rest;
    assert(whole[0] == ch);
    assert(whole.drop_first() =~= rest);
}

/// Text without escape characters is shown as it is.
pub proof fn lemma_shown_plain(plain: Seq<char>, rest: Seq<char>)
    requires
        text::without(plain, ESCAPE),
    ensures
        ansi::shown_text(plain + rest) == plain + ansi::shown_text(rest),
    decreases plain.len(),
{
    if plain.len() == 0 {
        assert(plain + rest =~= rest);
        assert(plain + ansi::shown_text(rest) =~= ansi::shown_text(rest));
    } else {
        let fewer = plain.drop_first();
        assert forall|i: int| 0 <= i < fewer.len() implies #[trigger] fewer[i] != ESCAPE by {
            assert(fewer[i] == plain[i + 1]);
        }
        lemma_shown_plain(fewer, rest);
        assert(plain + rest =~= seq![plain[0]] + (fewer + rest));
        assert(plain[0] != ESCAPE);
        lemma_shown_char(plain[0], fewer + rest);
        assert(seq![plain[0]] + (fewer + ansi::shown_text(rest)) =~= plain + ansi::shown_text(
            rest,
        ));
    }
}

/// An escape sequence is not shown.
pub proof fn lemma_shown_escape(codes: Seq<char>, rest: Seq<char>)
    requires
        text::without(codes, 'm'),
    ensures
        ansi::shown_text("\u{1b}["@ + codes + "m"@ + rest) == ansi::shown_text(rest),
{
    reveal_strlit("\u{1b}[");
    reveal_strlit("m");
    let whole = "\u{1b}["@ + codes + "m"@ + rest;
    assert(whole[0] == ESCAPE && whole[1] == '[');
    assert(whole.skip(2) =~= codes + seq!['m'] + rest);
    paint_laws::lemma_find_behind(codes, 'm', rest);
    assert(ansi::after_escape(whole) =~= rest);
}

proof fn lemma_shown_bold(rest: Seq<char>)
    ensures
        ansi::shown_text("\u{1b}[1m"@ + rest) == ansi::shown_text(rest),
{
    reveal_strlit("\u{1b}[");
    reveal_strlit("m");
    reveal_strlit("1");
    reveal_strlit("\u{1b}[1m");
    assert("\u{1b}[1m"@ + rest =~= "\u{1b}["@ + "1"@ + "m"@ + rest);
    assert(text::without("1"@, 'm'));
    lemma_shown_escape("1"@, rest);
}

proof fn lemma_shown_dim(rest: Seq<char>)
    ensures
        ansi::shown_text("\u{1b}[2m"@ + rest) == ansi::shown_text(rest),
{
    reveal_strlit("\u{1b}[");
    reveal_strlit("m");
    reveal_strlit("2");
    reveal_strlit("\u{1b}[2m");
    assert("\u{1b}[2m"@ + rest =~= "\u{1b}["@ + "2"@ + "m"@ + rest);
    assert(text::without("2"@, 'm'));
    lemma_shown_escape("2"@, rest);
}

proof fn lemma_shown_reset(rest: Seq<char>)
    ensures
        ansi::shown_text("\u{1b}[0m"@ + rest) == ansi::shown_text(rest),
{
    reveal_strlit("\u{1b}[");
    reveal_strlit("m");
    reveal_strlit("0");
    reveal_strlit("\u{1b}[0m");
    assert("\u{1b}[0m"@ + rest =~= "\u{1b}["@ + "0"@ + "m"@ + rest);
    assert(text::without("0"@, 'm'));
    lemma_shown_escape("0"@, rest);
}

proof fn lemma_shown_background(color: AnsiColor, rest: Seq<char>)
    ensures
        ansi::shown_text(cells::bg_code(color) + rest) == ansi::shown_text(rest),
{
    let style = ansi::on_background(ansi::plain_style(), Some(color));
    let codes = text::join(ansi::style_codes(style), ";"@);
    paint_laws::lemma_style_reads_back(style);
    assert(ansi::style_codes(style) =~= seq![ansi::background_codes(color)]);
    assert(codes == ansi::background_codes(color));
    reveal_strlit("\u{1b}[48;5;");
    reveal_strlit("\u{1b}[48;2;");
    reveal_strlit("48;5;");
    reveal_strlit("48;2;");
    reveal_strlit("\u{1b}[");
    assert(cells::bg_code(color) =~= "\u{1b}["@ + codes + "m"@);
    assert(cells::bg_code(color) + rest =~= "\u{1b}["@ + codes + "m"@ + rest);
    lemma_shown_escape(codes, rest);
}

proof fn lemma_spaces_without_escape(n: nat)
    ensures
        text::without(text::spaces(n), ESCAPE),
{
}

/// A file header shows the path, so that the pager finds the file by it. Left
/// out are paths with an escape character in them.
pub proof fn lemma_header_is_shown(path: Seq<char>)
    requires
        text::without(path, ESCAPE),
    ensures
        ansi::shown_text(cells::header_line(path)) == path,
{
    let none = Seq::<char>::empty();
    let ended = "\u{1b}[0m"@ + none;
    assert(cells::header_line(path) =~= "\u{1b}[1m"@ + (path + ended));
    lemma_shown_bold(path + ended);
    lemma_shown_plain(path, ended);
    lemma_shown_reset(none);
    assert(ansi::shown_text(none) =~= none);
    assert(path + none =~= path);
}

// ---------------------------------------------------------------------------
// The row as it is shown
// ---------------------------------------------------------------------------

/// A number in the middle of its columns, without its style.
pub open spec fn centered(label: Seq<char>, width: nat) -> Seq<char> {
    let visible = cells::clipped(label, width);
    let room = (width - cells::shown_columns(visible)) as nat;
    text::spaces(room / 2) + visible + text::spaces((room - room / 2) as nat)
}

/// What stands before the right pane of a row.
pub open spec fn before_right_pane(left: Seq<char>, number: Seq<char>, layout: Layout) -> Seq<char> {
    cells::plain_cell(left, layout.left_text_width as nat) + text::spaces(PANE_GAP as nat)
        + centered(number, layout.center_number_width as nat) + text::spaces(PANE_GAP as nat)
}

/// What the right pane of a row shows.
pub open spec fn right_pane(right: Seq<char>, marked: bool, layout: Layout) -> Seq<char> {
    let visible = cells::clipped(right, layout.right_render_width as nat);
    if visible.len() == 0 && marked {
        " "@
    } else {
        visible
    }
}

proof fn lemma_shown_left(left: Seq<char>, background: Option<AnsiColor>, width: nat, rest: Seq<char>)
    requires
        text::without(left, ESCAPE),
    ensures
        ansi::shown_text(side_by_side::left_cell(left, background, width) + rest)
            == cells::plain_cell(left, width) + ansi::shown_text(rest),
{
    let cell = cells::plain_cell(left, width);
    let kept = cells::clipped(left, width);
    width::lemma_clip_without(left, width, TAB_STOP as nat, ESCAPE);
    assert(text::without(cell, ESCAPE)) by {
        assert forall|i: int| 0 <= i < cell.len() implies #[trigger] cell[i] != ESCAPE by {
            if i < kept.len() {
                assert(cell[i] == kept[i]);
            }
        }
    }
    match background {
        None => {
            lemma_shown_plain(cell, rest);
        },
        Some(color) => {
            let ended = "\u{1b}[0m"@ + rest;
            assert(side_by_side::left_cell(left, background, width) + rest =~= cells::bg_code(color)
                + (cell + ended));
            lemma_shown_background(color, cell + ended);
            lemma_shown_plain(cell, ended);
            lemma_shown_reset(rest);
        },
    }
}

proof fn lemma_shown_center(label: Seq<char>, width: nat, rest: Seq<char>)
    requires
        text::without(label, ESCAPE),
    ensures
        ansi::shown_text(cells::center_cell(label, width) + rest) == centered(label, width)
            + ansi::shown_text(rest),
{
    let middle = centered(label, width);
    let visible = cells::clipped(label, width);
    width::lemma_clip_without(label, width, TAB_STOP as nat, ESCAPE);
    let pad = (width - cells::shown_columns(visible)) as nat / 2;
    assert(text::without(middle, ESCAPE)) by {
        assert forall|i: int| 0 <= i < middle.len() implies #[trigger] middle[i] != ESCAPE by {
            if pad <= i < pad + visible.len() {
                assert(middle[i] == visible[i - pad]);
            }
        }
    }
    let ended = "\u{1b}[0m"@ + rest;
    assert(cells::center_cell(label, width) + rest =~= "\u{1b}[1m"@ + (middle + ended));
    lemma_shown_bold(middle + ended);
    lemma_shown_plain(middle, ended);
    lemma_shown_reset(rest);
}

proof fn lemma_shown_gutter(marked: bool, palette: TintPalette, rest: Seq<char>)
    ensures
        ansi::shown_text(side_by_side::gutter_cell(marked, palette) + rest) == text::spaces(
            PANE_GAP as nat,
        ) + ansi::shown_text(rest),
{
    let gap = text::spaces(PANE_GAP as nat);
    lemma_spaces_without_escape(PANE_GAP as nat);
    match palette.gutter_fg {
        Some(color) if marked => {
            reveal_strlit(" ");
            let blank = " "@;
            assert(text::without(blank, ESCAPE));
            let ended = "\u{1b}[0m"@ + rest;
            let inner = blank + ended;
            let tinted = cells::bg_code(color) + inner;
            assert(side_by_side::gutter_cell(marked, palette) + rest =~= blank + tinted);
            lemma_shown_plain(blank, tinted);
            lemma_shown_background(color, inner);
            lemma_shown_plain(blank, ended);
            lemma_shown_reset(rest);
            assert(blank + (blank + ansi::shown_text(rest)) =~= gap + ansi::shown_text(rest));
        },
        _ => {
            lemma_shown_plain(gap, rest);
        },
    }
}

proof fn lemma_shown_right(right: Seq<char>, marked: bool, dim: bool, layout: Layout)
    requires
        text::without(right, ESCAPE),
    ensures
        ansi::shown_text(
            side_by_side::right_cell(right, None, marked, dim, layout.right_render_width as nat),
        ) == right_pane(right, marked, layout),
{
    let width = layout.right_render_width as nat;
    let cell = side_by_side::right_cell(right, None, marked, dim, width);
    let pane = right_pane(right, marked, layout);
    let visible = cells::clipped(right, width);
    width::lemma_clip_without(right, width, TAB_STOP as nat, ESCAPE);
    reveal_strlit(" ");
    assert(text::without(pane, ESCAPE));
    let none = Seq::<char>::empty();
    assert(ansi::shown_text(none) =~= none);
    assert(pane + none =~= pane);
    if dim && visible.len() > 0 {
        let ended = "\u{1b}[0m"@ + none;
        assert(cell =~= "\u{1b}[2m"@ + (pane + ended));
        lemma_shown_dim(pane + ended);
        lemma_shown_plain(pane, ended);
        lemma_shown_reset(none);
    } else {
        assert(cell =~= pane);
        lemma_shown_plain(pane, none);
    }
}

/// What a row with both sides shows: the left text in its columns, the number
/// in its, and the right text behind them. Left out are rows with an escape
/// character in them.
#[verifier::rlimit(30)]
pub proof fn lemma_row_is_shown(
    left: Seq<char>,
    left_background: Option<AnsiColor>,
    number: Seq<char>,
    right_gutter: bool,
    right_dim: bool,
    right: Seq<char>,
    screen: nat,
    layout: Layout,
    palette: TintPalette,
)
    requires
        text::without(left, ESCAPE),
        text::without(number, ESCAPE),
        text::without(right, ESCAPE),
    ensures
        ansi::shown_text(
            side_by_side::row_line(
                RenderedRowView::SideBySide {
                    left,
                    left_background,
                    number,
                    right_gutter,
                    right_dim,
                    right,
                    right_background: None,
                },
                screen,
                layout,
                palette,
                false,
            ),
        ) == before_right_pane(left, number, layout) + right_pane(right, right_gutter, layout),
{
    let gap = text::spaces(PANE_GAP as nat);
    let last = side_by_side::right_cell(
        right,
        None,
        right_gutter,
        right_dim,
        layout.right_render_width as nat,
    );
    let gutter = side_by_side::gutter_cell(right_gutter, palette) + last;
    let center = cells::center_cell(number, layout.center_number_width as nat) + gutter;
    let parted = gap + center;
    let left_width = layout.left_text_width as nat;
    let line = side_by_side::row_line(
        RenderedRowView::SideBySide {
            left,
            left_background,
            number,
            right_gutter,
            right_dim,
            right,
            right_background: None,
        },
        screen,
        layout,
        palette,
        false,
    );
    assert(line =~= side_by_side::left_cell(left, left_background, left_width) + parted);
    lemma_shown_left(left, left_background, left_width, parted);
    lemma_spaces_without_escape(PANE_GAP as nat);
    lemma_shown_plain(gap, center);
    lemma_shown_center(number, layout.center_number_width as nat, gutter);
    lemma_shown_gutter(right_gutter, palette, last);
    lemma_shown_right(right, right_gutter, right_dim, layout);
    assert(ansi::shown_text(line) =~= before_right_pane(left, number, layout) + right_pane(
        right,
        right_gutter,
        layout,
    ));
}

proof fn lemma_plain_cell_pager_columns(line: Seq<char>, width: nat)
    requires
        width::no_tabs(line),
    ensures
        paint::columns(cells::plain_cell(line, width)) == width,
{
    let cell = cells::plain_cell(line, width);
    laws::lemma_plain_cell_columns(line, width);
    width::lemma_clip(line, width, TAB_STOP as nat);
    let kept = cells::clipped(line, width);
    assert forall|i: int| 0 <= i < cell.len() implies #[trigger] cell[i] != '\t' by {
        if i < kept.len() {
            assert(cell[i] == kept[i]);
            assert(kept[i] == line.take(kept.len() as int)[i]);
            assert(line[i] != '\t');
        }
    }
    width::lemma_columns_without_tabs(cell, 0, TAB_STOP as nat);
}

proof fn lemma_centered_columns(label: Seq<char>, width: nat)
    requires
        width::no_tabs(label),
    ensures
        paint::columns(centered(label, width)) == width,
{
    let visible = cells::clipped(label, width);
    width::lemma_clip(label, width, TAB_STOP as nat);
    let room = (width - cells::shown_columns(visible)) as nat;
    assert forall|i: int| 0 <= i < visible.len() implies #[trigger] visible[i] != '\t' by {
        assert(visible[i] == label.take(visible.len() as int)[i]);
        assert(label[i] != '\t');
    }
    width::lemma_columns_without_tabs(visible, 0, TAB_STOP as nat);
    let pad = text::spaces(room / 2);
    let rest = text::spaces((room - room / 2) as nat);
    width::lemma_columns_add(pad, visible, 0);
    width::lemma_columns_add(pad + visible, rest, 0);
    width::lemma_spaces_columns(room / 2, 0);
    width::lemma_spaces_columns((room - room / 2) as nat, 0);
}

proof fn lemma_column_range_behind(
    before: Seq<char>,
    pane: Seq<char>,
    column: nat,
    start: nat,
    end: nat,
)
    requires
        column + paint::columns(before) == start,
        before.len() > 0 ==> width::char_columns(before.last(), 0) > 0,
        start + paint::columns(pane) < end,
    ensures
        columns::column_range(before + pane, column, start, end) == pane,
    decreases before.len() + pane.len(),
{
    let whole = before + pane;
    if before.len() > 0 {
        let rest = before.drop_first();
        assert(whole[0] == before[0]);
        assert(whole.drop_first() =~= rest + pane);
        let next = column + width::char_columns(before[0], 0);
        if rest.len() > 0 {
            assert(rest.last() == before.last());
            lemma_last_column(rest);
        } else {
            assert(paint::columns(rest) == 0);
        }
        lemma_column_range_behind(rest, pane, next, start, end);
        assert(columns::column_range(whole, column, start, end) =~= pane);
    } else if pane.len() > 0 {
        let rest = pane.drop_first();
        assert(whole =~= pane);
        assert(paint::columns(before) == 0);
        let next = column + width::char_columns(pane[0], 0);
        lemma_pane_is_kept(pane, column, start, end);
    } else {
        assert(columns::column_range(whole, column, start, end) =~= pane);
    }
}

proof fn lemma_last_column(text: Seq<char>)
    requires
        text.len() > 0,
    ensures
        paint::columns(text) >= width::char_columns(text.last(), 0),
    decreases text.len(),
{
    if text.len() > 1 {
        lemma_last_column(text.drop_first());
    }
}

proof fn lemma_pane_is_kept(pane: Seq<char>, column: nat, start: nat, end: nat)
    requires
        start <= column,
        column + paint::columns(pane) < end,
    ensures
        columns::column_range(pane, column, start, end) == pane,
    decreases pane.len(),
{
    if pane.len() > 0 {
        let rest = pane.drop_first();
        let next = column + width::char_columns(pane[0], 0);
        lemma_pane_is_kept(rest, next, start, end);
        assert(columns::column_range(pane, column, start, end) =~= seq![pane[0]] + rest);
        assert(seq![pane[0]] + rest =~= pane);
    } else {
        assert(columns::column_range(pane, column, start, end) =~= pane);
    }
}

proof fn lemma_row_text(row: RowView, number: nat, palette: TintPalette)
    requires
        row matches RowView::Context(line) ==> text::without(line, ESCAPE),
        row matches RowView::Insert(line) ==> text::without(line, ESCAPE),
        row matches RowView::Change { old, new } ==> text::without(old, ESCAPE)
            && text::without(new, ESCAPE),
        layout::has_right(row),
    ensures
        side_by_side::rendered_row(row, number, palette) matches RenderedRowView::SideBySide {
            left,
            left_background,
            number: label,
            right_gutter,
            right_dim,
            right,
            right_background,
        } && text::without(left, ESCAPE) && text::without(label, ESCAPE)
            && text::without(right, ESCAPE) && width::no_tabs(left) && width::no_tabs(label)
            && width::no_tabs(right) && right_background is None,
{
    paint_laws::lemma_decimal_reads_back(number, number);
    cells::lemma_decimal_has_no_tabs(number);
    let label = text::decimal(number);
    assert forall|i: int| 0 <= i < label.len() implies #[trigger] label[i] != ESCAPE by {
        assert(text::is_digit(label[i]));
    }
    match row {
        RowView::Context(line) | RowView::Insert(line) => {
            width::lemma_expand_tabs_without(line, 0, ESCAPE);
            width::lemma_expand_tabs(line, 0);
        },
        RowView::Change { old, new } => {
            width::lemma_expand_tabs_without(old, 0, ESCAPE);
            width::lemma_expand_tabs(old, 0);
            width::lemma_expand_tabs_without(new, 0, ESCAPE);
            width::lemma_expand_tabs(new, 0);
        },
        _ => {},
    }
}

/// Selecting on the right takes the text on the right and nothing else: in the
/// line that is rendered for a row on a wide terminal, what the pager finds
/// from the right pane's first column on is the whole text of the row's right
/// side, with its tabs expanded. A space stands for an empty text behind a
/// mark. Left out are texts with an escape character in them, and texts that go
/// on behind the last column that can be counted.
pub proof fn lemma_right_pane_is_right_text(
    items: Seq<ItemView>,
    screen: nat,
    layout: Layout,
    panes: PaneLayout,
    palette: TintPalette,
    k: int,
    hunk: HunkView,
    i: int,
)
    requires
        layout::wide(screen),
        layout::is_layout(layout, items, screen),
        layout::is_pane_layout(panes, items, screen),
        0 <= k < items.len(),
        items[k] == ItemView::Hunk(hunk),
        0 <= i < hunk.rows.len(),
        layout::has_right(hunk.rows[i]),
        hunk.rows[i] matches RowView::Context(line) ==> text::without(line, ESCAPE),
        hunk.rows[i] matches RowView::Insert(line) ==> text::without(line, ESCAPE),
        hunk.rows[i] matches RowView::Change { old, new } ==> text::without(old, ESCAPE)
            && text::without(new, ESCAPE),
        panes.right_start + layout::right_columns(hunk.rows[i]) + 1 < usize::MAX,
    ensures
        ({
            let right = laws::right_text(hunk.rows[i]);
            let shown = ansi::shown_text(
                side_by_side::row_line(
                    side_by_side::rendered_row(
                        hunk.rows[i],
                        layout::new_number(hunk, i),
                        palette,
                    ),
                    screen,
                    layout,
                    palette,
                    false,
                ),
            );
            columns::column_range(shown, 0, panes.right_start as nat, usize::MAX as nat) == if right.len()
                == 0 && !(hunk.rows[i] is Context) {
                " "@
            } else {
                right
            }
        }),
{
    let row = hunk.rows[i];
    let number = layout::new_number(hunk, i);
    lemma_row_text(row, number, palette);
    laws::lemma_right_text_is_kept(items, screen, layout, k, hunk, i);
    let rendered = side_by_side::rendered_row(row, number, palette);
    match rendered {
        RenderedRowView::SideBySide {
            left,
            left_background,
            number: label,
            right_gutter,
            right_dim,
            right,
            right_background,
        } => {
            lemma_row_is_shown(
                left,
                left_background,
                label,
                right_gutter,
                right_dim,
                right,
                screen,
                layout,
                palette,
            );
            let before = before_right_pane(left, label, layout);
            let pane = right_pane(right, right_gutter, layout);
            let left_width = layout.left_text_width as nat;
            let number_width = layout.center_number_width as nat;
            let gap = text::spaces(PANE_GAP as nat);
            let cell = cells::plain_cell(left, left_width);
            let middle = centered(label, number_width);
            lemma_plain_cell_pager_columns(left, left_width);
            lemma_centered_columns(label, number_width);
            width::lemma_spaces_columns(PANE_GAP as nat, 0);
            width::lemma_columns_add(cell, gap, 0);
            width::lemma_columns_add(cell + gap, middle, 0);
            width::lemma_columns_add(cell + gap + middle, gap, 0);
            assert(paint::columns(before) == left_width + number_width + 2 * PANE_GAP);
            assert(before.last() == ' ');
            let visible = cells::clipped(right, layout.right_render_width as nat);
            assert(visible == right);
            width::lemma_columns_without_tabs(right, 0, TAB_STOP as nat);
            assert(paint::columns(pane) <= layout::right_columns(row) + 1) by {
                reveal_strlit(" ");
                let blank = " "@;
                assert(blank =~= text::spaces(1));
                width::lemma_spaces_columns(1, 0);
            }
            lemma_layouts_agree(items, screen, layout, panes);
            lemma_column_range_behind(
                before,
                pane,
                0,
                panes.right_start as nat,
                usize::MAX as nat,
            );
        },
        _ => {},
    }
}

proof fn lemma_layouts_agree(
    items: Seq<ItemView>,
    screen: nat,
    layout: Layout,
    panes: PaneLayout,
)
    requires
        layout::wide(screen),
        layout::is_layout(layout, items, screen),
        layout::is_pane_layout(panes, items, screen),
    ensures
        panes.left_end == layout.left_text_width,
        panes.right_start == layout.left_text_width + layout.center_number_width + 2 * PANE_GAP,
{
    let other = choose|other: Layout| #[trigger]
        layout::is_layout(other, items, screen) && panes.left_end == other.left_text_width
            && panes.right_start == other.left_text_width + other.center_number_width + 2 * PANE_GAP
            && panes.content_start == 0;
    assert(other == layout);
}

} // verus!
