//! What the mouse selects, and what is on the screen.

use super::ansi;
use super::ansi::TextStyle;
use super::ansi::ESCAPE;
use super::base64;
use super::columns;
use super::hud;
use super::key_laws;
use super::keys::ActionView;
use super::keys::PagerEvent;
use super::paint;
use super::paint::Painting;
use super::paint_laws;
use super::row_laws;
use super::screen;
use super::search;
use super::view;
use super::view::EventStep;
use super::view::PagerView;
use super::view::SearchView;
use super::view::Selection;
use super::view::SelectionPane;
use crate::terminal_palette::AnsiColor;
use crate::text;
use crate::width;
use vstd::prelude::*;

verus! {

broadcast use vstd::seq::group_seq_axioms;

// ---------------------------------------------------------------------------
// Selecting
// ---------------------------------------------------------------------------

/// The button pressed on a line starts a selection of that line, in the side of
/// the diff that it was pressed on: behind the first column of the right side
/// the right side, before it the left, and everything where there are no sides.
/// Pressed below the lines it does nothing.
pub proof fn lemma_pressing(view: PagerView, row: u16, column: u16)
    requires
        !view.help_open,
        view.offset + row <= usize::MAX,
        view.pane_layout.left_end <= view.pane_layout.right_start,
    ensures
        view.event(PagerEvent::Press { row, column }) == key_laws::goes_on(
            if row < key_laws::line_rows(view) {
                PagerView {
                    selection: Some(
                        Selection {
                            pane: if view.pane_layout.left_end == 0 {
                                SelectionPane::Full
                            } else if view.horizontal_offset + column
                                < view.pane_layout.right_start {
                                SelectionPane::Left
                            } else {
                                SelectionPane::Right
                            },
                            anchor_line: (view.offset + row) as usize,
                            extent_line: (view.offset + row) as usize,
                        },
                    ),
                    ..view
                }
            } else {
                view
            },
        ),
{
}

/// The line that row `row` of the screen shows, or the last that is shown.
pub open spec fn line_at_row(view: PagerView, row: nat) -> nat {
    if row < key_laws::line_rows(view) {
        view.offset + row
    } else {
        view.offset + key_laws::at_least_zero(key_laws::line_rows(view) - 1)
    }
}

/// The mouse moved with the button held takes the selection on to the line that
/// it is at; without a selection it does nothing.
pub proof fn lemma_dragging(view: PagerView, row: u16)
    requires
        !view.help_open,
    ensures
        view.event(PagerEvent::Drag { row }) == key_laws::goes_on(
            match view.selection {
                Some(selection) => PagerView {
                    selection: Some(
                        Selection {
                            pane: selection.pane,
                            anchor_line: selection.anchor_line,
                            extent_line: line_at_row(view, row as nat) as usize,
                        },
                    ),
                    ..view
                },
                None => view,
            },
        ),
{
}

/// The first and the last column of a side, as far as columns can be counted.
pub open spec fn side_columns(view: PagerView, pane: SelectionPane) -> (nat, nat) {
    match pane {
        SelectionPane::Left => (0, view.pane_layout.left_end as nat),
        SelectionPane::Right => (view.pane_layout.right_start as nat, usize::MAX as nat),
        SelectionPane::Full => (view.pane_layout.content_start as nat, usize::MAX as nat),
    }
}

/// Whether `copied` is the text of one side of the lines from `first` to `last`:
/// of each line what stands in the columns of the side, without the white space
/// at its end, one below the other. Lines at the end that have nothing there are
/// left out.
pub open spec fn is_text_of_lines(
    view: PagerView,
    pane: SelectionPane,
    first: nat,
    last: nat,
    copied: Seq<char>,
) -> bool {
    exists|parts: Seq<Seq<char>>| #[trigger]
        text::join(parts, "\n"@) == copied && are_parts_of_lines(view, pane, first, last, parts)
}

/// The text of one side of a line.
pub open spec fn part_of_line(view: PagerView, pane: SelectionPane, line: int) -> Seq<char> {
    text::trim_end(
        columns::column_range(
            view.plain_lines[line],
            0,
            side_columns(view, pane).0,
            side_columns(view, pane).1,
        ),
    )
}

/// Whether `parts` are the texts of one side of the lines from `first` to
/// `last`, without those at the end that are empty.
pub open spec fn are_parts_of_lines(
    view: PagerView,
    pane: SelectionPane,
    first: nat,
    last: nat,
    parts: Seq<Seq<char>>,
) -> bool {
    &&& parts.len() <= last - first + 1
    &&& first + parts.len() <= view.plain_lines.len() || parts.len() == 0
    &&& forall|i: int|
        0 <= i < parts.len() ==> #[trigger] parts[i] == part_of_line(view, pane, first + i)
    &&& parts.len() > 0 ==> parts.last().len() > 0
    &&& forall|line: int|
        first + parts.len() <= line <= last && line < view.plain_lines.len() ==> (
        #[trigger] part_of_line(view, pane, line)).len() == 0
}

proof fn lemma_without_empty_end(list: Seq<Seq<char>>)
    ensures
        ({
            let kept = view::without_empty_end(list);
            &&& kept.len() <= list.len()
            &&& kept == list.take(kept.len() as int)
            &&& kept.len() > 0 ==> kept.last().len() > 0
            &&& forall|i: int| kept.len() <= i < list.len() ==> (#[trigger] list[i]).len() == 0
        }),
    decreases list.len(),
{
    if list.len() > 0 && list.last().len() == 0 {
        let fewer = list.drop_last();
        lemma_without_empty_end(fewer);
        let kept = view::without_empty_end(fewer);
        assert(list.take(kept.len() as int) =~= fewer.take(kept.len() as int));
        assert forall|i: int| kept.len() <= i < list.len() implies (#[trigger] list[i]).len()
            == 0 by {
            if i < fewer.len() {
                assert(fewer[i] == list[i]);
            }
        }
    } else {
        assert(list.take(list.len() as int) =~= list);
    }
}

/// Released, the button copies what is selected up to the line that the mouse is
/// at, if that is anything, and ends the selection. It does not matter from
/// which end the lines were selected.
pub proof fn lemma_releasing(view: PagerView, row: u16, selection: Selection)
    requires
        !view.help_open,
        view.selection == Some(selection),
        line_at_row(view, row as nat) <= usize::MAX,
    ensures
        ({
            let line = line_at_row(view, row as nat);
            let first = key_laws::least(selection.anchor_line as nat, line);
            let last = if selection.anchor_line >= line {
                selection.anchor_line as nat
            } else {
                line
            };
            let step = view.event(PagerEvent::Release { row });
            &&& key_laws::next_view(step) == (PagerView { selection: None, ..view })
            &&& step matches EventStep::Done { action, view: after } && match action {
                ActionView::Copy(copied) => copied.len() > 0 && is_text_of_lines(
                    view,
                    selection.pane,
                    first,
                    last,
                    copied,
                ),
                ActionView::Continue => is_text_of_lines(
                    view,
                    selection.pane,
                    first,
                    last,
                    Seq::empty(),
                ),
                ActionView::Quit => false,
            }
        }),
{
    let line = line_at_row(view, row as nat);
    let moved = view.selecting_to(line);
    let first = key_laws::least(selection.anchor_line as nat, line);
    let last = if selection.anchor_line >= line {
        selection.anchor_line as nat
    } else {
        line
    };
    assert(view.line_of_row(row as nat) == line);
    let pane = selection.pane;
    let (from, to) = view.pane_columns(pane);
    let end = hud::smaller(last + 1, view.plain_lines.len());
    let all = Seq::new(
        view::less(end, first),
        |i: int|
            text::trim_end(columns::column_range(view.plain_lines[first + i], 0, from, to)),
    );
    let parts = view::without_empty_end(all);
    lemma_without_empty_end(all);
    let copied = text::join(parts, "\n"@);
    assert(moved.selected_text() == copied);
    assert forall|i: int| 0 <= i < parts.len() implies #[trigger] parts[i] == part_of_line(
        view,
        pane,
        first + i,
    ) by {
        assert(parts[i] == all[i]);
    }
    assert forall|at: int|
        first + parts.len() <= at <= last && at < view.plain_lines.len() implies (
    #[trigger] part_of_line(view, pane, at)).len() == 0 by {
        assert(all[at - first].len() == 0);
    }
    assert(are_parts_of_lines(view, pane, first, last, parts));
    if copied.len() == 0 {
        assert(copied =~= Seq::<char>::empty());
    }
}

/// Without a selection there is nothing to copy.
pub proof fn lemma_releasing_nothing(view: PagerView, row: u16)
    requires
        view.selection is None,
    ensures
        view.event(PagerEvent::Release { row }) == key_laws::goes_on(view),
{
}

/// What lies between two columns is what stands between the texts that take the
/// columns before and behind, if no character goes over one of the columns, and
/// those next to them take a column at least.
pub proof fn lemma_column_range_is_middle(
    before: Seq<char>,
    middle: Seq<char>,
    behind: Seq<char>,
    column: nat,
    end: nat,
)
    requires
        middle.len() > 0,
        width::char_columns(middle.last(), 0) > 0,
        before.len() > 0 ==> width::char_columns(before.last(), 0) > 0,
        end == column + paint::columns(before) + paint::columns(middle),
    ensures
        columns::column_range(
            before + middle + behind,
            column,
            column + paint::columns(before),
            end,
        ) == middle,
    decreases before.len() + middle.len(),
{
    let whole = before + middle + behind;
    let start = column + paint::columns(before);
    if before.len() > 0 {
        let rest = before.drop_first();
        assert(whole[0] == before[0]);
        assert(whole.drop_first() =~= rest + middle + behind);
        let next = column + width::char_columns(before[0], 0);
        if rest.len() > 0 {
            assert(rest.last() == before.last());
            lemma_last_takes_columns(rest);
        } else {
            assert(paint::columns(rest) == 0);
        }
        lemma_last_takes_columns(middle);
        lemma_column_range_is_middle(rest, middle, behind, next, end);
        assert(columns::column_range(whole, column, start, end) =~= middle);
    } else {
        assert(whole =~= middle + behind);
        assert(paint::columns(before) == 0);
        lemma_range_from_start(middle, behind, column, start, end);
    }
}

proof fn lemma_range_from_start(
    middle: Seq<char>,
    behind: Seq<char>,
    column: nat,
    start: nat,
    end: nat,
)
    requires
        middle.len() > 0,
        width::char_columns(middle.last(), 0) > 0,
        start <= column,
        end == column + paint::columns(middle),
    ensures
        columns::column_range(middle + behind, column, start, end) == middle,
    decreases middle.len(),
{
    let whole = middle + behind;
    let rest = middle.drop_first();
    let next = column + width::char_columns(middle[0], 0);
    assert(whole[0] == middle[0]);
    assert(whole.drop_first() =~= rest + behind);
    if rest.len() == 0 {
        assert(paint::columns(rest) == 0);
        assert(columns::column_range(whole, column, start, end) =~= middle);
    } else {
        assert(rest.last() == middle.last());
        lemma_last_takes_columns(rest);
        lemma_range_from_start(rest, behind, next, start, end);
        assert(seq![middle[0]] + rest =~= middle);
        assert(columns::column_range(whole, column, start, end) =~= seq![middle[0]] + rest);
    }
}

proof fn lemma_last_takes_columns(line: Seq<char>)
    requires
        line.len() > 0,
    ensures
        paint::columns(line) >= width::char_columns(line.last(), 0),
    decreases line.len(),
{
    if line.len() > 1 {
        lemma_last_takes_columns(line.drop_first());
    }
}

/// What is copied goes to the terminal in Base64, between the beginning and the
/// end of the sequence that sets the clipboard.
pub proof fn lemma_clipboard_sequence(copied: Seq<char>)
    ensures
        ({
            let sequence = screen::clipboard_sequence(copied);
            let coded = sequence.subrange(7, sequence.len() - 1);
            &&& sequence.take(7) == seq![ESCAPE, ']', '5', '2', ';', 'c', ';']
            &&& sequence.last() == '\u{7}'
            &&& base64::decoded(coded) == base64::bytes(vstd::utf8::encode_utf8(copied))
        }),
{
    reveal_strlit("\u{1b}]52;c;");
    reveal_strlit("\u{7}");
    let data = vstd::utf8::encode_utf8(copied);
    let sequence = screen::clipboard_sequence(copied);
    assert(sequence.take(7) =~= seq![ESCAPE, ']', '5', '2', ';', 'c', ';']);
    assert(sequence.subrange(7, sequence.len() - 1) =~= base64::encoded(data));
    base64::lemma_base64_reads_back(data);
}

// ---------------------------------------------------------------------------
// Lines
// ---------------------------------------------------------------------------

/// What is behind the first `column` columns of a line.
pub open spec fn behind_column(line: Seq<char>, column: nat) -> Seq<char> {
    line.skip(width::clip(line, column, 0).len() as int)
}

/// Each row of the screen shows the line that is as far below the line at the
/// top as the row is below the first: what is behind the columns that are
/// scrolled off, cut to the screen, then blanks if its background is carried on,
/// then a mark if the line goes on. Left out are lines that show an escape
/// character.
pub proof fn lemma_row_shows_line(view: PagerView, row: nat)
    requires
        view.width > 0,
    ensures
        view.screen_row(row) is Some <==> view.offset + row < view.lines.len(),
        view.screen_row(row) matches Some(painted) ==> ({
            let line = view.lines[(view.offset + row) as int];
            let plain = ansi::shown_text(line);
            let over = paint::columns(plain) > view.horizontal_offset + view.width;
            let room = if over {
                (view.width - 1) as nat
            } else {
                view.width
            };
            let kept = width::clip(behind_column(plain, view.horizontal_offset), room, 0);
            ansi::escapes_are_sequences(line) && text::without(plain, ESCAPE) ==> exists|blanks: nat|
                paint_laws::painted_chars(row_laws::seen(painted)) == kept + #[trigger] text::spaces(
                    blanks,
                ) + if over {
                    seq!['»']
                } else {
                    Seq::empty()
                } && (blanks == 0 || blanks + paint::columns(kept) == room)
        }),
{
    let at = view.offset + row;
    if at < view.lines.len() {
        let line = view.lines[at as int];
        let plain = ansi::shown_text(line);
        if ansi::escapes_are_sequences(line) && text::without(plain, ESCAPE) {
            let cells = ansi::cells_of(line);
            let painting = Painting {
                start_col: view.horizontal_offset,
                width: view.width,
                matches: view.matches_in_line(at),
                search_bg: view.search_bg,
                selection: view.selected_columns(at),
                content_start: view.text_start(),
            };
            ansi::lemma_cells_are_shown_text(line, ansi::plain_style(), 0);
            assert(ansi::cell_chars(cells) == plain);
            paint_laws::lemma_painted_line(painting, cells);
            paint_laws::lemma_painted_line_stays_on_screen(painting, cells);
            lemma_seen_chars(painting, cells);
            let fill = paint_laws::fill_chars(painting, cells);
            let kept = paint_laws::painted_chars(painting.painted(cells));
            width::lemma_columns_add(kept, paint_laws::painted_chars(fill), 0);
            assert(paint_laws::painted_chars(fill) =~= text::spaces(fill.len()));
            width::lemma_spaces_columns(fill.len(), 0);
            let blanks = fill.len();
            assert(paint_laws::painted_chars(row_laws::seen(painting.line(cells))) == kept
                + text::spaces(blanks) + if painting.overflows(cells) {
                seq!['»']
            } else {
                Seq::empty()
            });
        }
    }
}

proof fn lemma_seen_chars(painting: Painting, cells: Seq<ansi::CellView>)
    ensures
        ({
            let painted = painting.painted(cells);
            let fill = paint_laws::fill_chars(painting, cells);
            paint_laws::painted_chars(
                painted + fill + paint_laws::overflow_mark(painting, cells),
            ) == paint_laws::painted_chars(painted) + paint_laws::painted_chars(fill) + if (
            painting.overflows(cells)) {
                seq!['»']
            } else {
                Seq::empty()
            }
        }),
{
    let painted = painting.painted(cells);
    let fill = paint_laws::fill_chars(painting, cells);
    let mark = paint_laws::overflow_mark(painting, cells);
    let all = paint_laws::painted_chars(painted + fill + mark);
    let chars = if painting.overflows(cells) {
        seq!['»']
    } else {
        Seq::empty()
    };
    assert(paint_laws::painted_chars(mark) =~= chars);
    assert(all =~= paint_laws::painted_chars(painted) + paint_laws::painted_chars(fill)
        + paint_laws::painted_chars(mark));
}

/// Whether a column of a line is selected: the line is between the two ends of
/// the selection, and the column is one of the selected side.
pub open spec fn is_selected(view: PagerView, line: nat, column: nat) -> bool {
    view.selection matches Some(selection) && (selection.anchor_line <= line
        <= selection.extent_line || selection.extent_line <= line <= selection.anchor_line)
        && side_columns(view, selection.pane).0 <= column < side_columns(view, selection.pane).1
}

/// Each character on the screen is in the style that the line gives it, but that
/// matches of a search and what is selected have the background of matches, if
/// there is one. Left out are lines that show an escape character.
pub proof fn lemma_row_styles(view: PagerView, row: nat, i: int)
    requires
        view.width > 0,
        view.offset + row < view.lines.len(),
        ({
            let line = view.lines[(view.offset + row) as int];
            let plain = ansi::shown_text(line);
            let over = paint::columns(plain) > view.horizontal_offset + view.width;
            let room = if over {
                (view.width - 1) as nat
            } else {
                view.width
            };
            &&& ansi::escapes_are_sequences(line)
            &&& text::without(plain, ESCAPE)
            &&& 0 <= i < width::clip(
                behind_column(plain, view.horizontal_offset),
                room,
                0,
            ).len()
        }),
    ensures
        ({
            let at = view.offset + row;
            let line = view.lines[at as int];
            let plain = ansi::shown_text(line);
            let k = width::clip(plain, view.horizontal_offset, 0).len() + i;
            let cell = ansi::cells_of(line)[k];
            let tinted = view.search_bg is Some && (paint::highlighted(
                cell,
                view.matches_in_line(at),
            ) || is_selected(view, at, paint::columns(plain.take(k))));
            let shown = row_laws::seen(view.screen_row(row)->0)[i];
            &&& shown.ch == plain[k]
            &&& shown.style == if tinted {
                TextStyle { background: view.search_bg, ..cell.style }
            } else {
                cell.style
            }
        }),
{
    let at = view.offset + row;
    let line = view.lines[at as int];
    let plain = ansi::shown_text(line);
    let cells = ansi::cells_of(line);
    let painting = Painting {
        start_col: view.horizontal_offset,
        width: view.width,
        matches: view.matches_in_line(at),
        search_bg: view.search_bg,
        selection: view.selected_columns(at),
        content_start: view.text_start(),
    };
    ansi::lemma_cells_are_shown_text(line, ansi::plain_style(), 0);
    assert(ansi::cell_chars(cells) == plain);
    paint_laws::lemma_painted_line(painting, cells);
    paint_laws::lemma_painted_line_stays_on_screen(painting, cells);
    let k = painting.first(cells) + i;
    width::lemma_clip(plain, view.horizontal_offset, 0);
    let behind = behind_column(plain, view.horizontal_offset);
    width::lemma_clip(behind, painting.room(cells), 0);
    assert(plain[k] == cells[k].ch);
    let painted = painting.painted(cells);
    assert(row_laws::seen(painting.line(cells))[i] == painted[i]);
    assert(painted[i].ch == cells[k].ch);
}

/// A line that ends in a background of its own carries it on to the right edge,
/// if it ends before that; a background that starts before the text of the diff,
/// such as that of a mark, is not carried on, and neither is none.
pub proof fn lemma_background_is_carried_on(
    view: PagerView,
    painting: Painting,
    cells: Seq<ansi::CellView>,
    run: int,
    color: AnsiColor,
)
    requires
        0 <= run < cells.len(),
        forall|i: int|
            run <= i < cells.len() ==> (#[trigger] cells[i]).style.background == Some(color),
        run > 0 ==> cells[run - 1].style.background != Some(color),
    ensures
        ({
            let start = paint::columns(ansi::cell_chars(cells).take(run));
            let fill = paint_laws::fill_chars(painting, cells);
            &&& start < painting.content_start ==> fill.len() == 0 && painting.fill(cells).len()
                == 0
            &&& start >= painting.content_start ==> fill.len() == painting.room(cells)
                - painting.used(cells)
            &&& forall|i: int|
                0 <= i < fill.len() ==> (#[trigger] fill[i]).ch == ' ' && fill[i].style
                    == row_laws::tinted(Some(color))
        }),
        view.text_start() == if view.pane_layout.right_start > view.pane_layout.content_start {
            view.pane_layout.right_start as nat
        } else {
            view.pane_layout.content_start as nat
        },
{
    lemma_run(cells, run, color);
    assert(cells[cells.len() - 1].style.background == Some(color));
    paint_laws::lemma_painted_line_stays_on_screen(
        Painting { width: painting.width + 1, ..painting },
        cells,
    );
    let kept = paint::clip(
        ansi::cell_chars(cells).skip(painting.first(cells) as int),
        painting.room(cells),
    );
    width::lemma_clip(
        ansi::cell_chars(cells).skip(painting.first(cells) as int),
        painting.room(cells),
        0,
    );
}

proof fn lemma_run(cells: Seq<ansi::CellView>, run: int, color: AnsiColor)
    requires
        0 <= run <= cells.len(),
        forall|i: int|
            run <= i < cells.len() ==> (#[trigger] cells[i]).style.background == Some(color),
        run > 0 ==> cells[run - 1].style.background != Some(color),
    ensures
        paint::cells_before_run(cells, color) == run,
    decreases cells.len(),
{
    if run < cells.len() {
        assert(cells[cells.len() - 1].style.background == Some(color));
        let fewer = cells.drop_last();
        assert forall|i: int| run <= i < fewer.len() implies (
        #[trigger] fewer[i]).style.background == Some(color) by {
            assert(fewer[i] == cells[i]);
        }
        lemma_run(fewer, run, color);
    }
}

/// A line that ends without a background is not filled up.
pub proof fn lemma_no_background_to_carry_on(painting: Painting, cells: Seq<ansi::CellView>)
    requires
        cells.len() == 0 || cells.last().style.background is None,
    ensures
        painting.fill(cells).len() == 0,
        paint_laws::fill_chars(painting, cells).len() == 0,
{
}

// ---------------------------------------------------------------------------
// The rows at the bottom
// ---------------------------------------------------------------------------

/// A row at the bottom is its text, cut to the screen and filled up with blanks,
/// all in one style. Left out are texts with an escape character in them.
pub proof fn lemma_bottom_row_is_seen(
    line: Seq<char>,
    width: nat,
    background: Option<AnsiColor>,
    bold: bool,
)
    requires
        text::without(line, ESCAPE),
    ensures
        ({
            let kept = width::clip(line, width, 0);
            let style = TextStyle { bold, dim: false, italic: false, background };
            row_laws::seen(hud::hud_row(line, width, background, bold)) == row_laws::styled(
                kept + text::spaces((width - paint::columns(kept)) as nat),
                style,
            )
        }),
{
    let kept = width::clip(line, width, 0);
    let style = TextStyle { bold, dim: false, italic: false, background };
    let cell = hud::padded(line, width);
    width::lemma_clip_without(line, width, 0, ESCAPE);
    assert forall|i: int| 0 <= i < cell.len() implies #[trigger] cell[i] != ESCAPE by {
        if i < kept.len() {
            assert(cell[i] == kept[i]);
        }
    }
    row_laws::lemma_stretch(style, cell);
    row_laws::lemma_stretch(row_laws::tinted(None), cell);
}

/// The rows at the bottom: none where nothing is open; one for a search, with the
/// query behind a slash, and how far it is once it was made; and while files are
/// filtered the files, and below them the filter.
pub proof fn lemma_bottom_rows(view: PagerView)
    ensures
        !view.file_filter_open && view.search is Inactive ==> view.hud_rows().len() == 0,
        !view.file_filter_open && !(view.search is Inactive) ==> view.hud_rows().len() == 1,
        view.height >= 1 ==> view.hud_rows().len() + key_laws::line_rows(view) == view.height,
        !view.file_filter_open ==> (view.search matches SearchView::Prompt { query }
            ==> view.hud_rows()[0] == hud::hud_row(
            seq!['/'] + query,
            view.width,
            view.search_bg,
            false,
        )),
        view.file_filter_open ==> view.hud_rows().last() == hud::hud_row(
            seq!['›', ' '] + view.file_filter_query,
            view.width,
            view.search_bg,
            false,
        ),
{
    reveal_strlit("/");
    reveal_strlit("› ");
    assert("/"@ =~= seq!['/']);
    assert("› "@ =~= seq!['›', ' ']);
    match view.search {
        SearchView::Prompt { query } => {
            width::lemma_clip(seq!['/'] + query, view.width, 0);
            width::lemma_clip_twice(seq!['/'] + query, view.width, 0);
            let kept = paint::clip(seq!['/'] + query, view.width);
            assert(hud::padded(kept, view.width) =~= hud::padded(seq!['/'] + query, view.width));
        },
        _ => {},
    }
}

/// Row `i` above the filter shows a file: the rows show the files in their
/// order, from one of them on, each behind two blanks, and the file at the top
/// in bold. Rows behind the last file are blank.
pub proof fn lemma_listed_files(view: PagerView, i: int)
    requires
        view.file_filter_open,
        0 <= i < view.hud_rows().len() - 1,
    ensures
        ({
            let at = view.list_start() + i;
            &&& at < view.visible_files.len() ==> view.hud_rows()[i] == hud::hud_row(
                seq![' ', ' '] + view.visible_files[at],
                view.width,
                view.search_bg,
                view.top_file_name() == Some(view.visible_files[at]),
            )
            &&& at >= view.visible_files.len() ==> view.hud_rows()[i] == hud::hud_row(
                Seq::empty(),
                view.width,
                view.search_bg,
                false,
            )
            &&& view.visible_files.len() <= view.hud_rows().len() - 1 ==> view.list_start() == 0
            &&& view.visible_files.len() > view.hud_rows().len() - 1 ==> view.list_start()
                + view.hud_rows().len() - 1 <= view.visible_files.len()
        }),
{
    reveal_strlit("  ");
    assert("  "@ =~= seq![' ', ' ']);
}

/// A search that was made says at which of how many matches it is, and the
/// message, if there is one, behind that.
pub proof fn lemma_search_status(
    view: PagerView,
    query: Seq<char>,
    matches: Seq<search::MatchView>,
    current: nat,
)
    requires
        view.search == (SearchView::Active { query, matches, current }),
    ensures
        ({
            let counts = if matches.len() == 0 {
                seq!['0', '/', '0']
            } else {
                text::decimal(current + 1) + seq!['/'] + text::decimal(matches.len())
            };
            view.search_status() == match view.search_message {
                Some(message) => counts + seq![' '] + message,
                None => counts,
            }
        }),
        !view.file_filter_open ==> view.hud_rows()[0] == hud::hud_row(
            hud::search_text(query, view.width, Some(view.search_status())),
            view.width,
            view.search_bg,
            false,
        ),
{
    reveal_strlit("0/0");
    reveal_strlit("/");
    reveal_strlit(" ");
    assert("0/0"@ =~= seq!['0', '/', '0']);
    assert("/"@ =~= seq!['/']);
    assert(" "@ =~= seq![' ']);
}

/// The row of a search that was made shows its query behind a slash, as far as
/// the status leaves room for it, and one blank at least in front of the status.
pub proof fn lemma_query_beside_status(query: Seq<char>, width: nat, status: Seq<char>)
    requires
        paint::columns(status) < width,
    ensures
        ({
            let room = (width - paint::columns(status) - 1) as nat;
            let shown = width::clip(seq!['/'] + query, room, 0);
            let row = hud::search_text(query, width, Some(status));
            &&& row == shown + text::spaces(
                (width - paint::columns(shown) - paint::columns(status)) as nat,
            ) + status
            &&& width - paint::columns(shown) - paint::columns(status) >= 1
        }),
{
    reveal_strlit("/");
    assert("/"@ =~= seq!['/']);
    width::lemma_clip(
        seq!['/'] + query,
        (width - paint::columns(status) - 1) as nat,
        0,
    );
}

/// The cursor stands behind what is being typed, in the last row; where nothing
/// is being typed, and while the help is open, there is none.
pub proof fn lemma_cursor(view: PagerView)
    ensures
        view.help_open ==> view.cursor() is None,
        !view.help_open && view.file_filter_open ==> view.cursor() == Some(
            (
                paint::columns(
                    width::clip(seq!['›', ' '] + view.file_filter_query, view.width, 0),
                ),
                key_laws::at_least_zero(view.height - 1),
            ),
        ),
        !view.help_open && !view.file_filter_open ==> (match view.search {
            SearchView::Prompt { query } => view.cursor() == Some(
                (
                    paint::columns(width::clip(seq!['/'] + query, view.width, 0)),
                    key_laws::at_least_zero(view.height - 1),
                ),
            ),
            _ => view.cursor() is None,
        }),
{
    reveal_strlit("/");
    reveal_strlit("› ");
    assert("/"@ =~= seq!['/']);
    assert("› "@ =~= seq!['›', ' ']);
}

/// The help is as wide as its widest line and a margin of two on each side, and
/// as high as it has lines, as far as the screen goes; its first line is bold,
/// and each line stands behind the margin.
pub proof fn lemma_help_box(
    width: nat,
    height: nat,
    list: Seq<Seq<char>>,
    i: int,
    background: Option<AnsiColor>,
)
    requires
        0 <= i < list.len(),
    ensures
        ({
            let place = hud::overlay_box(width, height, list);
            let room = key_laws::at_least_zero(place.width - 4);
            &&& place.width == key_laws::least(hud::widest(list) + 4, width)
            &&& place.height == key_laws::least(list.len(), height)
            &&& hud::overlay_row(list, i, place.width, background) == hud::hud_row(
                seq![' ', ' '] + width::clip(list[i], room, 0),
                place.width,
                background,
                i == 0,
            )
            &&& hud::widest(list) + 4 <= width ==> width::clip(list[i], room, 0) == list[i]
        }),
{
    reveal_strlit("  ");
    assert("  "@ =~= seq![' ', ' ']);
    key_laws::lemma_widest(list);
    let place = hud::overlay_box(width, height, list);
    let room = key_laws::at_least_zero(place.width - 4);
    width::lemma_clip(list[i], room, 0);
    assert(paint::columns(list[i]) <= hud::widest(list));
}

proof fn lemma_range_none(line: Seq<char>, column: nat, start: nat, end: nat)
    requires
        column >= end,
        forall|i: int| 0 <= i < line.len() ==> width::char_columns(#[trigger] line[i], 0) > 0,
    ensures
        columns::column_range(line, column, start, end) == Seq::<char>::empty(),
{
    if line.len() > 0 {
        assert(width::char_columns(line[0], 0) > 0);
    }
    assert(columns::column_range(line, column, start, end) =~= Seq::<char>::empty());
}

/// Where all characters take columns, each is between two columns or not by
/// itself: it is if it starts at the first or behind it, and ends at the last or
/// before it.
pub proof fn lemma_column_range_by_character(
    ch: char,
    rest: Seq<char>,
    column: nat,
    start: nat,
    end: nat,
)
    requires
        width::char_columns(ch, 0) > 0,
        forall|i: int| 0 <= i < rest.len() ==> width::char_columns(#[trigger] rest[i], 0) > 0,
    ensures
        columns::column_range(seq![ch] + rest, column, start, end) == (if start <= column && column
            + width::char_columns(ch, 0) <= end {
            seq![ch]
        } else {
            Seq::empty()
        }) + columns::column_range(rest, column + width::char_columns(ch, 0), start, end),
        columns::column_range(Seq::empty(), column, start, end) == Seq::<char>::empty(),
{
    let whole = seq![ch] + rest;
    let next = column + width::char_columns(ch, 0);
    assert(whole[0] == ch);
    assert(whole.drop_first() =~= rest);
    let none = Seq::<char>::empty();
    assert(columns::column_range(none, column, start, end) =~= none);
    if next >= end {
        lemma_range_none(rest, next, start, end);
        let head = if start <= column && next <= end {
            seq![ch]
        } else {
            none
        };
        assert(head + none =~= head);
    }
}

} // verus!
