//! What holds of every rendered diff.

use super::cells;
use super::document;
use super::document::Format;
use super::document::Rendering;
use super::gaps;
use super::layout;
use super::layout::Layout;
use super::lines;
use super::side_by_side;
use super::single_column;
use super::TintPalette;
use crate::text;
use crate::unified_diff::HunkView;
use crate::unified_diff::ItemView;
use crate::unified_diff::RowView;
use crate::width;
use crate::width::TAB_STOP;
use vstd::prelude::*;

verus! {

broadcast use vstd::seq::group_seq_axioms;

// ---------------------------------------------------------------------------
// Line numbers
// ---------------------------------------------------------------------------

/// A larger number has no fewer digits.
pub proof fn lemma_decimal_len_grows(a: nat, b: nat)
    requires
        a <= b,
    ensures
        text::decimal(a).len() <= text::decimal(b).len(),
    decreases b,
{
    if b >= 10 {
        if a >= 10 {
            lemma_decimal_len_grows(a / 10, b / 10);
        } else {
            lemma_decimal_len_grows(0, b / 10);
        }
    }
}

proof fn lemma_largest_inline_number(hunk: HunkView, n: nat, i: int)
    requires
        0 <= i < n <= hunk.rows.len(),
    ensures
        layout::has_right(hunk.rows[i]) ==> layout::new_number(hunk, i)
            <= layout::largest_inline_number(hunk, n),
        hunk.rows[i] is Delete || hunk.rows[i] is Change ==> layout::old_number(hunk, i)
            <= layout::largest_inline_number(hunk, n),
    decreases n,
{
    if i < n - 1 {
        lemma_largest_inline_number(hunk, (n - 1) as nat, i);
    }
}

proof fn lemma_largest_inline_in(items: Seq<ItemView>, k: int)
    requires
        0 <= k < items.len(),
    ensures
        items[k] matches ItemView::Hunk(hunk) ==> layout::largest_inline_number(
            hunk,
            hunk.rows.len(),
        ) <= layout::largest_inline_in(items),
    decreases items.len(),
{
    if k < items.len() - 1 {
        assert(items.drop_last()[k] == items[k]);
        lemma_largest_inline_in(items.drop_last(), k);
    }
}

proof fn lemma_largest_new_in(items: Seq<ItemView>, k: int)
    requires
        0 <= k < items.len(),
    ensures
        items[k] matches ItemView::Hunk(hunk) ==> layout::largest_new_number(hunk)
            <= layout::largest_new_in(items),
    decreases items.len(),
{
    if k < items.len() - 1 {
        assert(items.drop_last()[k] == items[k]);
        lemma_largest_new_in(items.drop_last(), k);
    }
}

proof fn lemma_widest_right(rows: Seq<RowView>, i: int)
    requires
        0 <= i < rows.len(),
    ensures
        layout::right_columns(rows[i]) <= layout::widest_right(rows),
    decreases rows.len(),
{
    if i < rows.len() - 1 {
        assert(rows.drop_last()[i] == rows[i]);
        lemma_widest_right(rows.drop_last(), i);
    }
}

proof fn lemma_widest_right_in(items: Seq<ItemView>, k: int)
    requires
        0 <= k < items.len(),
    ensures
        items[k] matches ItemView::Hunk(hunk) ==> layout::widest_right(hunk.rows)
            <= layout::widest_right_in(items),
    decreases items.len(),
{
    if k < items.len() - 1 {
        assert(items.drop_last()[k] == items[k]);
        lemma_widest_right_in(items.drop_last(), k);
    }
}

/// In a single column all line numbers of a diff end in the same column: each
/// that is shown takes exactly the columns that line numbers get.
pub proof fn lemma_inline_numbers_line_up(
    items: Seq<ItemView>,
    k: int,
    hunk: HunkView,
    i: int,
)
    requires
        0 <= k < items.len(),
        items[k] == ItemView::Hunk(hunk),
        0 <= i < hunk.rows.len(),
    ensures
        layout::has_right(hunk.rows[i]) ==> single_column::number_cell(
            layout::new_number(hunk, i),
            layout::inline_width(items),
        ).len() == layout::inline_width(items),
        hunk.rows[i] is Delete || hunk.rows[i] is Change ==> single_column::number_cell(
            layout::old_number(hunk, i),
            layout::inline_width(items),
        ).len() == layout::inline_width(items),
{
    lemma_largest_inline_number(hunk, hunk.rows.len(), i);
    lemma_largest_inline_in(items, k);
    let largest = layout::largest_inline_in(items);
    if layout::has_right(hunk.rows[i]) {
        lemma_decimal_len_grows(layout::new_number(hunk, i), largest);
    }
    if hunk.rows[i] is Delete || hunk.rows[i] is Change {
        lemma_decimal_len_grows(layout::old_number(hunk, i), largest);
    }
}

proof fn lemma_decimal_columns(value: nat)
    ensures
        cells::shown_columns(text::decimal(value)) == text::decimal(value).len(),
    decreases value,
{
    let all = text::decimal(value);
    if value >= 10 {
        lemma_decimal_columns(value / 10);
        let last = seq![text::digit_char(value % 10)];
        assert(all =~= text::decimal(value / 10) + last);
        width::lemma_columns_add(text::decimal(value / 10), last, TAB_STOP as nat);
        assert(last.drop_first() =~= Seq::<char>::empty());
        assert(width::columns(last.drop_first(), TAB_STOP as nat) == 0);
    } else {
        assert(all.drop_first() =~= Seq::<char>::empty());
        assert(width::columns(all.drop_first(), TAB_STOP as nat) == 0);
    }
}

/// Side by side, only lines on the right are numbered, and their numbers are
/// shown whole.
pub proof fn lemma_only_right_numbers(
    items: Seq<ItemView>,
    screen: nat,
    layout: Layout,
    palette: TintPalette,
    k: int,
    hunk: HunkView,
    i: int,
)
    requires
        layout::is_layout(layout, items, screen),
        0 <= k < items.len(),
        items[k] == ItemView::Hunk(hunk),
        0 <= i < hunk.rows.len(),
    ensures
        side_by_side::rendered_row(
            hunk.rows[i],
            layout::new_number(hunk, i),
            palette,
        ) matches side_by_side::RenderedRowView::SideBySide {
            left,
            left_background,
            number,
            right_gutter,
            right_dim,
            right,
            right_background,
        } ==> number == if layout::has_right(hunk.rows[i]) {
            text::decimal(layout::new_number(hunk, i))
        } else {
            Seq::empty()
        },
        layout::has_right(hunk.rows[i]) ==> cells::clipped(
            text::decimal(layout::new_number(hunk, i)),
            layout.center_number_width as nat,
        ) == text::decimal(layout::new_number(hunk, i)),
{
    if layout::has_right(hunk.rows[i]) {
        let number = layout::new_number(hunk, i);
        layout::lemma_numbers(hunk, i);
        lemma_largest_new_in(items, k);
        lemma_decimal_len_grows(number, layout::largest_new_in(items));
        lemma_decimal_columns(number);
        width::lemma_clip(
            text::decimal(number),
            layout.center_number_width as nat,
            TAB_STOP as nat,
        );
    }
}

/// The text on the right of a row, with its tabs expanded.
pub open spec fn right_text(row: RowView) -> Seq<char> {
    match row {
        RowView::Context(line) | RowView::Insert(line) => cells::expanded(line),
        RowView::Change { old, new } => cells::expanded(new),
        _ => Seq::empty(),
    }
}

/// Side by side, the text on the right is never cut: it is there whole, so
/// that scrolling to the right can reveal it. A line that did not change is dim
/// there; a line that is new or changed is not, and where it is empty, a space
/// stands for it behind its mark.
pub proof fn lemma_right_text_is_kept(
    items: Seq<ItemView>,
    screen: nat,
    layout: Layout,
    k: int,
    hunk: HunkView,
    i: int,
)
    requires
        layout::is_layout(layout, items, screen),
        0 <= k < items.len(),
        items[k] == ItemView::Hunk(hunk),
        0 <= i < hunk.rows.len(),
    ensures
        match hunk.rows[i] {
            RowView::Context(line) => side_by_side::right_cell(
                cells::expanded(line),
                None,
                false,
                true,
                layout.right_render_width as nat,
            ) == cells::dimmed(cells::expanded(line)),
            RowView::Insert(line) | RowView::Change { old: _, new: line } => side_by_side::right_cell(
                cells::expanded(line),
                None,
                true,
                false,
                layout.right_render_width as nat,
            ) == if cells::expanded(line).len() == 0 {
                " "@
            } else {
                cells::expanded(line)
            },
            _ => true,
        },
        layout::has_right(hunk.rows[i]) ==> cells::clipped(
            right_text(hunk.rows[i]),
            layout.right_render_width as nat,
        ) == right_text(hunk.rows[i]),
{
    lemma_widest_right(hunk.rows, i);
    lemma_widest_right_in(items, k);
    let shown = right_text(hunk.rows[i]);
    width::lemma_clip(shown, layout.right_render_width as nat, TAB_STOP as nat);
}

// ---------------------------------------------------------------------------
// Cells
// ---------------------------------------------------------------------------

/// A cell takes exactly the columns that it was given.
pub proof fn lemma_plain_cell_columns(line: Seq<char>, width: nat)
    ensures
        cells::shown_columns(cells::plain_cell(line, width)) == width,
{
    let kept = cells::clipped(line, width);
    let room = (width - cells::shown_columns(kept)) as nat;
    width::lemma_clip(line, width, TAB_STOP as nat);
    width::lemma_columns_add(kept, text::spaces(room), TAB_STOP as nat);
    width::lemma_spaces_columns(room, TAB_STOP as nat);
}

/// In a single column no text is cut: the line of a row ends in its text.
pub proof fn lemma_inline_text_is_kept(
    number: nat,
    line: Seq<char>,
    number_width: nat,
    palette: TintPalette,
)
    ensures
        ({
            let kept = cells::expanded(line);
            let context = single_column::context_line(number, line, number_width);
            let inserted = single_column::inserted_line(number, line, number_width, palette);
            let deleted = single_column::deleted_line(number, line, number_width, palette);
            &&& context.skip(context.len() - kept.len()) == kept
            &&& kept.len() > 0 ==> inserted.skip(inserted.len() - kept.len()) == kept
            &&& deleted.subrange(
                deleted.len() - kept.len() - "\u{1b}[0m"@.len(),
                deleted.len() - "\u{1b}[0m"@.len(),
            ) == kept
        }),
{
    let kept = cells::expanded(line);
    let context = single_column::context_line(number, line, number_width);
    let inserted = single_column::inserted_line(number, line, number_width, palette);
    let deleted = single_column::deleted_line(number, line, number_width, palette);
    assert(context.skip(context.len() - kept.len()) =~= kept);
    if kept.len() > 0 {
        assert(inserted.skip(inserted.len() - kept.len()) =~= kept);
    }
    assert(deleted.subrange(
        deleted.len() - kept.len() - "\u{1b}[0m"@.len(),
        deleted.len() - "\u{1b}[0m"@.len(),
    ) =~= kept);
}

// ---------------------------------------------------------------------------
// Gaps
// ---------------------------------------------------------------------------

/// A gap that is not filled in is one line, which tells where the gap is; a
/// gap that is filled in is as many lines as it was filled with, none of which
/// can be asked for again.
pub proof fn lemma_gap_lines(rendering: Rendering, gap: gaps::GapView)
    ensures
        match gaps::gap_state_in(rendering.gaps, gap.file_path, gap.hunk_index) {
            Some(gaps::GapStateView::Expanded(shown)) => {
                &&& rendering.gap_lines(gap).len() == shown.len()
                &&& forall|i: int|
                    0 <= i < shown.len() ==> (#[trigger] rendering.gap_lines(gap)[i]).gap is None
            },
            _ => rendering.gap_lines(gap).len() == 1 && rendering.gap_lines(gap)[0].gap == Some(
                gap,
            ),
        },
{
}

/// Where the lines left out are all filled in, the line numbers run on into
/// the hunk below: the number behind that of the last line filled in is that
/// of the hunk's first line.
pub proof fn lemma_filled_gap_runs_into_hunk(
    rendering: Rendering,
    path: Seq<char>,
    hunk_index: nat,
    previous: Option<HunkView>,
    hunk: HunkView,
)
    requires
        gaps::omitted(previous, hunk) is Some,
        gaps::gap_state_in(
            rendering.gaps,
            path,
            hunk_index,
        ) matches Some(gaps::GapStateView::Expanded(shown)) && shown.len() == (gaps::omitted(
            previous,
            hunk,
        )->0).1,
    ensures
        ({
            let (start_line, line_count) = gaps::omitted(previous, hunk)->0;
            let gap = gaps::GapView { file_path: path, hunk_index, start_line, line_count };
            let shown = gaps::gap_state_in(rendering.gaps, path, hunk_index)->0->Expanded_0;
            &&& rendering.gap_lines(gap).len() == line_count
            &&& rendering.gap_lines(gap).last() == rendering.filled_line(
                shown.last(),
                (hunk.new_start - 1) as nat,
            )
        }),
{
    gaps::lemma_gap_ends_at_hunk(previous, hunk);
}

/// Whether `gap` leaves out lines of a file, ends right above a hunk of `items`
/// and has not been filled in.
pub open spec fn gap_is_open(rendering: Rendering, items: Seq<ItemView>, gap: gaps::GapView) -> bool {
    &&& gap.start_line >= 1
    &&& gap.line_count >= 1
    &&& !(gaps::gap_state_in(
        rendering.gaps,
        gap.file_path,
        gap.hunk_index,
    ) matches Some(gaps::GapStateView::Expanded(shown)))
    &&& exists|k: int|
        0 <= k < items.len() && (#[trigger] items[k] matches ItemView::Hunk(hunk) && gap.start_line
            + gap.line_count == hunk.new_start)
}

/// Whether all gaps that `list` reports are open gaps of `items`.
pub open spec fn gaps_are_open(
    rendering: Rendering,
    items: Seq<ItemView>,
    list: Seq<lines::LineView>,
) -> bool {
    forall|i: int|
        0 <= i < list.len() ==> ((#[trigger] list[i]).gap matches Some(gap) ==> gap_is_open(
            rendering,
            items,
            gap,
        ))
}

proof fn lemma_gaps_are_open_add(
    rendering: Rendering,
    items: Seq<ItemView>,
    left: Seq<lines::LineView>,
    right: Seq<lines::LineView>,
)
    requires
        gaps_are_open(rendering, items, left),
        gaps_are_open(rendering, items, right),
    ensures
        gaps_are_open(rendering, items, left + right),
{
    let all = left + right;
    assert forall|i: int| 0 <= i < all.len() implies ((#[trigger] all[i]).gap matches Some(gap)
        ==> gap_is_open(rendering, items, gap)) by {
        if i < left.len() {
            assert(all[i] == left[i]);
        } else {
            assert(all[i] == right[i - left.len()]);
        }
    }
}

proof fn lemma_hunk_gaps(
    rendering: Rendering,
    items: Seq<ItemView>,
    k: int,
    path: Seq<char>,
    hunk_index: nat,
    previous: Option<HunkView>,
    hunk: HunkView,
)
    requires
        0 <= k < items.len(),
        items[k] == ItemView::Hunk(hunk),
    ensures
        gaps_are_open(
            rendering,
            items,
            rendering.hunk_lines(path, hunk_index, previous, hunk),
        ),
{
    lemma_row_line_count(rendering, hunk, hunk.rows.len(), true);
    lemma_row_line_count(rendering, hunk, hunk.rows.len(), false);
    match gaps::omitted(previous, hunk) {
        Some((start_line, line_count)) => {
            let gap = gaps::GapView { file_path: path, hunk_index, start_line, line_count };
            lemma_gap_lines(rendering, gap);
            gaps::lemma_gap_ends_at_hunk(previous, hunk);
            let list = rendering.gap_lines(gap);
            assert forall|i: int|
                0 <= i < list.len() implies ((#[trigger] list[i]).gap matches Some(found)
                ==> gap_is_open(rendering, items, found)) by {
                match gaps::gap_state_in(rendering.gaps, path, hunk_index) {
                    Some(gaps::GapStateView::Expanded(shown)) => {},
                    _ => {
                        assert(items[k] == ItemView::Hunk(hunk));
                        assert(gap_is_open(rendering, items, gap));
                    },
                }
            }
            lemma_gaps_are_open_add(
                rendering,
                items,
                list,
                rendering.rows_lines(hunk, hunk.rows.len(), true),
            );
        },
        None => {},
    }
}

proof fn lemma_section_gaps(
    rendering: Rendering,
    items: Seq<ItemView>,
    path: Seq<char>,
    from: int,
    to: int,
)
    requires
        0 <= from <= to <= items.len(),
    ensures
        gaps_are_open(rendering, items, rendering.section_lines(path, items.subrange(from, to))),
    decreases to - from,
{
    let section = items.subrange(from, to);
    if from < to {
        let before = section.drop_last();
        assert(before =~= items.subrange(from, to - 1));
        lemma_section_gaps(rendering, items, path, from, to - 1);
        let added = match section.last() {
            ItemView::Hunk(hunk) => {
                lemma_hunk_gaps(
                    rendering,
                    items,
                    to - 1,
                    path,
                    document::hunk_count(before),
                    document::last_hunk(before),
                    hunk,
                );
                rendering.hunk_lines(
                    path,
                    document::hunk_count(before),
                    document::last_hunk(before),
                    hunk,
                )
            },
            ItemView::Meta(line) => rendering.meta_lines(line),
            ItemView::FileHeader(_) => Seq::empty(),
        };
        assert(gaps_are_open(rendering, items, added));
        lemma_gaps_are_open_add(
            rendering,
            items,
            rendering.section_lines(path, before),
            added,
        );
    }
}

proof fn lemma_gaps_from(
    rendering: Rendering,
    items: Seq<ItemView>,
    start: int,
    above: Seq<lines::LineView>,
)
    requires
        0 <= start <= items.len(),
        gaps_are_open(rendering, items, above),
    ensures
        gaps_are_open(rendering, items, rendering.lines_from(items, start, above)),
    decreases items.len() - start,
{
    if start < items.len() {
        match items[start] {
            ItemView::FileHeader(path) => {
                let end = document::next_header(items, start + 1);
                document::lemma_next_header(items, start + 1);
                lemma_section_gaps(rendering, items, path, start + 1, end);
                let headed = rendering.with_header(above, path);
                assert forall|i: int|
                    0 <= i < headed.len() implies ((#[trigger] headed[i]).gap matches Some(gap)
                    ==> gap_is_open(rendering, items, gap)) by {
                    if i < above.len() {
                        assert(headed[i] == above[i]);
                    }
                }
                let section = rendering.section_lines(path, items.subrange(start + 1, end));
                lemma_gaps_are_open_add(rendering, items, headed, section);
                lemma_gaps_from(rendering, items, end, headed + section);
            },
            ItemView::Meta(line) => {
                lemma_gaps_are_open_add(rendering, items, above, rendering.meta_lines(line));
                lemma_gaps_from(rendering, items, start + 1, above + rendering.meta_lines(line));
            },
            ItemView::Hunk(_) => {
                let end = document::next_header(items, start);
                document::lemma_next_header(items, start);
                lemma_section_gaps(rendering, items, Seq::empty(), start, end);
                let section = rendering.section_lines(Seq::empty(), items.subrange(start, end));
                lemma_gaps_are_open_add(rendering, items, above, section);
                lemma_gaps_from(rendering, items, end, above + section);
            },
        }
    }
}

/// Every gap that the lines of a diff report starts at line one or later, has
/// lines in it, ends right above a hunk of the diff, and has not been filled in.
pub proof fn lemma_reported_gaps(rendering: Rendering, items: Seq<ItemView>)
    ensures
        gaps_are_open(rendering, items, rendering.document_lines(items)),
{
    lemma_gaps_from(rendering, items, 0, Seq::empty());
}

// ---------------------------------------------------------------------------
// Counting lines
// ---------------------------------------------------------------------------

/// The number of rows that changed a line.
pub open spec fn changed_rows(rows: Seq<RowView>) -> nat
    decreases rows.len(),
{
    if rows.len() == 0 {
        0
    } else {
        changed_rows(rows.drop_last()) + if rows.last() is Change {
            1nat
        } else {
            0nat
        }
    }
}

/// Side by side each row of a hunk is one line; in a single column a changed
/// line is two, and any other row is one. None of these lines stands for a gap.
pub proof fn lemma_row_line_count(rendering: Rendering, hunk: HunkView, n: nat, continued: bool)
    requires
        n <= hunk.rows.len(),
    ensures
        rendering.rows_lines(hunk, n, continued).len() == n + match rendering.format {
            Format::SideBySide { width, layout } => 0,
            Format::Inline { number_width } => changed_rows(hunk.rows.take(n as int)),
        },
        forall|i: int|
            0 <= i < rendering.rows_lines(hunk, n, continued).len() ==> (
            #[trigger] rendering.rows_lines(hunk, n, continued)[i]).gap is None,
    decreases n,
{
    assert(hunk.rows.take(0) =~= Seq::<RowView>::empty());
    if n > 0 {
        let before = (n - 1) as nat;
        lemma_row_line_count(rendering, hunk, before, continued);
        assert(hunk.rows.take(n as int).drop_last() =~= hunk.rows.take(before as int));
        let above = rendering.rows_lines(hunk, before, continued);
        let added = rendering.row_lines(hunk, before as int, continued);
        let all = rendering.rows_lines(hunk, n, continued);
        assert forall|i: int| 0 <= i < all.len() implies (#[trigger] all[i]).gap is None by {
            if i < above.len() {
                assert(all[i] == above[i]);
            } else {
                assert(all[i] == added[i - above.len()]);
            }
        }
    }
}

/// Two dots stand for an empty left side at most once in a hunk, and only
/// right below a gap: behind a row that is no annotation none follow.
pub proof fn lemma_continuation_is_shown_once(
    rendering: Rendering,
    hunk: HunkView,
    first: int,
    later: int,
    continued: bool,
)
    requires
        0 <= first < later < hunk.rows.len(),
        !(hunk.rows[first] is Annotation),
    ensures
        rendering.row_lines(hunk, later, continued) == rendering.row_lines(hunk, later, false),
        rendering.row_lines(hunk, later, false) == rendering.row_lines(hunk, later, true),
{
    assert(hunk.rows.take(later)[first] == hunk.rows[first]);
    assert(!document::only_annotations(hunk.rows.take(later)));
}

/// A diff without files, hunks or other lines is rendered as no lines, and the
/// first line of a diff is never blank because of a file header.
pub proof fn lemma_first_line(rendering: Rendering, items: Seq<ItemView>)
    ensures
        items.len() == 0 ==> rendering.document_lines(items).len() == 0,
        forall|path: Seq<char>|
            #[trigger] rendering.with_header(Seq::empty(), path) == seq![
                lines::text_line(cells::header_line(path)),
            ],
{
    assert forall|path: Seq<char>|
        #[trigger] rendering.with_header(Seq::empty(), path) == seq![
            lines::text_line(cells::header_line(path)),
        ] by {
        assert(rendering.with_header(Seq::empty(), path) =~= seq![
            lines::text_line(cells::header_line(path)),
        ]);
    }
}

// ---------------------------------------------------------------------------
// Nothing is lost
// ---------------------------------------------------------------------------

/// Whether `part` stands in `all` from position `at` on.
pub open spec fn stands_at(
    all: Seq<lines::LineView>,
    at: int,
    part: Seq<lines::LineView>,
) -> bool {
    &&& 0 <= at
    &&& at + part.len() <= all.len()
    &&& all.subrange(at, at + part.len()) == part
}

/// Whether `part` stands somewhere in `all`, without a gap.
pub open spec fn holds(all: Seq<lines::LineView>, part: Seq<lines::LineView>) -> bool {
    exists|at: int| stands_at(all, at, part)
}

proof fn lemma_holds_left(
    left: Seq<lines::LineView>,
    right: Seq<lines::LineView>,
    part: Seq<lines::LineView>,
)
    requires
        holds(left, part),
    ensures
        holds(left + right, part),
{
    let at = choose|at: int| stands_at(left, at, part);
    assert((left + right).subrange(at, at + part.len()) =~= left.subrange(at, at + part.len()));
    assert(stands_at(left + right, at, part));
}

proof fn lemma_holds_right(
    left: Seq<lines::LineView>,
    right: Seq<lines::LineView>,
    part: Seq<lines::LineView>,
)
    requires
        holds(right, part),
    ensures
        holds(left + right, part),
{
    let at = choose|at: int| stands_at(right, at, part);
    let moved = left.len() + at;
    assert((left + right).subrange(moved, moved + part.len()) =~= right.subrange(
        at,
        at + part.len(),
    ));
    assert(stands_at(left + right, moved, part));
}

proof fn lemma_holds_itself(part: Seq<lines::LineView>)
    ensures
        holds(part, part),
{
    assert(part.subrange(0, part.len() as int) =~= part);
    assert(stands_at(part, 0, part));
}

proof fn lemma_rows_hold_row(
    rendering: Rendering,
    hunk: HunkView,
    n: nat,
    i: int,
    continued: bool,
)
    requires
        0 <= i < n <= hunk.rows.len(),
    ensures
        holds(
            rendering.rows_lines(hunk, n, continued),
            rendering.row_lines(hunk, i, continued),
        ),
    decreases n,
{
    let before = rendering.rows_lines(hunk, (n - 1) as nat, continued);
    let last = rendering.row_lines(hunk, n - 1, continued);
    let row = rendering.row_lines(hunk, i, continued);
    if i == n - 1 {
        lemma_holds_itself(row);
        lemma_holds_right(before, last, row);
    } else {
        lemma_rows_hold_row(rendering, hunk, (n - 1) as nat, i, continued);
        lemma_holds_left(before, last, row);
    }
}

/// Whether `list` holds the lines of row `i` of `hunk`, as they are below a gap
/// or as they are elsewhere.
pub open spec fn holds_row(
    rendering: Rendering,
    list: Seq<lines::LineView>,
    hunk: HunkView,
    i: int,
) -> bool {
    holds(list, rendering.row_lines(hunk, i, true)) || holds(
        list,
        rendering.row_lines(hunk, i, false),
    )
}

proof fn lemma_hunk_holds_row(
    rendering: Rendering,
    path: Seq<char>,
    hunk_index: nat,
    previous: Option<HunkView>,
    hunk: HunkView,
    i: int,
)
    requires
        0 <= i < hunk.rows.len(),
    ensures
        holds_row(
            rendering,
            rendering.hunk_lines(path, hunk_index, previous, hunk),
            hunk,
            i,
        ),
{
    match gaps::omitted(previous, hunk) {
        Some((start_line, line_count)) => {
            let gap = gaps::GapView { file_path: path, hunk_index, start_line, line_count };
            lemma_rows_hold_row(rendering, hunk, hunk.rows.len(), i, true);
            lemma_holds_right(
                rendering.gap_lines(gap),
                rendering.rows_lines(hunk, hunk.rows.len(), true),
                rendering.row_lines(hunk, i, true),
            );
        },
        None => {
            lemma_rows_hold_row(rendering, hunk, hunk.rows.len(), i, false);
        },
    }
}

proof fn lemma_row_stays(
    rendering: Rendering,
    left: Seq<lines::LineView>,
    right: Seq<lines::LineView>,
    hunk: HunkView,
    i: int,
)
    requires
        holds_row(rendering, left, hunk, i) || holds_row(rendering, right, hunk, i),
    ensures
        holds_row(rendering, left + right, hunk, i),
{
    let below = rendering.row_lines(hunk, i, true);
    let elsewhere = rendering.row_lines(hunk, i, false);
    if holds(left, below) {
        lemma_holds_left(left, right, below);
    } else if holds(left, elsewhere) {
        lemma_holds_left(left, right, elsewhere);
    } else if holds(right, below) {
        lemma_holds_right(left, right, below);
    } else {
        lemma_holds_right(left, right, elsewhere);
    }
}

proof fn lemma_section_holds_row(
    rendering: Rendering,
    path: Seq<char>,
    section: Seq<ItemView>,
    k: int,
    hunk: HunkView,
    i: int,
)
    requires
        0 <= k < section.len(),
        section[k] == ItemView::Hunk(hunk),
        0 <= i < hunk.rows.len(),
    ensures
        holds_row(rendering, rendering.section_lines(path, section), hunk, i),
    decreases section.len(),
{
    let before = section.drop_last();
    let above = rendering.section_lines(path, before);
    let added = match section.last() {
        ItemView::Hunk(last) => rendering.hunk_lines(
            path,
            document::hunk_count(before),
            document::last_hunk(before),
            last,
        ),
        ItemView::Meta(line) => rendering.meta_lines(line),
        ItemView::FileHeader(_) => Seq::empty(),
    };
    if k == section.len() - 1 {
        lemma_hunk_holds_row(
            rendering,
            path,
            document::hunk_count(before),
            document::last_hunk(before),
            hunk,
            i,
        );
    } else {
        assert(before[k] == section[k]);
        lemma_section_holds_row(rendering, path, before, k, hunk, i);
    }
    lemma_row_stays(rendering, above, added, hunk, i);
}

proof fn lemma_lines_above_stay(
    rendering: Rendering,
    items: Seq<ItemView>,
    start: int,
    above: Seq<lines::LineView>,
    hunk: HunkView,
    i: int,
)
    requires
        0 <= start <= items.len(),
        holds_row(rendering, above, hunk, i),
    ensures
        holds_row(rendering, rendering.lines_from(items, start, above), hunk, i),
    decreases items.len() - start,
{
    if start < items.len() {
        match items[start] {
            ItemView::FileHeader(path) => {
                let end = document::next_header(items, start + 1);
                document::lemma_next_header(items, start + 1);
                let headed = rendering.with_header(above, path);
                let section = rendering.section_lines(path, items.subrange(start + 1, end));
                let header = headed.skip(above.len() as int);
                assert(headed =~= above + header);
                lemma_row_stays(rendering, above, header, hunk, i);
                lemma_row_stays(rendering, headed, section, hunk, i);
                lemma_lines_above_stay(rendering, items, end, headed + section, hunk, i);
            },
            ItemView::Meta(line) => {
                lemma_row_stays(rendering, above, rendering.meta_lines(line), hunk, i);
                lemma_lines_above_stay(
                    rendering,
                    items,
                    start + 1,
                    above + rendering.meta_lines(line),
                    hunk,
                    i,
                );
            },
            ItemView::Hunk(_) => {
                let end = document::next_header(items, start);
                document::lemma_next_header(items, start);
                let section = rendering.section_lines(Seq::empty(), items.subrange(start, end));
                lemma_row_stays(rendering, above, section, hunk, i);
                lemma_lines_above_stay(rendering, items, end, above + section, hunk, i);
            },
        }
    }
}

proof fn lemma_lines_from_hold_row(
    rendering: Rendering,
    items: Seq<ItemView>,
    start: int,
    above: Seq<lines::LineView>,
    k: int,
    hunk: HunkView,
    i: int,
)
    requires
        0 <= start <= k < items.len(),
        items[k] == ItemView::Hunk(hunk),
        0 <= i < hunk.rows.len(),
    ensures
        holds_row(rendering, rendering.lines_from(items, start, above), hunk, i),
    decreases items.len() - start,
{
    match items[start] {
        ItemView::FileHeader(path) => {
            let end = document::next_header(items, start + 1);
            document::lemma_next_header(items, start + 1);
            let headed = rendering.with_header(above, path);
            let part = items.subrange(start + 1, end);
            let section = rendering.section_lines(path, part);
            if k < end {
                assert(part[k - start - 1] == items[k]);
                lemma_section_holds_row(rendering, path, part, k - start - 1, hunk, i);
                lemma_row_stays(rendering, headed, section, hunk, i);
                lemma_lines_above_stay(rendering, items, end, headed + section, hunk, i);
            } else {
                lemma_lines_from_hold_row(rendering, items, end, headed + section, k, hunk, i);
            }
        },
        ItemView::Meta(line) => {
            lemma_lines_from_hold_row(
                rendering,
                items,
                start + 1,
                above + rendering.meta_lines(line),
                k,
                hunk,
                i,
            );
        },
        ItemView::Hunk(_) => {
            let end = document::next_header(items, start);
            document::lemma_next_header(items, start);
            let part = items.subrange(start, end);
            let section = rendering.section_lines(Seq::empty(), part);
            if k < end {
                assert(part[k - start] == items[k]);
                lemma_section_holds_row(rendering, Seq::empty(), part, k - start, hunk, i);
                lemma_row_stays(rendering, above, section, hunk, i);
                lemma_lines_above_stay(rendering, items, end, above + section, hunk, i);
            } else {
                lemma_lines_from_hold_row(rendering, items, end, above + section, k, hunk, i);
            }
        },
    }
}

/// Every row of every hunk is rendered, in both layouts: its lines stand in the
/// lines of the diff.
pub proof fn lemma_every_row_is_rendered(
    rendering: Rendering,
    items: Seq<ItemView>,
    k: int,
    hunk: HunkView,
    i: int,
)
    requires
        0 <= k < items.len(),
        items[k] == ItemView::Hunk(hunk),
        0 <= i < hunk.rows.len(),
    ensures
        holds_row(rendering, rendering.document_lines(items), hunk, i),
{
    lemma_lines_from_hold_row(rendering, items, 0, Seq::empty(), k, hunk, i);
}

// ---------------------------------------------------------------------------
// Spinners
// ---------------------------------------------------------------------------

/// Whether no gap is being fetched.
pub open spec fn nothing_loads(entries: Seq<(gaps::GapId, gaps::GapState)>) -> bool {
    forall|j: int| 0 <= j < entries.len() ==> !((#[trigger] entries[j]).1 is Loading)
}

/// `rendering` at another frame of the spinners.
pub open spec fn at_frame(rendering: Rendering, frame: nat) -> Rendering {
    Rendering { frame, ..rendering }
}

proof fn lemma_gap_at_frame(rendering: Rendering, frame: nat, gap: gaps::GapView)
    requires
        nothing_loads(rendering.gaps),
    ensures
        at_frame(rendering, frame).gap_lines(gap) == rendering.gap_lines(gap),
{
    gaps::lemma_state_is_of_entry(rendering.gaps, gap.file_path, gap.hunk_index);
    assert(at_frame(rendering, frame).gap_lines(gap) =~= rendering.gap_lines(gap));
}

proof fn lemma_rows_at_frame(
    rendering: Rendering,
    frame: nat,
    hunk: HunkView,
    n: nat,
    continued: bool,
)
    ensures
        at_frame(rendering, frame).rows_lines(hunk, n, continued) == rendering.rows_lines(
            hunk,
            n,
            continued,
        ),
    decreases n,
{
    if n > 0 {
        lemma_rows_at_frame(rendering, frame, hunk, (n - 1) as nat, continued);
        assert(at_frame(rendering, frame).row_lines(hunk, n - 1, continued)
            == rendering.row_lines(hunk, n - 1, continued));
    }
}

proof fn lemma_section_at_frame(
    rendering: Rendering,
    frame: nat,
    path: Seq<char>,
    section: Seq<ItemView>,
)
    requires
        nothing_loads(rendering.gaps),
    ensures
        at_frame(rendering, frame).section_lines(path, section) == rendering.section_lines(
            path,
            section,
        ),
    decreases section.len(),
{
    if section.len() > 0 {
        let before = section.drop_last();
        lemma_section_at_frame(rendering, frame, path, before);
        match section.last() {
            ItemView::Hunk(hunk) => {
                let hunk_index = document::hunk_count(before);
                match gaps::omitted(document::last_hunk(before), hunk) {
                    Some((start_line, line_count)) => {
                        lemma_gap_at_frame(
                            rendering,
                            frame,
                            gaps::GapView { file_path: path, hunk_index, start_line, line_count },
                        );
                        lemma_rows_at_frame(rendering, frame, hunk, hunk.rows.len(), true);
                    },
                    None => {
                        lemma_rows_at_frame(rendering, frame, hunk, hunk.rows.len(), false);
                    },
                }
            },
            _ => {},
        }
    }
}

proof fn lemma_lines_at_frame(
    rendering: Rendering,
    frame: nat,
    items: Seq<ItemView>,
    start: int,
    above: Seq<lines::LineView>,
)
    requires
        nothing_loads(rendering.gaps),
        0 <= start <= items.len(),
    ensures
        at_frame(rendering, frame).lines_from(items, start, above) == rendering.lines_from(
            items,
            start,
            above,
        ),
    decreases items.len() - start,
{
    if start < items.len() {
        match items[start] {
            ItemView::FileHeader(path) => {
                let end = document::next_header(items, start + 1);
                document::lemma_next_header(items, start + 1);
                let part = items.subrange(start + 1, end);
                lemma_section_at_frame(rendering, frame, path, part);
                lemma_lines_at_frame(
                    rendering,
                    frame,
                    items,
                    end,
                    rendering.with_header(above, path) + rendering.section_lines(path, part),
                );
            },
            ItemView::Meta(line) => {
                lemma_lines_at_frame(
                    rendering,
                    frame,
                    items,
                    start + 1,
                    above + rendering.meta_lines(line),
                );
            },
            ItemView::Hunk(_) => {
                let end = document::next_header(items, start);
                document::lemma_next_header(items, start);
                let part = items.subrange(start, end);
                lemma_section_at_frame(rendering, frame, Seq::empty(), part);
                lemma_lines_at_frame(
                    rendering,
                    frame,
                    items,
                    end,
                    above + rendering.section_lines(Seq::empty(), part),
                );
            },
        }
    }
}

/// Where no gap is being fetched, a diff looks the same at every frame of the
/// spinners.
pub proof fn lemma_only_loading_gaps_spin(rendering: Rendering, frame: nat, items: Seq<ItemView>)
    requires
        nothing_loads(rendering.gaps),
    ensures
        at_frame(rendering, frame).document_lines(items) == rendering.document_lines(items),
{
    lemma_lines_at_frame(rendering, frame, items, 0, Seq::empty());
}

// ---------------------------------------------------------------------------
// Lines outside hunks
// ---------------------------------------------------------------------------

/// `items` without the lines outside hunks.
pub open spec fn without_meta(items: Seq<ItemView>) -> Seq<ItemView>
    decreases items.len(),
{
    if items.len() == 0 {
        items
    } else if items.last() is Meta {
        without_meta(items.drop_last())
    } else {
        without_meta(items.drop_last()).push(items.last())
    }
}

/// The number of items among the first `n` that are no lines outside hunks.
spec fn kept_before(items: Seq<ItemView>, n: int) -> int {
    without_meta(items.take(n)).len() as int
}

proof fn lemma_without_meta_add(left: Seq<ItemView>, right: Seq<ItemView>)
    ensures
        without_meta(left + right) == without_meta(left) + without_meta(right),
    decreases right.len(),
{
    if right.len() == 0 {
        assert(left + right =~= left);
        assert(without_meta(left) + without_meta(right) =~= without_meta(left));
    } else {
        assert((left + right).drop_last() =~= left + right.drop_last());
        lemma_without_meta_add(left, right.drop_last());
        assert(without_meta(left + right) =~= without_meta(left) + without_meta(right));
    }
}

proof fn lemma_kept_part(items: Seq<ItemView>, from: int, to: int)
    requires
        0 <= from <= to <= items.len(),
    ensures
        0 <= kept_before(items, from) <= kept_before(items, to) <= without_meta(items).len(),
        without_meta(items).subrange(kept_before(items, from), kept_before(items, to))
            == without_meta(items.subrange(from, to)),
{
    let first = items.take(from);
    let part = items.subrange(from, to);
    let last = items.skip(to);
    assert(items.take(to) =~= first + part);
    assert(items =~= items.take(to) + last);
    lemma_without_meta_add(first, part);
    lemma_without_meta_add(items.take(to), last);
    assert(without_meta(items).subrange(kept_before(items, from), kept_before(items, to))
        =~= without_meta(part));
}

proof fn lemma_kept_step(items: Seq<ItemView>, at: int)
    requires
        0 <= at < items.len(),
    ensures
        items[at] is Meta ==> kept_before(items, at + 1) == kept_before(items, at),
        !(items[at] is Meta) ==> {
            &&& kept_before(items, at + 1) == kept_before(items, at) + 1
            &&& kept_before(items, at) < without_meta(items).len()
            &&& without_meta(items)[kept_before(items, at)] == items[at]
        },
{
    let one = items.subrange(at, at + 1);
    assert(one.drop_last() =~= Seq::<ItemView>::empty());
    assert(without_meta(one.drop_last()) =~= Seq::<ItemView>::empty());
    assert(one.last() == items[at]);
    lemma_kept_part(items, at, at + 1);
    let kept = without_meta(items).subrange(kept_before(items, at), kept_before(items, at + 1));
    if !(items[at] is Meta) {
        assert(kept =~= seq![items[at]]);
        assert(kept[0] == items[at]);
    }
}

proof fn lemma_kept_header(items: Seq<ItemView>, start: int)
    requires
        0 <= start <= items.len(),
    ensures
        document::next_header(without_meta(items), kept_before(items, start)) == kept_before(
            items,
            document::next_header(items, start),
        ),
    decreases items.len() - start,
{
    if start < items.len() {
        lemma_kept_step(items, start);
        if !(items[start] is FileHeader) {
            lemma_kept_header(items, start + 1);
        }
    } else {
        assert(items.take(start) =~= items);
    }
}

proof fn lemma_section_without_meta(
    rendering: Rendering,
    path: Seq<char>,
    section: Seq<ItemView>,
)
    requires
        rendering.format is Inline,
    ensures
        rendering.section_lines(path, without_meta(section)) == rendering.section_lines(
            path,
            section,
        ),
        document::hunk_count(without_meta(section)) == document::hunk_count(section),
        document::last_hunk(without_meta(section)) == document::last_hunk(section),
    decreases section.len(),
{
    if section.len() > 0 {
        let before = section.drop_last();
        lemma_section_without_meta(rendering, path, before);
        match section.last() {
            ItemView::Meta(line) => {
                assert(rendering.section_lines(path, section) =~= rendering.section_lines(
                    path,
                    before,
                ));
            },
            _ => {
                assert(without_meta(section).drop_last() =~= without_meta(before));
            },
        }
    }
}

proof fn lemma_lines_without_meta(
    rendering: Rendering,
    items: Seq<ItemView>,
    start: int,
    above: Seq<lines::LineView>,
)
    requires
        rendering.format is Inline,
        0 <= start <= items.len(),
    ensures
        rendering.lines_from(without_meta(items), kept_before(items, start), above)
            == rendering.lines_from(items, start, above),
    decreases items.len() - start,
{
    if start < items.len() {
        lemma_kept_step(items, start);
        match items[start] {
            ItemView::FileHeader(path) => {
                let end = document::next_header(items, start + 1);
                document::lemma_next_header(items, start + 1);
                let part = items.subrange(start + 1, end);
                lemma_kept_header(items, start + 1);
                lemma_kept_part(items, start + 1, end);
                lemma_section_without_meta(rendering, path, part);
                lemma_lines_without_meta(
                    rendering,
                    items,
                    end,
                    rendering.with_header(above, path) + rendering.section_lines(path, part),
                );
            },
            ItemView::Meta(line) => {
                assert(above + rendering.meta_lines(line) =~= above);
                lemma_lines_without_meta(rendering, items, start + 1, above);
            },
            ItemView::Hunk(_) => {
                let end = document::next_header(items, start);
                document::lemma_next_header(items, start);
                let part = items.subrange(start, end);
                lemma_kept_header(items, start);
                lemma_kept_part(items, start, end);
                lemma_section_without_meta(rendering, Seq::empty(), part);
                lemma_lines_without_meta(
                    rendering,
                    items,
                    end,
                    above + rendering.section_lines(Seq::empty(), part),
                );
            },
        }
    } else {
        assert(items.take(start) =~= items);
    }
}

proof fn lemma_inline_width_without_meta(items: Seq<ItemView>)
    ensures
        layout::largest_inline_in(without_meta(items)) == layout::largest_inline_in(items),
    decreases items.len(),
{
    if items.len() > 0 {
        lemma_inline_width_without_meta(items.drop_last());
        if !(items.last() is Meta) {
            assert(without_meta(items).drop_last() =~= without_meta(items.drop_last()));
        }
    }
}

/// In a single column a diff looks the same without its lines outside hunks,
/// and its line numbers get the same columns.
pub proof fn lemma_inline_leaves_out_meta(rendering: Rendering, items: Seq<ItemView>)
    requires
        rendering.format is Inline,
    ensures
        rendering.document_lines(without_meta(items)) == rendering.document_lines(items),
        layout::inline_width(without_meta(items)) == layout::inline_width(items),
{
    assert(items.take(0) =~= Seq::<ItemView>::empty());
    lemma_lines_without_meta(rendering, items, 0, Seq::empty());
    lemma_inline_width_without_meta(items);
}

} // verus!
