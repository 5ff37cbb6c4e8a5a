//! Which lines a gap leaves out, and to which file and hunk it belongs.

use super::document;
use super::document::Rendering;
use super::gaps;
use super::gaps::GapView;
use super::laws;
use super::layout;
use super::lines;
use crate::unified_diff;
use crate::unified_diff::HunkView;
use crate::unified_diff::ItemView;
use vstd::prelude::*;

verus! {

broadcast use vstd::seq::group_seq_axioms;

// ---------------------------------------------------------------------------
// One gap
// ---------------------------------------------------------------------------

/// At the top of a file the lines before the first hunk are left out: from line
/// one up to the line above the hunk.
pub proof fn lemma_gap_above_first_hunk(hunk: HunkView)
    ensures
        gaps::omitted(None, hunk) == if hunk.new_start >= 2 {
            Some((1nat, (hunk.new_start - 1) as nat))
        } else {
            None
        },
{
}

/// Between two hunks the lines are left out that are in neither: from the line
/// behind the last of the hunk above up to the line above the hunk below. A hunk
/// that has no lines on the right ends where it starts.
pub proof fn lemma_gap_between_hunks(above: HunkView, hunk: HunkView)
    ensures
        ({
            let start = if above.new_start + above.new_len == 0 {
                1
            } else {
                above.new_start + above.new_len
            };
            gaps::omitted(Some(above), hunk) == if hunk.new_start > start {
                Some((start, (hunk.new_start - start) as nat))
            } else {
                None
            }
        }),
{
}

/// Where a hunk has as many lines on the right as its header says, none of them
/// is left out below it: the lines that it shows have smaller numbers than the
/// gap, and the last of them is right above it.
pub proof fn lemma_gap_leaves_hunk_alone(above: HunkView, hunk: HunkView, i: int)
    requires
        above.new_len == unified_diff::new_side(above.rows).len(),
        above.new_len > 0,
        gaps::omitted(Some(above), hunk) is Some,
        0 <= i < above.rows.len(),
        layout::has_right(above.rows[i]),
    ensures
        layout::new_number(above, i) < (gaps::omitted(Some(above), hunk)->0).0,
        layout::new_number(above, i) >= above.new_start,
        (gaps::omitted(Some(above), hunk)->0).0 == above.new_start + unified_diff::new_side(
            above.rows,
        ).len(),
{
    layout::lemma_numbers(above, i);
    lemma_right_lines(above.rows);
}

/// Numbers count the lines of their side: that of a row is the first number of
/// the hunk and the lines above the row on that side.
pub proof fn lemma_numbers_count_lines(hunk: HunkView, i: int)
    requires
        0 <= i <= hunk.rows.len(),
    ensures
        layout::new_number(hunk, i) == hunk.new_start + unified_diff::new_side(
            hunk.rows.take(i),
        ).len(),
        layout::old_number(hunk, i) == hunk.old_start + unified_diff::old_side(
            hunk.rows.take(i),
        ).len(),
{
    lemma_right_lines(hunk.rows.take(i));
}

proof fn lemma_right_lines(rows: Seq<unified_diff::RowView>)
    ensures
        layout::right_lines(rows) == unified_diff::new_side(rows).len(),
        layout::left_lines(rows) == unified_diff::old_side(rows).len(),
    decreases rows.len(),
{
    if rows.len() > 0 {
        lemma_right_lines(rows.drop_last());
    }
}

// ---------------------------------------------------------------------------
// The gaps of a diff
// ---------------------------------------------------------------------------

/// The path of the file that item `k` belongs to.
pub open spec fn path_above(items: Seq<ItemView>, k: int) -> Seq<char>
    decreases k,
{
    if k <= 0 {
        Seq::empty()
    } else {
        match items[k - 1] {
            ItemView::FileHeader(path) => path,
            _ => path_above(items, k - 1),
        }
    }
}

/// The number of hunks above item `k` in the same file.
pub open spec fn hunks_above(items: Seq<ItemView>, k: int) -> nat
    decreases k,
{
    if k <= 0 {
        0
    } else {
        match items[k - 1] {
            ItemView::FileHeader(_) => 0,
            ItemView::Meta(_) => hunks_above(items, k - 1),
            ItemView::Hunk(_) => hunks_above(items, k - 1) + 1,
        }
    }
}

/// The line behind the last line on the right of the hunk above item `k` in the
/// same file, or line one.
pub open spec fn line_behind_hunk_above(items: Seq<ItemView>, k: int) -> nat
    decreases k,
{
    if k <= 0 {
        1
    } else {
        match items[k - 1] {
            ItemView::FileHeader(_) => 1,
            ItemView::Meta(_) => line_behind_hunk_above(items, k - 1),
            ItemView::Hunk(hunk) => if hunk.new_start + hunk.new_len == 0 {
                1
            } else {
                hunk.new_start + hunk.new_len
            },
        }
    }
}

/// Whether `gap` is the gap above item `k`, which is a hunk: it belongs to the
/// file of the hunk, has the number of the hunk in that file, and leaves out the
/// lines between the hunk and the one above it.
pub open spec fn is_gap_above(items: Seq<ItemView>, k: int, gap: GapView) -> bool {
    &&& 0 <= k < items.len()
    &&& items[k] matches ItemView::Hunk(hunk) && gap.start_line + gap.line_count == hunk.new_start
    &&& gap.line_count >= 1
    &&& gap.start_line == line_behind_hunk_above(items, k)
    &&& gap.file_path == path_above(items, k)
    &&& gap.hunk_index == hunks_above(items, k)
}

/// Whether `gap` is above one of `items`.
pub open spec fn is_gap_of(items: Seq<ItemView>, gap: GapView) -> bool {
    exists|k: int| is_gap_above(items, k, gap)
}

/// Whether the gaps that `list` reports are gaps of `items`.
pub open spec fn are_gaps_of(items: Seq<ItemView>, list: Seq<lines::LineView>) -> bool {
    forall|i: int|
        0 <= i < list.len() ==> ((#[trigger] list[i]).gap matches Some(gap) ==> is_gap_of(
            items,
            gap,
        ))
}

proof fn lemma_gaps_add(
    items: Seq<ItemView>,
    left: Seq<lines::LineView>,
    right: Seq<lines::LineView>,
)
    requires
        are_gaps_of(items, left),
        are_gaps_of(items, right),
    ensures
        are_gaps_of(items, left + right),
{
    let all = left + right;
    assert forall|i: int| 0 <= i < all.len() implies ((#[trigger] all[i]).gap matches Some(gap)
        ==> is_gap_of(items, gap)) by {
        if i < left.len() {
            assert(all[i] == left[i]);
        } else {
            assert(all[i] == right[i - left.len()]);
        }
    }
}

/// Whether the items from `from` to `to` belong to the file at `path`, with no
/// hunk of it above them.
spec fn is_section(items: Seq<ItemView>, from: int, path: Seq<char>) -> bool {
    &&& path_above(items, from) == path
    &&& hunks_above(items, from) == 0
    &&& line_behind_hunk_above(items, from) == 1
}

proof fn lemma_inside_section(items: Seq<ItemView>, from: int, to: int, path: Seq<char>)
    requires
        0 <= from <= to <= items.len(),
        is_section(items, from, path),
        forall|i: int| from <= i < to ==> !(#[trigger] items[i] is FileHeader),
    ensures
        path_above(items, to) == path,
        hunks_above(items, to) == document::hunk_count(items.subrange(from, to)),
        gaps::gap_start(document::last_hunk(items.subrange(from, to))) == line_behind_hunk_above(
            items,
            to,
        ),
    decreases to - from,
{
    let part = items.subrange(from, to);
    if from < to {
        assert(part.drop_last() =~= items.subrange(from, to - 1));
        assert(part.last() == items[to - 1]);
        lemma_inside_section(items, from, to - 1, path);
    }
}

proof fn lemma_hunk_reports(
    rendering: Rendering,
    items: Seq<ItemView>,
    from: int,
    k: int,
    path: Seq<char>,
    hunk: HunkView,
)
    requires
        0 <= from <= k < items.len(),
        items[k] == ItemView::Hunk(hunk),
        is_section(items, from, path),
        forall|i: int| from <= i < k ==> !(#[trigger] items[i] is FileHeader),
    ensures
        ({
            let before = items.subrange(from, k);
            are_gaps_of(
                items,
                rendering.hunk_lines(
                    path,
                    document::hunk_count(before),
                    document::last_hunk(before),
                    hunk,
                ),
            )
        }),
{
    let before = items.subrange(from, k);
    let hunk_index = document::hunk_count(before);
    let previous = document::last_hunk(before);
    lemma_inside_section(items, from, k, path);
    laws::lemma_row_line_count(rendering, hunk, hunk.rows.len(), true);
    laws::lemma_row_line_count(rendering, hunk, hunk.rows.len(), false);
    match gaps::omitted(previous, hunk) {
        Some((start_line, line_count)) => {
            let gap = GapView { file_path: path, hunk_index, start_line, line_count };
            laws::lemma_gap_lines(rendering, gap);
            assert(is_gap_above(items, k, gap));
            let list = rendering.gap_lines(gap);
            assert(are_gaps_of(items, list));
            lemma_gaps_add(items, list, rendering.rows_lines(hunk, hunk.rows.len(), true));
        },
        None => {},
    }
}

proof fn lemma_section_reports(
    rendering: Rendering,
    items: Seq<ItemView>,
    from: int,
    to: int,
    path: Seq<char>,
)
    requires
        0 <= from <= to <= items.len(),
        is_section(items, from, path),
        forall|i: int| from <= i < to ==> !(#[trigger] items[i] is FileHeader),
    ensures
        are_gaps_of(items, rendering.section_lines(path, items.subrange(from, to))),
    decreases to - from,
{
    let section = items.subrange(from, to);
    if from < to {
        let before = section.drop_last();
        assert(before =~= items.subrange(from, to - 1));
        lemma_section_reports(rendering, items, from, to - 1, path);
        let above = rendering.section_lines(path, before);
        assert(section.last() == items[to - 1]);
        match section.last() {
            ItemView::Hunk(hunk) => {
                lemma_hunk_reports(rendering, items, from, to - 1, path, hunk);
                lemma_gaps_add(
                    items,
                    above,
                    rendering.hunk_lines(
                        path,
                        document::hunk_count(before),
                        document::last_hunk(before),
                        hunk,
                    ),
                );
            },
            ItemView::Meta(line) => {
                lemma_gaps_add(items, above, rendering.meta_lines(line));
            },
            ItemView::FileHeader(_) => {},
        }
    }
}

proof fn lemma_no_header_before_next(items: Seq<ItemView>, start: int)
    requires
        0 <= start <= items.len(),
    ensures
        forall|i: int|
            start <= i < document::next_header(items, start) ==> !(#[trigger] items[i] is FileHeader),
        start <= document::next_header(items, start) <= items.len(),
        document::next_header(items, start) < items.len() ==> items[document::next_header(
            items,
            start,
        )] is FileHeader,
    decreases items.len() - start,
{
    if start < items.len() && !(items[start] is FileHeader) {
        lemma_no_header_before_next(items, start + 1);
    }
}

proof fn lemma_lines_report(
    rendering: Rendering,
    items: Seq<ItemView>,
    start: int,
    above: Seq<lines::LineView>,
)
    requires
        0 <= start <= items.len(),
        are_gaps_of(items, above),
        start == items.len() || items[start] is FileHeader || is_section(
            items,
            start,
            Seq::empty(),
        ),
    ensures
        are_gaps_of(items, rendering.lines_from(items, start, above)),
    decreases items.len() - start,
{
    if start < items.len() {
        match items[start] {
            ItemView::FileHeader(path) => {
                let end = document::next_header(items, start + 1);
                lemma_no_header_before_next(items, start + 1);
                assert(is_section(items, start + 1, path));
                lemma_section_reports(rendering, items, start + 1, end, path);
                let headed = rendering.with_header(above, path);
                assert forall|i: int| 0 <= i < headed.len() implies ((#[trigger] headed[i]).gap
                    matches Some(gap) ==> is_gap_of(items, gap)) by {
                    if i < above.len() {
                        assert(headed[i] == above[i]);
                    }
                }
                let section = rendering.section_lines(path, items.subrange(start + 1, end));
                lemma_gaps_add(items, headed, section);
                lemma_lines_report(rendering, items, end, headed + section);
            },
            ItemView::Meta(line) => {
                lemma_gaps_add(items, above, rendering.meta_lines(line));
                assert(start + 1 < items.len() && !(items[start + 1] is FileHeader) ==> is_section(
                    items,
                    start + 1,
                    Seq::empty(),
                ));
                lemma_lines_report(rendering, items, start + 1, above + rendering.meta_lines(line));
            },
            ItemView::Hunk(_) => {
                let end = document::next_header(items, start);
                lemma_no_header_before_next(items, start);
                document::lemma_next_header(items, start);
                lemma_section_reports(rendering, items, start, end, Seq::empty());
                let section = rendering.section_lines(Seq::empty(), items.subrange(start, end));
                lemma_gaps_add(items, above, section);
                lemma_lines_report(rendering, items, end, above + section);
            },
        }
    }
}

/// Every gap that the lines of a diff report is the gap above one of its hunks:
/// it names the file and the number of the hunk, and leaves out exactly the
/// lines between that hunk and the one above it.
pub proof fn lemma_reported_gaps_are_between_hunks(rendering: Rendering, items: Seq<ItemView>)
    ensures
        are_gaps_of(items, rendering.document_lines(items)),
{
    lemma_lines_report(rendering, items, 0, Seq::empty());
}

} // verus!
