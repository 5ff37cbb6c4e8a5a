//! In which order the parts of a diff are rendered.

use super::cells;
use super::document;
use super::document::Format;
use super::document::Rendering;
use super::gap_laws;
use super::gaps;
use super::gaps::GapView;
use super::layout;
use super::layout::Layout;
use super::layout::PaneLayout;
use super::lines;
use super::lines::LineView;
use super::side_by_side;
use super::single_column;
use crate::terminal_palette::AnsiColor;
use crate::text;
use crate::unified_diff;
use crate::unified_diff::HunkView;
use crate::unified_diff::ItemView;
use crate::unified_diff::RowView;
use crate::width;
use crate::width::TAB_STOP;
use vstd::prelude::*;

verus! {

broadcast use vstd::seq::group_seq_axioms;

/// Whether no file starts among `items`.
pub open spec fn no_headers(items: Seq<ItemView>) -> bool {
    forall|i: int| 0 <= i < items.len() ==> !(#[trigger] items[i] is FileHeader)
}

/// A line without text.
pub open spec fn blank() -> LineView {
    LineView { text: Seq::empty(), gap: None }
}

// ---------------------------------------------------------------------------
// Files
// ---------------------------------------------------------------------------

proof fn lemma_next_header_same(items: Seq<ItemView>, files: Seq<ItemView>, start: int)
    requires
        0 <= start <= items.len(),
        files.len() == 0 || files[0] is FileHeader,
    ensures
        document::next_header(items + files, start) == document::next_header(items, start),
    decreases items.len() - start,
{
    let all = items + files;
    if start < items.len() {
        assert(all[start] == items[start]);
        if !(items[start] is FileHeader) {
            lemma_next_header_same(items, files, start + 1);
        }
    } else if files.len() > 0 {
        assert(all[start] == files[0]);
    }
}

proof fn lemma_next_header_moved(items: Seq<ItemView>, files: Seq<ItemView>, start: int)
    requires
        0 <= start <= files.len(),
    ensures
        document::next_header(items + files, items.len() + start) == items.len()
            + document::next_header(files, start),
    decreases files.len() - start,
{
    let all = items + files;
    if start < files.len() {
        assert(all[items.len() + start] == files[start]);
        if !(files[start] is FileHeader) {
            lemma_next_header_moved(items, files, start + 1);
        }
    }
}

proof fn lemma_lines_moved(
    rendering: Rendering,
    items: Seq<ItemView>,
    files: Seq<ItemView>,
    start: int,
    above: Seq<LineView>,
)
    requires
        0 <= start <= files.len(),
    ensures
        rendering.lines_from(items + files, items.len() + start, above) == rendering.lines_from(
            files,
            start,
            above,
        ),
    decreases files.len() - start,
{
    let all = items + files;
    let at = items.len() + start;
    if start < files.len() {
        assert(all[at] == files[start]);
        match files[start] {
            ItemView::FileHeader(path) => {
                let end = document::next_header(files, start + 1);
                document::lemma_next_header(files, start + 1);
                lemma_next_header_moved(items, files, start + 1);
                assert(all.subrange(at + 1, items.len() + end) =~= files.subrange(start + 1, end));
                lemma_lines_moved(
                    rendering,
                    items,
                    files,
                    end,
                    rendering.with_header(above, path) + rendering.section_lines(
                        path,
                        files.subrange(start + 1, end),
                    ),
                );
            },
            ItemView::Meta(line) => {
                lemma_lines_moved(
                    rendering,
                    items,
                    files,
                    start + 1,
                    above + rendering.meta_lines(line),
                );
            },
            ItemView::Hunk(_) => {
                let end = document::next_header(files, start);
                document::lemma_next_header(files, start);
                lemma_next_header_moved(items, files, start);
                assert(all.subrange(at, items.len() + end) =~= files.subrange(start, end));
                lemma_lines_moved(
                    rendering,
                    items,
                    files,
                    end,
                    above + rendering.section_lines(Seq::empty(), files.subrange(start, end)),
                );
            },
        }
    }
}

proof fn lemma_lines_go_on(
    rendering: Rendering,
    items: Seq<ItemView>,
    files: Seq<ItemView>,
    start: int,
    above: Seq<LineView>,
)
    requires
        0 <= start <= items.len(),
        files.len() == 0 || files[0] is FileHeader,
    ensures
        rendering.lines_from(items + files, start, above) == rendering.lines_from(
            files,
            0,
            rendering.lines_from(items, start, above),
        ),
    decreases items.len() - start,
{
    let all = items + files;
    if start < items.len() {
        assert(all[start] == items[start]);
        match items[start] {
            ItemView::FileHeader(path) => {
                let end = document::next_header(items, start + 1);
                document::lemma_next_header(items, start + 1);
                lemma_next_header_same(items, files, start + 1);
                assert(all.subrange(start + 1, end) =~= items.subrange(start + 1, end));
                lemma_lines_go_on(
                    rendering,
                    items,
                    files,
                    end,
                    rendering.with_header(above, path) + rendering.section_lines(
                        path,
                        items.subrange(start + 1, end),
                    ),
                );
            },
            ItemView::Meta(line) => {
                lemma_lines_go_on(
                    rendering,
                    items,
                    files,
                    start + 1,
                    above + rendering.meta_lines(line),
                );
            },
            ItemView::Hunk(_) => {
                let end = document::next_header(items, start);
                document::lemma_next_header(items, start);
                lemma_next_header_same(items, files, start);
                assert(all.subrange(start, end) =~= items.subrange(start, end));
                lemma_lines_go_on(
                    rendering,
                    items,
                    files,
                    end,
                    above + rendering.section_lines(Seq::empty(), items.subrange(start, end)),
                );
            },
        }
    } else {
        lemma_lines_moved(rendering, items, files, 0, above);
    }
}

proof fn lemma_lines_behind(
    rendering: Rendering,
    items: Seq<ItemView>,
    start: int,
    head: Seq<LineView>,
    above: Seq<LineView>,
)
    requires
        0 <= start <= items.len(),
        above.len() > 0,
    ensures
        rendering.lines_from(items, start, head + above) == head + rendering.lines_from(
            items,
            start,
            above,
        ),
    decreases items.len() - start,
{
    if start < items.len() {
        match items[start] {
            ItemView::FileHeader(path) => {
                let end = document::next_header(items, start + 1);
                document::lemma_next_header(items, start + 1);
                let section = rendering.section_lines(path, items.subrange(start + 1, end));
                let next = rendering.with_header(above, path) + section;
                assert(rendering.with_header(head + above, path) + section =~= head + next);
                lemma_lines_behind(rendering, items, end, head, next);
            },
            ItemView::Meta(line) => {
                let next = above + rendering.meta_lines(line);
                assert(head + above + rendering.meta_lines(line) =~= head + next);
                lemma_lines_behind(rendering, items, start + 1, head, next);
            },
            ItemView::Hunk(_) => {
                let end = document::next_header(items, start);
                document::lemma_next_header(items, start);
                let section = rendering.section_lines(Seq::empty(), items.subrange(start, end));
                let next = above + section;
                assert(head + above + section =~= head + next);
                lemma_lines_behind(rendering, items, end, head, next);
            },
        }
    }
}

/// Files are rendered one below the other, each as if it were alone, with a
/// blank line above each that is not at the top.
pub proof fn lemma_files_stand_below_each_other(
    rendering: Rendering,
    items: Seq<ItemView>,
    files: Seq<ItemView>,
)
    requires
        files.len() > 0,
        files[0] is FileHeader,
    ensures
        rendering.document_lines(items + files) == if rendering.document_lines(items).len() == 0 {
            rendering.document_lines(files)
        } else {
            rendering.document_lines(items) + seq![blank()] + rendering.document_lines(files)
        },
{
    let above = rendering.document_lines(items);
    lemma_lines_go_on(rendering, items, files, 0, Seq::empty());
    if above.len() > 0 {
        let path = files[0]->FileHeader_0;
        let end = document::next_header(files, 1);
        document::lemma_next_header(files, 1);
        let section = rendering.section_lines(path, files.subrange(1, end));
        let alone = rendering.with_header(Seq::empty(), path) + section;
        assert(rendering.with_header(above, path) + section =~= above + seq![blank()] + alone);
        lemma_lines_behind(rendering, files, end, above + seq![blank()], alone);
    } else {
        assert(above =~= Seq::<LineView>::empty());
    }
}

proof fn lemma_no_next_header(items: Seq<ItemView>, start: int)
    requires
        0 <= start <= items.len(),
        forall|i: int| start <= i < items.len() ==> !(#[trigger] items[i] is FileHeader),
    ensures
        document::next_header(items, start) == items.len(),
    decreases items.len() - start,
{
    if start < items.len() {
        lemma_no_next_header(items, start + 1);
    }
}

/// A file is its header and what belongs to it.
pub proof fn lemma_file_is_header_and_section(
    rendering: Rendering,
    path: Seq<char>,
    section: Seq<ItemView>,
)
    requires
        no_headers(section),
    ensures
        rendering.document_lines(seq![ItemView::FileHeader(path)] + section) == seq![
            LineView { text: cells::header_line(path), gap: None },
        ] + rendering.section_lines(path, section),
{
    let items = seq![ItemView::FileHeader(path)] + section;
    assert forall|i: int| 1 <= i < items.len() implies !(#[trigger] items[i] is FileHeader) by {
        assert(items[i] == section[i - 1]);
    }
    lemma_no_next_header(items, 1);
    assert(items.subrange(1, items.len() as int) =~= section);
    let headed = rendering.with_header(Seq::empty(), path);
    assert(headed =~= seq![LineView { text: cells::header_line(path), gap: None }]);
    let shown = headed + rendering.section_lines(path, section);
    assert(rendering.lines_from(items, items.len() as int, shown) == shown);
}

/// Hunks without a file are rendered as those of a file without a path, below
/// the lines that stand above them.
pub proof fn lemma_hunks_without_file(
    rendering: Rendering,
    line: Seq<char>,
    hunk: HunkView,
    section: Seq<ItemView>,
)
    requires
        no_headers(section),
    ensures
        rendering.document_lines(seq![ItemView::Hunk(hunk)] + section) == rendering.section_lines(
            Seq::empty(),
            seq![ItemView::Hunk(hunk)] + section,
        ),
        rendering.document_lines(seq![ItemView::Meta(line)] + section) == rendering.meta_lines(line)
            + rendering.document_lines(section),
{
    let none = Seq::<LineView>::empty();
    let items = seq![ItemView::Hunk(hunk)] + section;
    assert forall|i: int| 0 <= i < items.len() implies !(#[trigger] items[i] is FileHeader) by {
        if i > 0 {
            assert(items[i] == section[i - 1]);
        }
    }
    lemma_no_next_header(items, 0);
    assert(items.subrange(0, items.len() as int) =~= items);
    assert(none + rendering.section_lines(Seq::empty(), items) =~= rendering.section_lines(
        Seq::empty(),
        items,
    ));
    let shown = rendering.section_lines(Seq::empty(), items);
    assert(rendering.lines_from(items, items.len() as int, shown) == shown);
    let headed = seq![ItemView::Meta(line)];
    let above = none + rendering.meta_lines(line);
    assert((headed + section)[0] == ItemView::Meta(line));
    lemma_lines_moved(rendering, headed, section, 0, above);
    lemma_section_behind(rendering, section, 0, rendering.meta_lines(line));
    assert(above =~= rendering.meta_lines(line));
}

proof fn lemma_section_behind(
    rendering: Rendering,
    items: Seq<ItemView>,
    start: int,
    head: Seq<LineView>,
)
    requires
        0 <= start <= items.len(),
        no_headers(items),
    ensures
        rendering.lines_from(items, start, head) == head + rendering.lines_from(
            items,
            start,
            Seq::empty(),
        ),
    decreases items.len() - start,
{
    let none = Seq::<LineView>::empty();
    if start < items.len() {
        assert(!(items[start] is FileHeader));
        match items[start] {
            ItemView::FileHeader(path) => {},
            ItemView::Meta(line) => {
                lemma_section_behind(rendering, items, start + 1, head + rendering.meta_lines(line));
                lemma_section_behind(rendering, items, start + 1, none + rendering.meta_lines(line));
                let rest = rendering.lines_from(items, start + 1, none);
                assert(head + rendering.meta_lines(line) + rest =~= head + (none
                    + rendering.meta_lines(line) + rest));
            },
            ItemView::Hunk(_) => {
                lemma_no_next_header(items, start);
                let section = rendering.section_lines(
                    Seq::empty(),
                    items.subrange(start, items.len() as int),
                );
                let end = items.len() as int;
                assert(rendering.lines_from(items, end, head + section) == head + section);
                assert(rendering.lines_from(items, end, none + section) == none + section);
                assert(head + section =~= head + (none + section));
            },
        }
    } else {
        assert(head + none =~= head);
    }
}

// ---------------------------------------------------------------------------
// Hunks
// ---------------------------------------------------------------------------

/// The lines of a hunk stand below those of what is above it in the file, with
/// the gap between the two, if there is one, in front of them. Lines outside
/// hunks stand where they are in the diff, on wide terminals, cut to the screen.
pub proof fn lemma_hunks_stand_below_each_other(
    rendering: Rendering,
    path: Seq<char>,
    section: Seq<ItemView>,
    hunk: HunkView,
    line: Seq<char>,
)
    requires
        no_headers(section),
    ensures
        ({
            let start = gap_laws::line_behind_hunk_above(section, section.len() as int);
            let gap = GapView {
                file_path: path,
                hunk_index: gap_laws::hunks_above(section, section.len() as int),
                start_line: start,
                line_count: (hunk.new_start - start) as nat,
            };
            rendering.section_lines(path, section + seq![ItemView::Hunk(hunk)])
                == rendering.section_lines(path, section) + if hunk.new_start > start {
                rendering.gap_lines(gap) + rendering.rows_lines(hunk, hunk.rows.len(), true)
            } else {
                rendering.rows_lines(hunk, hunk.rows.len(), false)
            }
        }),
        rendering.section_lines(path, section + seq![ItemView::Meta(line)])
            == rendering.section_lines(path, section) + match rendering.format {
            Format::SideBySide { width, layout } => seq![
                LineView { text: width::clip(line, width, TAB_STOP as nat), gap: None },
            ],
            Format::Inline { number_width } => Seq::empty(),
        },
        rendering.section_lines(path, Seq::empty()) == Seq::<LineView>::empty(),
{
    let below = section + seq![ItemView::Hunk(hunk)];
    assert(below.drop_last() =~= section);
    assert(below.last() == ItemView::Hunk(hunk));
    let other = section + seq![ItemView::Meta(line)];
    assert(other.drop_last() =~= section);
    assert(other.last() == ItemView::Meta(line));
    lemma_above(section, section.len() as int);
    assert(section.subrange(0, section.len() as int) =~= section);
}

proof fn lemma_above(section: Seq<ItemView>, to: int)
    requires
        0 <= to <= section.len(),
        no_headers(section),
    ensures
        gap_laws::hunks_above(section, to) == document::hunk_count(section.subrange(0, to)),
        gaps::gap_start(document::last_hunk(section.subrange(0, to)))
            == gap_laws::line_behind_hunk_above(section, to),
    decreases to,
{
    let part = section.subrange(0, to);
    if to > 0 {
        assert(part.drop_last() =~= section.subrange(0, to - 1));
        assert(part.last() == section[to - 1]);
        assert(!(section[to - 1] is FileHeader));
        lemma_above(section, to - 1);
    }
}

/// Rows are rendered one below the other. Side by side each is one line, in
/// which its right side has the number of the hunk's first line and of the lines
/// above it on that side; in a single column its left side has such a number
/// too.
pub proof fn lemma_rows_stand_below_each_other(
    rendering: Rendering,
    hunk: HunkView,
    n: nat,
    continued: bool,
)
    requires
        n < hunk.rows.len(),
    ensures
        rendering.rows_lines(hunk, 0, continued) == Seq::<LineView>::empty(),
        ({
            let above = hunk.rows.take(n as int);
            let new_number = hunk.new_start + unified_diff::new_side(above).len();
            let old_number = hunk.old_start + unified_diff::old_side(above).len();
            let row = hunk.rows[n as int];
            rendering.rows_lines(hunk, n + 1, continued) == rendering.rows_lines(hunk, n, continued)
                + match rendering.format {
                Format::SideBySide { width, layout } => seq![
                    LineView {
                        text: side_by_side::row_line(
                            side_by_side::rendered_row(row, new_number, rendering.palette),
                            width,
                            layout,
                            rendering.palette,
                            continued && forall|i: int|
                                0 <= i < n ==> #[trigger] hunk.rows[i] is Annotation,
                        ),
                        gap: None,
                    },
                ],
                Format::Inline { number_width } => document::inline_row_lines(
                    row,
                    old_number,
                    new_number,
                    number_width,
                    rendering.palette,
                ),
            }
        }),
{
    gap_laws::lemma_numbers_count_lines(hunk, n as int);
    let above = hunk.rows.take(n as int);
    if document::only_annotations(above) {
        assert forall|i: int| 0 <= i < n implies #[trigger] hunk.rows[i] is Annotation by {
            assert(above[i] == hunk.rows[i]);
        }
    }
    if forall|i: int| 0 <= i < n ==> #[trigger] hunk.rows[i] is Annotation {
        assert forall|i: int| 0 <= i < above.len() implies #[trigger] above[i] is Annotation by {
            assert(above[i] == hunk.rows[i]);
        }
    }
}

// ---------------------------------------------------------------------------
// Gaps
// ---------------------------------------------------------------------------

/// Whether `line` is blank but for one `marker`, in column `column`.
pub open spec fn is_marker_at(line: Seq<char>, marker: char, column: int) -> bool {
    &&& 0 <= column < line.len()
    &&& line[column] == marker
    &&& forall|i: int| 0 <= i < line.len() && i != column ==> #[trigger] line[i] == ' '
}

/// A gap that is not filled is one blank line with a mark: three dots below each
/// other, or a spinner while its lines are fetched. In a single column the mark
/// stands at the end of the line numbers, side by side in the middle of them.
pub proof fn lemma_gap_is_marked(rendering: Rendering, gap: GapView)
    requires
        !(gaps::gap_state_in(rendering.gaps, gap.file_path, gap.hunk_index)
            matches Some(gaps::GapStateView::Expanded(shown))),
        rendering.format matches Format::Inline { number_width } ==> number_width > 0,
        rendering.format matches Format::SideBySide { width, layout }
            ==> layout.center_number_width > 0,
    ensures
        ({
            let marker = if gaps::gap_state_in(
                rendering.gaps,
                gap.file_path,
                gap.hunk_index,
            ) is None {
                '⋮'
            } else {
                cells::spinner(rendering.frame)
            };
            let column = match rendering.format {
                Format::Inline { number_width } => number_width - 1,
                Format::SideBySide { width, layout } => layout.left_text_width + 2 + (
                layout.center_number_width - 1) / 2,
            };
            &&& rendering.gap_lines(gap).len() == 1
            &&& is_marker_at(rendering.gap_lines(gap)[0].text, marker, column)
            &&& rendering.gap_lines(gap)[0].gap == Some(gap)
        }),
{
}

/// A gap that is filled shows its lines, from the first number of the gap on: in
/// a single column as lines that did not change, side by side as rows that did
/// not.
pub proof fn lemma_filled_gap_shows_lines(
    rendering: Rendering,
    gap: GapView,
    shown: Seq<Seq<char>>,
    i: int,
)
    requires
        gaps::gap_state_in(rendering.gaps, gap.file_path, gap.hunk_index) == Some(
            gaps::GapStateView::Expanded(shown),
        ),
        0 <= i < shown.len(),
    ensures
        rendering.gap_lines(gap).len() == shown.len(),
        rendering.gap_lines(gap)[i].gap is None,
        rendering.gap_lines(gap)[i].text == match rendering.format {
            Format::Inline { number_width } => single_column::context_line(
                gap.start_line + i as nat,
                shown[i],
                number_width,
            ),
            Format::SideBySide { width, layout } => side_by_side::row_line(
                side_by_side::rendered_row(
                    RowView::Context(shown[i]),
                    gap.start_line + i as nat,
                    rendering.palette,
                ),
                width,
                layout,
                rendering.palette,
                false,
            ),
        },
{
}

/// The state of a gap is what the first entry for its file and its hunk says;
/// a gap without an entry has none.
pub proof fn lemma_gap_state(
    entries: Seq<(gaps::GapId, gaps::GapState)>,
    path: Seq<char>,
    hunk_index: nat,
    j: int,
)
    requires
        0 <= j <= entries.len(),
        forall|i: int|
            0 <= i < j ==> (#[trigger] entries[i]).0.file_path@ != path || entries[i].0.hunk_index
                != hunk_index,
    ensures
        j < entries.len() && entries[j].0.file_path@ == path && entries[j].0.hunk_index
            == hunk_index ==> gaps::gap_state_in(entries, path, hunk_index) == Some(
            entries[j].1@,
        ),
        j == entries.len() ==> gaps::gap_state_in(entries, path, hunk_index) is None,
    decreases j,
{
    if j > 0 {
        let rest = entries.drop_first();
        assert(entries[0].0.file_path@ != path || entries[0].0.hunk_index != hunk_index);
        assert forall|i: int| 0 <= i < j - 1 implies (#[trigger] rest[i]).0.file_path@ != path
            || rest[i].0.hunk_index != hunk_index by {
            assert(rest[i] == entries[i + 1]);
        }
        lemma_gap_state(rest, path, hunk_index, j - 1);
        if j < entries.len() {
            assert(rest[j - 1] == entries[j]);
        }
    }
}

// ---------------------------------------------------------------------------
// Columns
// ---------------------------------------------------------------------------

/// Side by side all columns of the screen are used: those of the two sides, of
/// the line numbers and of the two gaps between them are as many as the screen
/// has, and the sides are as wide as each other but for one column. The right
/// side is rendered as far as its widest text, and the line numbers have four
/// columns at least.
pub proof fn lemma_columns_of_layout(
    items: Seq<ItemView>,
    width: nat,
    layout: Layout,
    panes: PaneLayout,
)
    requires
        layout::is_layout(layout, items, width),
        layout::is_pane_layout(panes, items, width),
    ensures
        width >= layout.center_number_width + 4 ==> layout.left_text_width + 2
            + layout.center_number_width + 2 + layout.right_visible_width == width,
        width <= layout.center_number_width + 4 ==> layout.left_text_width == 0
            && layout.right_visible_width == 0,
        layout.right_visible_width == layout.left_text_width || layout.right_visible_width
            == layout.left_text_width + 1,
        layout.right_render_width >= layout.right_visible_width,
        layout.center_number_width >= 4,
        width > 120 ==> panes.left_end == layout.left_text_width && panes.right_start
            == layout.left_text_width + 2 + layout.center_number_width + 2 && panes.content_start
            == 0,
        width <= 120 ==> panes.left_end == 0 && panes.right_start == 0 && panes.content_start
            == layout::inline_width(items) + 2,
{
    layout::lemma_layout_is_unique(items, width);
}

/// The last number on the right of a hunk, or its first if it has no lines there.
pub open spec fn last_right_number(hunk: HunkView) -> nat {
    let count = unified_diff::new_side(hunk.rows).len();
    if count == 0 {
        hunk.new_start
    } else {
        (hunk.new_start + count - 1) as nat
    }
}

/// Whether `number` is one that a hunk of `items` shows in a single column, or
/// the number that a side of one starts with.
pub open spec fn is_inline_number(hunk: HunkView, number: nat) -> bool {
    ||| number == hunk.old_start
    ||| number == hunk.new_start
    ||| exists|i: int|
        0 <= i < hunk.rows.len() && match #[trigger] hunk.rows[i] {
            RowView::Context(_) | RowView::Insert(_) => number == layout::new_number(hunk, i),
            RowView::Delete(_) => number == layout::old_number(hunk, i),
            RowView::Change { old, new } => number == layout::new_number(hunk, i) || number
                == layout::old_number(hunk, i),
            RowView::Annotation(_) => false,
        }
}

proof fn lemma_largest_new(items: Seq<ItemView>)
    ensures
        layout::largest_new_in(items) == 0 || exists|k: int|
            0 <= k < items.len() && (#[trigger] items[k] matches ItemView::Hunk(hunk)
                && layout::largest_new_in(items) == last_right_number(hunk)),
    decreases items.len(),
{
    if items.len() > 0 {
        let fewer = items.drop_last();
        lemma_largest_new(fewer);
        let largest = layout::largest_new_in(items);
        match items.last() {
            ItemView::Hunk(hunk) if layout::largest_new_number(hunk) > layout::largest_new_in(
                fewer,
            ) => {
                gap_laws::lemma_numbers_count_lines(hunk, hunk.rows.len() as int);
                assert(hunk.rows.take(hunk.rows.len() as int) =~= hunk.rows);
                assert(items[items.len() - 1] == ItemView::Hunk(hunk));
            },
            _ => {
                if largest > 0 {
                    let k = choose|k: int|
                        0 <= k < fewer.len() && (#[trigger] fewer[k] matches ItemView::Hunk(hunk)
                            && layout::largest_new_in(fewer) == last_right_number(hunk));
                    assert(items[k] == fewer[k]);
                }
            },
        }
    }
}

proof fn lemma_largest_inline_of(hunk: HunkView, n: nat)
    requires
        n <= hunk.rows.len(),
    ensures
        is_inline_number(hunk, layout::largest_inline_number(hunk, n)),
    decreases n,
{
    if n > 0 {
        lemma_largest_inline_of(hunk, (n - 1) as nat);
        let row = hunk.rows[n - 1];
        if layout::largest_inline_number(hunk, n) != layout::largest_inline_number(
            hunk,
            (n - 1) as nat,
        ) {
            assert(hunk.rows[n - 1] == row);
        }
    }
}

proof fn lemma_largest_inline(items: Seq<ItemView>)
    ensures
        layout::largest_inline_in(items) == 0 || exists|k: int|
            0 <= k < items.len() && (#[trigger] items[k] matches ItemView::Hunk(hunk)
                && is_inline_number(hunk, layout::largest_inline_in(items))),
    decreases items.len(),
{
    if items.len() > 0 {
        let fewer = items.drop_last();
        lemma_largest_inline(fewer);
        let largest = layout::largest_inline_in(items);
        match items.last() {
            ItemView::Hunk(hunk) if layout::largest_inline_number(hunk, hunk.rows.len())
                > layout::largest_inline_in(fewer) => {
                lemma_largest_inline_of(hunk, hunk.rows.len());
                assert(items[items.len() - 1] == ItemView::Hunk(hunk));
            },
            _ => {
                if largest > 0 {
                    let k = choose|k: int|
                        0 <= k < fewer.len() && (#[trigger] fewer[k] matches ItemView::Hunk(hunk)
                            && is_inline_number(hunk, layout::largest_inline_in(fewer)));
                    assert(items[k] == fewer[k]);
                }
            },
        }
    }
}

/// Line numbers get no more columns than they need: four, or as many as a number
/// has digits that is shown, or that a hunk starts with. In a single column the
/// same holds of the numbers that are shown there.
pub proof fn lemma_number_columns_are_needed(items: Seq<ItemView>, width: nat, layout: Layout)
    requires
        layout::is_layout(layout, items, width),
    ensures
        layout.center_number_width == 4 || exists|k: int|
            0 <= k < items.len() && (#[trigger] items[k] matches ItemView::Hunk(hunk)
                && layout.center_number_width == text::decimal(last_right_number(hunk)).len()),
        layout::inline_width(items) == 4 || exists|k: int, number: nat|
            #![trigger items[k], text::decimal(number)]
            0 <= k < items.len() && (items[k] matches ItemView::Hunk(hunk) && is_inline_number(
                hunk,
                number,
            ) && layout::inline_width(items) == text::decimal(number).len()),
        layout::inline_width(items) >= 4,
{
    lemma_largest_new(items);
    lemma_largest_inline(items);
    assert(text::decimal(0).len() == 1);
    let largest = layout::largest_inline_in(items);
    if layout::inline_width(items) != 4 {
        let k = choose|k: int|
            0 <= k < items.len() && (#[trigger] items[k] matches ItemView::Hunk(hunk)
                && is_inline_number(hunk, largest));
        assert(items[k] is Hunk && text::decimal(largest).len() == layout::inline_width(items));
    }
}

proof fn lemma_widest_row(rows: Seq<RowView>)
    ensures
        layout::widest_right(rows) == 0 || exists|i: int|
            0 <= i < rows.len() && layout::right_columns(#[trigger] rows[i])
                == layout::widest_right(rows),
    decreases rows.len(),
{
    if rows.len() > 0 {
        let fewer = rows.drop_last();
        lemma_widest_row(fewer);
        if layout::right_columns(rows.last()) > layout::widest_right(fewer) {
            assert(layout::right_columns(rows[rows.len() - 1]) == layout::widest_right(rows));
        } else if layout::widest_right(rows) > 0 {
            let i = choose|i: int|
                0 <= i < fewer.len() && layout::right_columns(#[trigger] fewer[i])
                    == layout::widest_right(fewer);
            assert(rows[i] == fewer[i]);
        }
    }
}

/// The columns of the text on the right of a row.
pub open spec fn columns_on_right(row: RowView) -> nat {
    match row {
        RowView::Context(line) => width::columns(cells::expanded(line), TAB_STOP as nat),
        RowView::Insert(line) => width::columns(cells::expanded(line), TAB_STOP as nat),
        RowView::Change { old, new } => width::columns(cells::expanded(new), TAB_STOP as nat),
        RowView::Delete(_) => 0,
        RowView::Annotation(_) => 0,
    }
}

/// Whether some row of a hunk of `items` has a text of `columns` columns on the
/// right.
pub open spec fn is_as_wide(items: Seq<ItemView>, columns: nat) -> bool {
    exists|k: int, i: int|
        #![trigger items[k]->Hunk_0.rows[i]]
        0 <= k < items.len() && items[k] is Hunk && 0 <= i < items[k]->Hunk_0.rows.len()
            && columns_on_right(items[k]->Hunk_0.rows[i]) == columns
}

proof fn lemma_widest_in(items: Seq<ItemView>)
    ensures
        layout::widest_right_in(items) == 0 || is_as_wide(items, layout::widest_right_in(items)),
    decreases items.len(),
{
    if items.len() > 0 {
        let fewer = items.drop_last();
        lemma_widest_in(fewer);
        let widest = layout::widest_right_in(items);
        match items.last() {
            ItemView::Hunk(hunk) if layout::widest_right(hunk.rows) > layout::widest_right_in(
                fewer,
            ) => {
                lemma_widest_row(hunk.rows);
                let i = choose|i: int|
                    0 <= i < hunk.rows.len() && layout::right_columns(#[trigger] hunk.rows[i])
                        == layout::widest_right(hunk.rows);
                let k = items.len() - 1;
                assert(columns_on_right(items[k]->Hunk_0.rows[i]) == widest);
            },
            _ => {
                if widest > 0 {
                    let (k, i) = choose|k: int, i: int|
                        #![trigger fewer[k]->Hunk_0.rows[i]]
                        0 <= k < fewer.len() && fewer[k] is Hunk && 0 <= i
                            < fewer[k]->Hunk_0.rows.len() && columns_on_right(
                            fewer[k]->Hunk_0.rows[i],
                        ) == widest;
                    assert(items[k] == fewer[k]);
                    assert(columns_on_right(items[k]->Hunk_0.rows[i]) == widest);
                }
            },
        }
    }
}

/// The right side is rendered no further than it has to be: as far as the
/// screen, or as far as the widest text on the right.
pub proof fn lemma_right_side_is_no_wider(items: Seq<ItemView>, width: nat, layout: Layout)
    requires
        layout::is_layout(layout, items, width),
    ensures
        layout.right_render_width == layout.right_visible_width || is_as_wide(
            items,
            layout.right_render_width as nat,
        ),
{
    lemma_widest_in(items);
}

// ---------------------------------------------------------------------------
// Pieces
// ---------------------------------------------------------------------------

/// Spinners have four frames, of which two look the same, over and over.
pub proof fn lemma_spinner(frame: nat)
    ensures
        cells::spinner(frame + 4) == cells::spinner(frame),
        cells::spinner(4 * frame) == '⠁',
        cells::spinner(4 * frame + 1) == '⠂',
        cells::spinner(4 * frame + 2) == '⠄',
        cells::spinner(4 * frame + 3) == '⠂',
{
}

/// The texts of rendered lines are those of each line, in their order.
pub proof fn lemma_line_texts(list: Seq<LineView>)
    ensures
        lines::line_texts(list).len() == list.len(),
        forall|i: int| 0 <= i < list.len() ==> #[trigger] lines::line_texts(list)[i] == list[i].text,
{
}

/// The label of a line number is the number, and that of none is empty.
pub proof fn lemma_number_label(number: nat)
    ensures
        cells::number_label(Some(number)) == text::decimal(number),
        cells::number_label(None).len() == 0,
{
}

/// The code of a foreground is that of the same background, but for one digit.
pub proof fn lemma_foreground_code(color: AnsiColor)
    ensures
        cells::fg_code(color).len() == cells::bg_code(color).len(),
        cells::fg_code(color)[2] == '3',
        cells::bg_code(color)[2] == '4',
        forall|i: int|
            0 <= i < cells::fg_code(color).len() && i != 2 ==> #[trigger] cells::fg_code(color)[i]
                == cells::bg_code(color)[i],
{
    reveal_strlit("\u{1b}[48;5;");
    reveal_strlit("\u{1b}[38;5;");
    reveal_strlit("\u{1b}[48;2;");
    reveal_strlit("\u{1b}[38;2;");
}

/// A text on a background is that text between the code of the background and a
/// reset, cut to its columns; without a background it is the text alone, and of
/// an empty text there is nothing.
pub proof fn lemma_styled_cell(line: Seq<char>, color: AnsiColor, width: nat)
    ensures
        cells::styled_cell(line, None, width) == width::clip(line, width, TAB_STOP as nat),
        ({
            let kept = width::clip(line, width, TAB_STOP as nat);
            cells::styled_cell(line, Some(color), width) == if kept.len() == 0 {
                kept
            } else {
                cells::bg_code(color) + kept + seq!['\u{1b}', '[', '0', 'm']
            }
        }),
{
    reveal_strlit("\u{1b}[0m");
    assert("\u{1b}[0m"@ =~= seq!['\u{1b}', '[', '0', 'm']);
    let kept = width::clip(line, width, TAB_STOP as nat);
    if kept.len() == 0 {
        assert(cells::styled_cell(line, Some(color), width) =~= kept);
        assert(cells::styled_cell(line, None, width) =~= kept);
    }
}

} // verus!
