//! How the columns of the terminal are shared out.

use super::cells;
use super::cells::digit_count;
use super::cells::MIN_LINE_NUMBER_WIDTH;
use super::cells::PANE_GAP;
use crate::text;
use crate::unified_diff::Document;
use crate::unified_diff::Hunk;
use crate::unified_diff::HunkView;
use crate::unified_diff::Item;
use crate::unified_diff::ItemView;
use crate::unified_diff::Row;
use crate::unified_diff::RowView;
use crate::width;
use crate::width::expand_tabs;
use crate::width::text_columns;
use crate::width::TAB_STOP;
use vstd::prelude::*;

verus! {

broadcast use vstd::seq::group_seq_axioms;

/// The widest terminal that gets a single column.
pub const THRESHOLD_WIDTH: usize = 120;

/// Whether the sides stand next to each other, and on how many columns.
#[derive(Clone, Copy, Debug, Eq, PartialEq, Structural)]
pub struct RenderMode {
    pub side_by_side: bool,
    pub width: usize,
}

impl RenderMode {
    /// The mode for a terminal of `columns` columns, if it could be measured;
    /// without a terminal there is a single column and no width.
    pub fn detect(stdout_is_terminal: bool, columns: Option<u16>) -> (mode: RenderMode)
        ensures
            !stdout_is_terminal ==> mode == (RenderMode { side_by_side: false, width: 0 }),
            stdout_is_terminal ==> mode.width == match columns {
                Some(columns) => columns as int,
                None => 0,
            },
            stdout_is_terminal ==> mode.side_by_side == wide(mode.width as nat),
    {
        if !stdout_is_terminal {
            return RenderMode { side_by_side: false, width: 0 };
        }
        let width: usize = match columns {
            Some(columns) => columns as usize,
            None => 0,
        };
        RenderMode { side_by_side: should_render_side_by_side(width), width }
    }
}

/// Whether a terminal of `width` columns has room for both sides.
pub open spec fn wide(width: nat) -> bool {
    width > THRESHOLD_WIDTH
}

/// Whether a terminal of `width` columns has room for both sides.
pub fn should_render_side_by_side(width: usize) -> (side_by_side: bool)
    ensures
        side_by_side == wide(width as nat),
{
    width > THRESHOLD_WIDTH
}

/// Where the panes of a rendered line start and end.
#[derive(Clone, Copy, Debug, Eq, PartialEq, Structural)]
pub struct PaneLayout {
    pub left_end: usize,
    pub right_start: usize,
    pub content_start: usize,
}

impl Default for PaneLayout {
    fn default() -> (layout: Self)
        ensures
            layout == (PaneLayout { left_end: 0, right_start: 0, content_start: 0 }),
    {
        PaneLayout { left_end: 0, right_start: 0, content_start: 0 }
    }
}

/// The columns of a line that shows both sides.
#[derive(Clone, Copy, Debug, Eq, PartialEq, Structural)]
pub struct Layout {
    pub center_number_width: usize,
    pub left_text_width: usize,
    /// The columns of the right side that are on the screen.
    pub right_visible_width: usize,
    /// The columns that the right side is rendered to.
    pub right_render_width: usize,
}

// ---------------------------------------------------------------------------
// Line numbers
// ---------------------------------------------------------------------------

/// Whether a row has a line on the left.
pub open spec fn has_left(row: RowView) -> bool {
    row is Context || row is Delete || row is Change
}

/// Whether a row has a line on the right.
pub open spec fn has_right(row: RowView) -> bool {
    row is Context || row is Insert || row is Change
}

/// The number of rows that have a line on the left.
pub open spec fn left_lines(rows: Seq<RowView>) -> nat
    decreases rows.len(),
{
    if rows.len() == 0 {
        0
    } else {
        left_lines(rows.drop_last()) + if has_left(rows.last()) {
            1nat
        } else {
            0nat
        }
    }
}

/// The number of rows that have a line on the right.
pub open spec fn right_lines(rows: Seq<RowView>) -> nat
    decreases rows.len(),
{
    if rows.len() == 0 {
        0
    } else {
        right_lines(rows.drop_last()) + if has_right(rows.last()) {
            1nat
        } else {
            0nat
        }
    }
}

/// The line number on the left that row `index` of `hunk` has, or would have.
pub open spec fn old_number(hunk: HunkView, index: int) -> nat {
    hunk.old_start + left_lines(hunk.rows.take(index))
}

/// The line number on the right that row `index` of `hunk` has, or would have.
pub open spec fn new_number(hunk: HunkView, index: int) -> nat {
    hunk.new_start + right_lines(hunk.rows.take(index))
}

/// The larger of two numbers.
pub open spec fn larger(a: nat, b: nat) -> nat {
    if a >= b {
        a
    } else {
        b
    }
}

/// The largest line number that the first `n` rows of `hunk` show in a single
/// column, or the first of the hunk: a deleted line shows its number on the
/// left, an unchanged or inserted one that on the right, a changed one both.
pub open spec fn largest_inline_number(hunk: HunkView, n: nat) -> nat
    decreases n,
{
    if n == 0 {
        larger(hunk.old_start, hunk.new_start)
    } else {
        let before = largest_inline_number(hunk, (n - 1) as nat);
        match hunk.rows[n - 1] {
            RowView::Context(_) | RowView::Insert(_) => larger(before, new_number(hunk, n - 1)),
            RowView::Delete(_) => larger(before, old_number(hunk, n - 1)),
            RowView::Change { old, new } => larger(
                larger(before, old_number(hunk, n - 1)),
                new_number(hunk, n - 1),
            ),
            RowView::Annotation(_) => before,
        }
    }
}

/// The largest line number on the right of `hunk`: that of its last line
/// there, or of its first if there is none.
pub open spec fn largest_new_number(hunk: HunkView) -> nat {
    let count = right_lines(hunk.rows);
    if count == 0 {
        hunk.new_start
    } else {
        (hunk.new_start + count - 1) as nat
    }
}

/// The columns that the text of a row takes on the right.
pub open spec fn right_columns(row: RowView) -> nat {
    match row {
        RowView::Context(line) | RowView::Insert(line) => cells::shown_columns(cells::expanded(line)),
        RowView::Change { old, new } => cells::shown_columns(cells::expanded(new)),
        RowView::Delete(_) | RowView::Annotation(_) => 0,
    }
}

/// The columns of the widest text on the right of `rows`.
pub open spec fn widest_right(rows: Seq<RowView>) -> nat
    decreases rows.len(),
{
    if rows.len() == 0 {
        0
    } else {
        larger(widest_right(rows.drop_last()), right_columns(rows.last()))
    }
}

/// The largest number that the hunks of `items` show in a single column.
pub open spec fn largest_inline_in(items: Seq<ItemView>) -> nat
    decreases items.len(),
{
    if items.len() == 0 {
        0
    } else {
        let before = largest_inline_in(items.drop_last());
        match items.last() {
            ItemView::Hunk(hunk) => larger(before, largest_inline_number(hunk, hunk.rows.len())),
            _ => before,
        }
    }
}

/// The largest number on the right of the hunks of `items`.
pub open spec fn largest_new_in(items: Seq<ItemView>) -> nat
    decreases items.len(),
{
    if items.len() == 0 {
        0
    } else {
        let before = largest_new_in(items.drop_last());
        match items.last() {
            ItemView::Hunk(hunk) => larger(before, largest_new_number(hunk)),
            _ => before,
        }
    }
}

/// The columns of the widest text on the right of the hunks of `items`.
pub open spec fn widest_right_in(items: Seq<ItemView>) -> nat
    decreases items.len(),
{
    if items.len() == 0 {
        0
    } else {
        let before = widest_right_in(items.drop_last());
        match items.last() {
            ItemView::Hunk(hunk) => larger(before, widest_right(hunk.rows)),
            _ => before,
        }
    }
}

/// The columns that line numbers up to `largest` get.
pub open spec fn number_width(largest: nat) -> nat {
    larger(MIN_LINE_NUMBER_WIDTH as nat, text::decimal(largest).len())
}

// ---------------------------------------------------------------------------
// What can be counted
// ---------------------------------------------------------------------------

/// Whether the columns of all texts of a row can be counted.
pub open spec fn row_fits(row: RowView) -> bool {
    match row {
        RowView::Context(line) | RowView::Delete(line) | RowView::Insert(line)
        | RowView::Annotation(line) => width::fits_columns(line),
        RowView::Change { old, new } => width::fits_columns(old) && width::fits_columns(new),
    }
}

/// Whether the line numbers and the columns of a hunk can be counted.
pub open spec fn hunk_fits(hunk: HunkView) -> bool {
    &&& hunk.old_start + left_lines(hunk.rows) <= usize::MAX
    &&& hunk.new_start + right_lines(hunk.rows) <= usize::MAX
    &&& hunk.new_start + hunk.new_len <= usize::MAX
    &&& forall|i: int| 0 <= i < hunk.rows.len() ==> row_fits(#[trigger] hunk.rows[i])
}

/// Whether the line numbers and the columns of an item can be counted.
pub open spec fn item_fits(item: ItemView) -> bool {
    match item {
        ItemView::FileHeader(_) => true,
        ItemView::Meta(line) => width::fits_columns(line),
        ItemView::Hunk(hunk) => hunk_fits(hunk),
    }
}

/// Whether the line numbers and the columns of all of `items` can be counted.
pub open spec fn items_fit(items: Seq<ItemView>) -> bool {
    forall|i: int| 0 <= i < items.len() ==> item_fits(#[trigger] items[i])
}

proof fn lemma_left_lines_prefix(rows: Seq<RowView>, n: int)
    requires
        0 <= n <= rows.len(),
    ensures
        left_lines(rows.take(n)) <= left_lines(rows),
        right_lines(rows.take(n)) <= right_lines(rows),
    decreases rows.len(),
{
    if n < rows.len() {
        assert(rows.take(n) =~= rows.drop_last().take(n));
        lemma_left_lines_prefix(rows.drop_last(), n);
    } else {
        assert(rows.take(n) =~= rows);
    }
}

/// The line numbers of the rows of a hunk that fits are within range, and each
/// row moves them on by the lines that it has.
pub proof fn lemma_numbers(hunk: HunkView, index: int)
    requires
        0 <= index < hunk.rows.len(),
    ensures
        old_number(hunk, index + 1) == old_number(hunk, index) + if has_left(hunk.rows[index]) {
            1int
        } else {
            0int
        },
        new_number(hunk, index + 1) == new_number(hunk, index) + if has_right(hunk.rows[index]) {
            1int
        } else {
            0int
        },
        old_number(hunk, index + 1) <= hunk.old_start + left_lines(hunk.rows),
        new_number(hunk, index + 1) <= hunk.new_start + right_lines(hunk.rows),
{
    let next = hunk.rows.take(index + 1);
    assert(next.drop_last() =~= hunk.rows.take(index));
    lemma_left_lines_prefix(hunk.rows, index + 1);
}

/// Whether the columns of `text` can be counted.
pub fn text_fits(text: &str) -> (fits: bool)
    ensures
        fits == width::fits_columns(text@),
{
    let count = text::char_list(text).len();
    count <= usize::MAX / TAB_STOP
}

/// Whether the columns of all texts of `row` can be counted.
fn check_row(row: &Row) -> (fits: bool)
    ensures
        fits == row_fits(row@),
{
    match row {
        Row::Context(line) => text_fits(line.as_str()),
        Row::Delete(line) => text_fits(line.as_str()),
        Row::Insert(line) => text_fits(line.as_str()),
        Row::Annotation(line) => text_fits(line.as_str()),
        Row::Change { old, new } => text_fits(old.as_str()) && text_fits(new.as_str()),
    }
}

/// Whether the line numbers and the columns of `hunk` can be counted.
fn check_hunk(hunk: &Hunk) -> (fits: bool)
    ensures
        fits == hunk_fits(hunk@),
{
    if hunk.new_len > usize::MAX - hunk.new_start {
        return false;
    }
    let mut left: usize = 0;
    let mut right: usize = 0;
    let mut index: usize = 0;
    while index < hunk.rows.len()
        invariant
            index <= hunk.rows@.len(),
            left <= index,
            right <= index,
            left == left_lines(hunk@.rows.take(index as int)),
            right == right_lines(hunk@.rows.take(index as int)),
            forall|i: int| 0 <= i < index ==> row_fits(#[trigger] hunk@.rows[i]),
        decreases hunk.rows@.len() - index,
    {
        assert(hunk@.rows.take(index + 1).drop_last() =~= hunk@.rows.take(index as int));
        let row = &hunk.rows[index];
        assert(row@ == hunk@.rows[index as int]);
        if !check_row(row) {
            return false;
        }
        match row {
            Row::Context(_) => {
                left += 1;
                right += 1;
            },
            Row::Delete(_) => {
                left += 1;
            },
            Row::Insert(_) => {
                right += 1;
            },
            Row::Change { old: _, new: _ } => {
                left += 1;
                right += 1;
            },
            Row::Annotation(_) => {},
        }
        index += 1;
    }
    assert(hunk@.rows.take(index as int) =~= hunk@.rows);
    left <= usize::MAX - hunk.old_start && right <= usize::MAX - hunk.new_start
}

/// Whether the line numbers and the columns of all of `document` can be
/// counted, so that it can be rendered.
pub fn document_fits(document: &Document) -> (fits: bool)
    ensures
        fits == items_fit(document@),
{
    let mut index: usize = 0;
    while index < document.items.len()
        invariant
            index <= document.items@.len(),
            forall|i: int| 0 <= i < index ==> item_fits(#[trigger] document@[i]),
        decreases document.items@.len() - index,
    {
        assert(document@[index as int] == document.items@[index as int]@);
        let fits = match &document.items[index] {
            Item::FileHeader(_) => true,
            Item::Meta(line) => text_fits(line.as_str()),
            Item::Hunk(hunk) => check_hunk(hunk),
        };
        if !fits {
            return false;
        }
        index += 1;
    }
    true
}

// ---------------------------------------------------------------------------
// Layouts
// ---------------------------------------------------------------------------

/// The layout of a document on `width` columns, as `Layout` has it: the text
/// of the right side is rendered to its full width, so that none of it is lost
/// when the pager scrolls.
pub open spec fn is_layout(layout: Layout, items: Seq<ItemView>, width: nat) -> bool {
    let reserved = number_width(largest_new_in(items)) + 2 * PANE_GAP;
    let text_space: int = if width <= reserved {
        0
    } else {
        width - reserved
    };
    &&& layout.center_number_width == number_width(largest_new_in(items))
    &&& layout.left_text_width == text_space / 2
    &&& layout.right_visible_width == text_space - text_space / 2
    &&& layout.right_render_width == larger(
        layout.right_visible_width as nat,
        widest_right_in(items),
    )
}

/// The columns of line numbers in a single column.
pub open spec fn inline_width(items: Seq<ItemView>) -> nat {
    number_width(largest_inline_in(items))
}

/// The panes of a document on `width` columns.
pub open spec fn is_pane_layout(panes: PaneLayout, items: Seq<ItemView>, width: nat) -> bool {
    if wide(width) {
        exists|layout: Layout| #[trigger]
            is_layout(layout, items, width) && panes.left_end == layout.left_text_width
                && panes.right_start == layout.left_text_width + layout.center_number_width + 2
                * PANE_GAP && panes.content_start == 0
    } else {
        panes.left_end == 0 && panes.right_start == 0 && panes.content_start == inline_width(items)
            + 2
    }
}

/// A document has one layout and one set of panes on a given width.
pub proof fn lemma_layout_is_unique(items: Seq<ItemView>, width: nat)
    ensures
        forall|a: Layout, b: Layout| #[trigger]
            is_layout(a, items, width) && #[trigger] is_layout(b, items, width) ==> a == b,
        forall|a: PaneLayout, b: PaneLayout| #[trigger]
            is_pane_layout(a, items, width) && #[trigger] is_pane_layout(b, items, width) ==> a
                == b,
{
}

/// The largest line number that `hunk` shows in a single column.
fn max_inline_hunk_line(hunk: &Hunk) -> (line: usize)
    requires
        hunk_fits(hunk@),
    ensures
        line == largest_inline_number(hunk@, hunk@.rows.len()),
{
    let mut old_line: usize = hunk.old_start;
    let mut new_line: usize = hunk.new_start;
    let mut max_line: usize = if old_line >= new_line {
        old_line
    } else {
        new_line
    };
    let mut index: usize = 0;
    assert(hunk@.rows.take(0) =~= Seq::<RowView>::empty());
    while index < hunk.rows.len()
        invariant
            index <= hunk.rows@.len(),
            hunk_fits(hunk@),
            old_line == old_number(hunk@, index as int),
            new_line == new_number(hunk@, index as int),
            max_line == largest_inline_number(hunk@, index as nat),
        decreases hunk.rows@.len() - index,
    {
        proof {
            lemma_numbers(hunk@, index as int);
        }
        let row = &hunk.rows[index];
        assert(row@ == hunk@.rows[index as int]);
        match row {
            Row::Context(_) => {
                if new_line > max_line {
                    max_line = new_line;
                }
                old_line += 1;
                new_line += 1;
            },
            Row::Delete(_) => {
                if old_line > max_line {
                    max_line = old_line;
                }
                old_line += 1;
            },
            Row::Insert(_) => {
                if new_line > max_line {
                    max_line = new_line;
                }
                new_line += 1;
            },
            Row::Change { old: _, new: _ } => {
                if old_line > max_line {
                    max_line = old_line;
                }
                if new_line > max_line {
                    max_line = new_line;
                }
                old_line += 1;
                new_line += 1;
            },
            Row::Annotation(_) => {},
        }
        index += 1;
    }
    max_line
}

/// The largest line number on the right of `hunk`.
fn max_hunk_new_line(hunk: &Hunk) -> (line: usize)
    requires
        hunk_fits(hunk@),
    ensures
        line == largest_new_number(hunk@),
{
    let mut new_line: usize = hunk.new_start;
    let mut max_line: usize = new_line;
    let mut index: usize = 0;
    assert(hunk@.rows.take(0) =~= Seq::<RowView>::empty());
    while index < hunk.rows.len()
        invariant
            index <= hunk.rows@.len(),
            hunk_fits(hunk@),
            new_line == new_number(hunk@, index as int),
            max_line == if new_line == hunk.new_start {
                new_line
            } else {
                (new_line - 1) as usize
            },
            new_line >= hunk.new_start,
        decreases hunk.rows@.len() - index,
    {
        proof {
            lemma_numbers(hunk@, index as int);
        }
        let row = &hunk.rows[index];
        assert(row@ == hunk@.rows[index as int]);
        let right = match row {
            Row::Context(_) => true,
            Row::Insert(_) => true,
            Row::Change { old: _, new: _ } => true,
            Row::Delete(_) => false,
            Row::Annotation(_) => false,
        };
        if right {
            if new_line > max_line {
                max_line = new_line;
            }
            new_line += 1;
        }
        index += 1;
    }
    assert(hunk@.rows.take(index as int) =~= hunk@.rows);
    max_line
}

/// The columns of `text` with its tabs expanded.
fn expanded_width(text: &str) -> (columns: usize)
    requires
        width::fits_columns(text@),
    ensures
        columns == cells::shown_columns(cells::expanded(text@)),
{
    let line = expand_tabs(text);
    proof {
        width::lemma_expand_tabs(text@, 0);
        width::lemma_columns_without_tabs(line@, 0, TAB_STOP as nat);
    }
    text_columns(line.as_str(), 0)
}

/// The columns of the widest text on the right of `hunk`.
fn max_hunk_right_render_width(hunk: &Hunk) -> (columns: usize)
    requires
        hunk_fits(hunk@),
    ensures
        columns == widest_right(hunk@.rows),
{
    let mut widest: usize = 0;
    let mut index: usize = 0;
    assert(hunk@.rows.take(0) =~= Seq::<RowView>::empty());
    while index < hunk.rows.len()
        invariant
            index <= hunk.rows@.len(),
            hunk_fits(hunk@),
            widest == widest_right(hunk@.rows.take(index as int)),
        decreases hunk.rows@.len() - index,
    {
        assert(hunk@.rows.take(index + 1).drop_last() =~= hunk@.rows.take(index as int));
        let row = &hunk.rows[index];
        assert(row@ == hunk@.rows[index as int]);
        let columns: usize = match row {
            Row::Context(line) => expanded_width(line.as_str()),
            Row::Insert(line) => expanded_width(line.as_str()),
            Row::Change { old: _, new } => expanded_width(new.as_str()),
            Row::Delete(_) => 0,
            Row::Annotation(_) => 0,
        };
        if columns > widest {
            widest = columns;
        }
        index += 1;
    }
    assert(hunk@.rows.take(index as int) =~= hunk@.rows);
    widest
}

/// The columns of the widest text on the right of `document`.
fn max_right_render_width(document: &Document) -> (columns: usize)
    requires
        items_fit(document@),
    ensures
        columns == widest_right_in(document@),
{
    let mut widest: usize = 0;
    let mut index: usize = 0;
    assert(document@.take(0) =~= Seq::<ItemView>::empty());
    while index < document.items.len()
        invariant
            index <= document.items@.len(),
            items_fit(document@),
            widest == widest_right_in(document@.take(index as int)),
        decreases document.items@.len() - index,
    {
        assert(document@.take(index + 1).drop_last() =~= document@.take(index as int));
        assert(document@[index as int] == document.items@[index as int]@);
        match &document.items[index] {
            Item::Hunk(hunk) => {
                let columns = max_hunk_right_render_width(hunk);
                if columns > widest {
                    widest = columns;
                }
            },
            _ => {},
        }
        index += 1;
    }
    assert(document@.take(index as int) =~= document@);
    widest
}

/// The layout of `document` on `width` columns.
pub fn layout_for(document: &Document, width: usize) -> (layout: Layout)
    requires
        items_fit(document@),
    ensures
        is_layout(layout, document@, width as nat),
        4 <= layout.center_number_width <= 20,
{
    let mut max_right_line: usize = 0;
    let mut index: usize = 0;
    assert(document@.take(0) =~= Seq::<ItemView>::empty());
    while index < document.items.len()
        invariant
            index <= document.items@.len(),
            items_fit(document@),
            max_right_line == largest_new_in(document@.take(index as int)),
        decreases document.items@.len() - index,
    {
        assert(document@.take(index + 1).drop_last() =~= document@.take(index as int));
        assert(document@[index as int] == document.items@[index as int]@);
        match &document.items[index] {
            Item::Hunk(hunk) => {
                let line = max_hunk_new_line(hunk);
                if line > max_right_line {
                    max_right_line = line;
                }
            },
            _ => {},
        }
        index += 1;
    }
    assert(document@.take(index as int) =~= document@);
    let digits = digit_count(max_right_line);
    let center_number_width: usize = if digits > MIN_LINE_NUMBER_WIDTH {
        digits
    } else {
        MIN_LINE_NUMBER_WIDTH
    };
    let reserved: usize = center_number_width + PANE_GAP * 2;
    let text_space: usize = width.saturating_sub(reserved);
    let left_text_width: usize = text_space / 2;
    let right_visible_width: usize = text_space - left_text_width;
    let widest = max_right_render_width(document);
    let right_render_width: usize = if widest > right_visible_width {
        widest
    } else {
        right_visible_width
    };
    Layout { center_number_width, left_text_width, right_visible_width, right_render_width }
}

/// The columns of the line numbers of `document` in a single column.
pub fn inline_line_number_width(document: &Document) -> (columns: usize)
    requires
        items_fit(document@),
    ensures
        columns == inline_width(document@),
        4 <= columns <= 20,
{
    let mut max_line: usize = 0;
    let mut index: usize = 0;
    assert(document@.take(0) =~= Seq::<ItemView>::empty());
    while index < document.items.len()
        invariant
            index <= document.items@.len(),
            items_fit(document@),
            max_line == largest_inline_in(document@.take(index as int)),
        decreases document.items@.len() - index,
    {
        assert(document@.take(index + 1).drop_last() =~= document@.take(index as int));
        assert(document@[index as int] == document.items@[index as int]@);
        match &document.items[index] {
            Item::Hunk(hunk) => {
                let line = max_inline_hunk_line(hunk);
                if line > max_line {
                    max_line = line;
                }
            },
            _ => {},
        }
        index += 1;
    }
    assert(document@.take(index as int) =~= document@);
    let digits = digit_count(max_line);
    if digits > MIN_LINE_NUMBER_WIDTH {
        digits
    } else {
        MIN_LINE_NUMBER_WIDTH
    }
}

/// Where the panes of `document` start and end on `width` columns.
pub fn pane_layout(document: &Document, width: usize) -> (panes: PaneLayout)
    requires
        items_fit(document@),
    ensures
        is_pane_layout(panes, document@, width as nat),
{
    if should_render_side_by_side(width) {
        let layout = layout_for(document, width);
        PaneLayout {
            left_end: layout.left_text_width,
            right_start: layout.left_text_width + PANE_GAP + layout.center_number_width + PANE_GAP,
            content_start: 0,
        }
    } else {
        PaneLayout {
            left_end: 0,
            right_start: 0,
            content_start: inline_line_number_width(document) + 2,
        }
    }
}

} // verus!
