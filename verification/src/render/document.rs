//! A whole diff as lines.

use super::cells;
use super::cells::clip_plain_text;
use super::cells::render_file_header;
use super::gaps;
use super::gaps::omitted_range_above;
use super::gaps::GapDescriptor;
use super::gaps::GapId;
use super::gaps::GapState;
use super::gaps::GapStates;
use super::layout;
use super::layout::inline_line_number_width;
use super::layout::layout_for;
use super::layout::pane_layout;
use super::layout::text_fits;
use super::layout::Layout;
use super::layout::PaneLayout;
use super::lines;
use super::lines::LineView;
use super::lines::RenderedDocument;
use super::side_by_side;
use super::side_by_side::push_rendered_row;
use super::side_by_side::render_compact_elision_row;
use super::side_by_side::render_compact_spinner_row;
use super::side_by_side::render_expanded_gap_lines;
use super::side_by_side::render_row;
use super::single_column;
use super::single_column::render_inline_changed_line;
use super::single_column::render_inline_context_line;
use super::single_column::render_inline_deleted_line;
use super::single_column::render_inline_ellipsis;
use super::single_column::render_inline_expanded_gap_lines;
use super::single_column::render_inline_inserted_line;
use super::single_column::render_inline_spinner;
use super::TintPalette;
use crate::text;
use crate::unified_diff;
use crate::unified_diff::Document;
use crate::unified_diff::Hunk;
use crate::unified_diff::HunkView;
use crate::unified_diff::Item;
use crate::unified_diff::ItemView;
use crate::unified_diff::Row;
use crate::unified_diff::RowView;
use crate::width;
use vstd::prelude::*;

verus! {

broadcast use vstd::seq::group_seq_axioms;

/// How the rows of a diff are laid out.
pub enum Format {
    SideBySide { width: nat, layout: Layout },
    Inline { number_width: nat },
}

/// All that the lines of a diff depend on besides the diff.
pub struct Rendering {
    pub format: Format,
    pub palette: TintPalette,
    /// The gaps that were asked for, with their states.
    pub gaps: Seq<(GapId, GapState)>,
    pub frame: nat,
}

/// Whether `rows` are annotations alone.
pub open spec fn only_annotations(rows: Seq<RowView>) -> bool {
    forall|i: int| 0 <= i < rows.len() ==> #[trigger] rows[i] is Annotation
}

/// The number of hunks in `items`.
pub open spec fn hunk_count(items: Seq<ItemView>) -> nat
    decreases items.len(),
{
    if items.len() == 0 {
        0
    } else {
        hunk_count(items.drop_last()) + if items.last() is Hunk {
            1nat
        } else {
            0nat
        }
    }
}

/// The last hunk in `items`.
pub open spec fn last_hunk(items: Seq<ItemView>) -> Option<HunkView>
    decreases items.len(),
{
    if items.len() == 0 {
        None
    } else {
        match items.last() {
            ItemView::Hunk(hunk) => Some(hunk),
            _ => last_hunk(items.drop_last()),
        }
    }
}

/// The position of the first file header from `start` on, or the number of
/// items.
pub open spec fn next_header(items: Seq<ItemView>, start: int) -> int
    decreases items.len() - start,
{
    if start >= items.len() {
        items.len() as int
    } else if items[start] is FileHeader {
        start
    } else {
        next_header(items, start + 1)
    }
}

/// The lines of one row in a single column.
pub open spec fn inline_row_lines(
    row: RowView,
    old_number: nat,
    new_number: nat,
    number_width: nat,
    palette: TintPalette,
) -> Seq<LineView> {
    match row {
        RowView::Context(line) => seq![
            lines::text_line(single_column::context_line(new_number, line, number_width)),
        ],
        RowView::Delete(line) => seq![
            lines::text_line(single_column::deleted_line(old_number, line, number_width, palette)),
        ],
        RowView::Insert(line) => seq![
            lines::text_line(single_column::inserted_line(new_number, line, number_width, palette)),
        ],
        RowView::Change { old, new } => seq![
            lines::text_line(single_column::deleted_line(old_number, old, number_width, palette)),
            lines::text_line(single_column::inserted_line(new_number, new, number_width, palette)),
        ],
        RowView::Annotation(line) => seq![lines::text_line(line)],
    }
}

impl Rendering {
    /// The lines of row `index` of `hunk`.
    pub open spec fn row_lines(self, hunk: HunkView, index: int, continued: bool) -> Seq<LineView> {
        let row = hunk.rows[index];
        let old_number = layout::old_number(hunk, index);
        let new_number = layout::new_number(hunk, index);
        match self.format {
            Format::SideBySide { width, layout } => seq![
                lines::text_line(
                    side_by_side::row_line(
                        side_by_side::rendered_row(row, new_number, self.palette),
                        width,
                        layout,
                        self.palette,
                        continued && only_annotations(hunk.rows.take(index)),
                    ),
                ),
            ],
            Format::Inline { number_width } => inline_row_lines(
                row,
                old_number,
                new_number,
                number_width,
                self.palette,
            ),
        }
    }

    /// The lines of the first `n` rows of `hunk`.
    pub open spec fn rows_lines(self, hunk: HunkView, n: nat, continued: bool) -> Seq<LineView>
        decreases n,
    {
        if n == 0 {
            Seq::empty()
        } else {
            self.rows_lines(hunk, (n - 1) as nat, continued) + self.row_lines(
                hunk,
                n - 1,
                continued,
            )
        }
    }

    /// The line of a line that was left out and is now shown.
    pub open spec fn filled_line(self, line: Seq<char>, number: nat) -> LineView {
        match self.format {
            Format::SideBySide { width, layout } => side_by_side::filled_line(
                line,
                number,
                layout,
                self.palette,
            ),
            Format::Inline { number_width } => lines::text_line(
                single_column::context_line(number, line, number_width),
            ),
        }
    }

    /// The line that stands for a gap.
    pub open spec fn marker_line(self, gap: gaps::GapView, marker: char) -> LineView {
        LineView {
            text: match self.format {
                Format::SideBySide { width, layout } => side_by_side::marker_row(layout, marker),
                Format::Inline { number_width } => single_column::marker_line(number_width, marker),
            },
            gap: Some(gap),
        }
    }

    /// The lines of a gap: the lines left out if they are known, else one line
    /// that stands for them.
    pub open spec fn gap_lines(self, gap: gaps::GapView) -> Seq<LineView> {
        match gaps::gap_state_in(self.gaps, gap.file_path, gap.hunk_index) {
            Some(gaps::GapStateView::Expanded(shown)) => Seq::new(
                shown.len(),
                |i: int| self.filled_line(shown[i], (gap.start_line + i) as nat),
            ),
            Some(gaps::GapStateView::Loading) => seq![
                self.marker_line(gap, cells::spinner(self.frame)),
            ],
            None => seq![self.marker_line(gap, '⋮')],
        }
    }

    /// The lines of a hunk of the file at `path`, which has `previous` right
    /// above it, and of the gap between the two.
    pub open spec fn hunk_lines(
        self,
        path: Seq<char>,
        hunk_index: nat,
        previous: Option<HunkView>,
        hunk: HunkView,
    ) -> Seq<LineView> {
        match gaps::omitted(previous, hunk) {
            Some((start_line, line_count)) => self.gap_lines(
                gaps::GapView { file_path: path, hunk_index, start_line, line_count },
            ) + self.rows_lines(hunk, hunk.rows.len(), true),
            None => self.rows_lines(hunk, hunk.rows.len(), false),
        }
    }

    /// The lines of a line outside any hunk, which only the wide layout shows.
    pub open spec fn meta_lines(self, line: Seq<char>) -> Seq<LineView> {
        match self.format {
            Format::SideBySide { width, layout } => seq![
                lines::text_line(cells::clipped(line, width)),
            ],
            Format::Inline { number_width } => Seq::empty(),
        }
    }

    /// The lines of what belongs to the file at `path`.
    pub open spec fn section_lines(self, path: Seq<char>, items: Seq<ItemView>) -> Seq<LineView>
        decreases items.len(),
    {
        if items.len() == 0 {
            Seq::empty()
        } else {
            let before = items.drop_last();
            self.section_lines(path, before) + match items.last() {
                ItemView::Hunk(hunk) => self.hunk_lines(
                    path,
                    hunk_count(before),
                    last_hunk(before),
                    hunk,
                ),
                ItemView::Meta(line) => self.meta_lines(line),
                ItemView::FileHeader(_) => Seq::empty(),
            }
        }
    }

    /// The lines before a file header and the header itself: a blank line parts
    /// it from what stands above.
    pub open spec fn with_header(self, above: Seq<LineView>, path: Seq<char>) -> Seq<LineView> {
        let parted = if above.len() > 0 {
            above.push(lines::text_line(Seq::empty()))
        } else {
            above
        };
        parted.push(lines::text_line(cells::header_line(path)))
    }

    /// `above` and the lines of `items` from position `start` on.
    pub open spec fn lines_from(
        self,
        items: Seq<ItemView>,
        start: int,
        above: Seq<LineView>,
    ) -> Seq<LineView>
        decreases items.len() - start,
    {
        if start >= items.len() {
            above
        } else {
            match items[start] {
                ItemView::FileHeader(path) => {
                    let end = next_header(items, start + 1);
                    proof {
                        lemma_next_header(items, start + 1);
                    }
                    self.lines_from(
                        items,
                        end,
                        self.with_header(above, path) + self.section_lines(
                            path,
                            items.subrange(start + 1, end),
                        ),
                    )
                },
                ItemView::Meta(line) => self.lines_from(
                    items,
                    start + 1,
                    above + self.meta_lines(line),
                ),
                ItemView::Hunk(_) => {
                    let end = next_header(items, start);
                    proof {
                        lemma_next_header(items, start);
                    }
                    self.lines_from(
                        items,
                        end,
                        above + self.section_lines(Seq::empty(), items.subrange(start, end)),
                    )
                },
            }
        }
    }

    /// The lines of a whole diff.
    pub open spec fn document_lines(self, items: Seq<ItemView>) -> Seq<LineView> {
        self.lines_from(items, 0, Seq::empty())
    }
}

/// Whether a gap's state can be rendered above any hunk of `items`.
pub open spec fn state_fits(state: gaps::GapStateView, items: Seq<ItemView>) -> bool {
    match state {
        gaps::GapStateView::Loading => true,
        gaps::GapStateView::Expanded(shown) => shown_fit(shown, items),
    }
}

/// Whether lines that were left out can be shown above any hunk of `items`.
pub open spec fn shown_fit(shown: Seq<Seq<char>>, items: Seq<ItemView>) -> bool {
    &&& forall|i: int| 0 <= i < shown.len() ==> width::fits_columns(#[trigger] shown[i])
    &&& forall|i: int|
        0 <= i < items.len() ==> (#[trigger] items[i] matches ItemView::Hunk(hunk)
            ==> hunk.new_start + shown.len() <= usize::MAX)
}

/// Whether all gaps that were asked for can be rendered among `items`.
pub open spec fn gaps_fit(states: GapStates, items: Seq<ItemView>) -> bool {
    forall|j: int|
        0 <= j < states.entries@.len() ==> state_fits((#[trigger] states.entries@[j]).1@, items)
}

/// Whether a gap can be shown in a state.
pub open spec fn gap_fits(gap: GapDescriptor, state: gaps::GapStateView) -> bool {
    state matches gaps::GapStateView::Expanded(shown) ==> gap.start_line + shown.len() <= usize::MAX
        && forall|i: int| 0 <= i < shown.len() ==> width::fits_columns(#[trigger] shown[i])
}

/// Whether lines that were fetched can be rendered above any hunk of
/// `document`.
fn shown_lines_fit(shown: &Vec<String>, document: &Document) -> (fits: bool)
    ensures
        fits == shown_fit(text::texts(shown@), document@),
{
    let mut index: usize = 0;
    while index < shown.len()
        invariant
            index <= shown@.len(),
            forall|i: int|
                0 <= i < index ==> width::fits_columns(#[trigger] text::texts(shown@)[i]),
        decreases shown@.len() - index,
    {
        assert(text::texts(shown@)[index as int] == shown@[index as int]@);
        if !text_fits(shown[index].as_str()) {
            assert(!width::fits_columns(text::texts(shown@)[index as int]));
            return false;
        }
        index += 1;
    }
    let mut at: usize = 0;
    while at < document.items.len()
        invariant
            at <= document.items@.len(),
            forall|i: int|
                0 <= i < at ==> (#[trigger] document@[i] matches ItemView::Hunk(hunk)
                    ==> hunk.new_start + shown@.len() <= usize::MAX),
        decreases document.items@.len() - at,
    {
        assert(document@[at as int] == document.items@[at as int]@);
        match &document.items[at] {
            Item::Hunk(hunk) => {
                if shown.len() > usize::MAX - hunk.new_start {
                    return false;
                }
            },
            _ => {},
        }
        at += 1;
    }
    true
}

/// Whether all gaps that were asked for can be rendered in `document`.
pub fn gap_states_fit(states: &GapStates, document: &Document) -> (fits: bool)
    ensures
        fits == gaps_fit(*states, document@),
{
    let mut index: usize = 0;
    while index < states.entries.len()
        invariant
            index <= states.entries@.len(),
            forall|j: int|
                0 <= j < index ==> state_fits((#[trigger] states.entries@[j]).1@, document@),
        decreases states.entries@.len() - index,
    {
        match &states.entries[index].1 {
            GapState::Expanded(shown) => {
                if !shown_lines_fit(shown, document) {
                    assert(!state_fits(states.entries@[index as int].1@, document@));
                    return false;
                }
            },
            GapState::Loading => {},
        }
        index += 1;
    }
    true
}

/// The position of the first file header from `start` on, or the number of
/// items.
fn next_file_header_index(items: &Vec<Item>, start: usize) -> (index: usize)
    requires
        start <= items@.len(),
    ensures
        index == next_header(unified_diff::item_views(items@), start as int),
        start <= index <= items@.len(),
        start < items@.len() && !(items@[start as int]@ is FileHeader) ==> start < index,
{
    let ghost views = unified_diff::item_views(items@);
    let mut index: usize = start;
    while index < items.len()
        invariant
            start <= index <= items@.len(),
            views == unified_diff::item_views(items@),
            next_header(views, start as int) == next_header(views, index as int),
            forall|i: int| start <= i < index ==> !(#[trigger] items@[i]@ is FileHeader),
        decreases items@.len() - index,
    {
        assert(views[index as int] == items@[index as int]@);
        match &items[index] {
            Item::FileHeader(_) => {
                return index;
            },
            _ => {},
        }
        index += 1;
    }
    index
}

/// The next file header stands at or behind the position that it is looked
/// for from.
pub proof fn lemma_next_header(items: Seq<ItemView>, start: int)
    requires
        start <= items.len(),
    ensures
        start <= next_header(items, start) <= items.len(),
        start < items.len() && !(items[start] is FileHeader) ==> start < next_header(items, start),
    decreases items.len() - start,
{
    if start < items.len() && !(items[start] is FileHeader) {
        lemma_next_header(items, start + 1);
    }
}

// ---------------------------------------------------------------------------
// Sections
// ---------------------------------------------------------------------------

/// How the rows of a diff are to be laid out.
#[derive(Clone, Copy, Debug, Eq, PartialEq, Structural)]
pub enum RowFormat {
    SideBySide { width: usize, layout: Layout },
    Inline { line_number_width: usize },
}

/// Renders the parts of a diff.
pub struct Renderer<'a> {
    pub format: RowFormat,
    pub palette: &'a TintPalette,
    pub gap_states: &'a GapStates,
    pub spinner_frame: usize,
}

impl<'a> View for Renderer<'a> {
    type V = Rendering;

    open spec fn view(&self) -> Rendering {
        Rendering {
            format: match self.format {
                RowFormat::SideBySide { width, layout } => Format::SideBySide {
                    width: width as nat,
                    layout,
                },
                RowFormat::Inline { line_number_width } => Format::Inline {
                    number_width: line_number_width as nat,
                },
            },
            palette: *self.palette,
            gaps: self.gap_states.entries@,
            frame: self.spinner_frame as nat,
        }
    }
}

proof fn lemma_only_annotations(rows: Seq<RowView>, n: int)
    requires
        0 <= n < rows.len(),
    ensures
        only_annotations(rows.take(n + 1)) == (only_annotations(rows.take(n))
            && rows[n] is Annotation),
{
    let before = rows.take(n);
    let after = rows.take(n + 1);
    assert(after[n] == rows[n]);
    if only_annotations(after) {
        assert forall|i: int| 0 <= i < n implies #[trigger] before[i] is Annotation by {
            assert(before[i] == after[i]);
        }
    }
    if only_annotations(before) && rows[n] is Annotation {
        assert forall|i: int| 0 <= i < n + 1 implies #[trigger] after[i] is Annotation by {
            if i < n {
                assert(before[i] == after[i]);
            }
        }
    }
}

impl<'a> Renderer<'a> {
    /// Appends the lines of a gap.
    fn render_gap(&self, gap: GapDescriptor, output: &mut RenderedDocument)
        requires
            old(output).wf(),
            forall|j: int|
                0 <= j < self.gap_states.entries@.len() ==> gap_fits(
                    gap,
                    (#[trigger] self.gap_states.entries@[j]).1@,
                ),
        ensures
            final(output).wf(),
            final(output).layout == old(output).layout,
            final(output)@ == old(output)@ + self@.gap_lines(gap@),
    {
        let ghost before = output@;
        match self.gap_states.get(&gap.id) {
            Some(GapState::Expanded(shown)) => {
                assert(gap_fits(gap, gaps::GapStateView::Expanded(text::texts(shown@))));
                assert forall|i: int| 0 <= i < shown@.len() implies width::fits_columns(
                    #[trigger] shown@[i]@,
                ) by {
                    assert(text::texts(shown@)[i] == shown@[i]@);
                }
                match self.format {
                    RowFormat::SideBySide { width: _, layout } => {
                        render_expanded_gap_lines(
                            shown,
                            gap.start_line,
                            layout,
                            self.palette,
                            output,
                        );
                    },
                    RowFormat::Inline { line_number_width } => {
                        render_inline_expanded_gap_lines(
                            shown,
                            gap.start_line,
                            line_number_width,
                            output,
                        );
                    },
                }
                assert(output@ =~= before + self@.gap_lines(gap@));
            },
            Some(GapState::Loading) => {
                let line = match self.format {
                    RowFormat::SideBySide { width: _, layout } => render_compact_spinner_row(
                        layout,
                        self.spinner_frame,
                    ),
                    RowFormat::Inline { line_number_width } => render_inline_spinner(
                        line_number_width,
                        self.spinner_frame,
                    ),
                };
                output.push_line(line, Some(gap));
                assert(output@ =~= before + self@.gap_lines(gap@));
            },
            None => {
                let line = match self.format {
                    RowFormat::SideBySide { width: _, layout } => render_compact_elision_row(
                        layout,
                    ),
                    RowFormat::Inline { line_number_width } => render_inline_ellipsis(
                        line_number_width,
                    ),
                };
                output.push_line(line, Some(gap));
                assert(output@ =~= before + self@.gap_lines(gap@));
            },
        }
    }

    /// Appends the lines of the rows of `hunk`.
    fn render_hunk_rows(&self, hunk: &Hunk, continued: bool, output: &mut RenderedDocument)
        requires
            old(output).wf(),
            layout::hunk_fits(hunk@),
        ensures
            final(output).wf(),
            final(output).layout == old(output).layout,
            final(output)@ == old(output)@ + self@.rows_lines(
                hunk@,
                hunk@.rows.len(),
                continued,
            ),
    {
        let ghost before = output@;
        let mut show_gap_continuation = continued;
        let mut old_line: usize = hunk.old_start;
        let mut new_line: usize = hunk.new_start;
        let mut index: usize = 0;
        assert(hunk@.rows.take(0) =~= Seq::<RowView>::empty());
        assert(output@ =~= before + self@.rows_lines(hunk@, 0, continued));
        while index < hunk.rows.len()
            invariant
                index <= hunk.rows@.len(),
                layout::hunk_fits(hunk@),
                output.wf(),
                output.layout == old(output).layout,
                old_line == layout::old_number(hunk@, index as int),
                new_line == layout::new_number(hunk@, index as int),
                self.format is SideBySide ==> show_gap_continuation == (continued
                    && only_annotations(hunk@.rows.take(index as int))),
                output@ == before + self@.rows_lines(hunk@, index as nat, continued),
            decreases hunk.rows@.len() - index,
        {
            let ghost done = output@;
            let row = &hunk.rows[index];
            proof {
                assert(row@ == hunk@.rows[index as int]);
                layout::lemma_numbers(hunk@, index as int);
                lemma_only_annotations(hunk@.rows, index as int);
            }
            match self.format {
                RowFormat::SideBySide { width, layout } => {
                    let rendered = render_row(row, &mut old_line, &mut new_line, self.palette);
                    push_rendered_row(
                        output,
                        width,
                        layout,
                        self.palette,
                        rendered,
                        &mut show_gap_continuation,
                    );
                },
                RowFormat::Inline { line_number_width } => {
                    render_inline_row(
                        row,
                        &mut old_line,
                        &mut new_line,
                        line_number_width,
                        self.palette,
                        output,
                    );
                },
            }
            assert(output@ =~= done + self@.row_lines(hunk@, index as int, continued));
            assert(output@ =~= before + self@.rows_lines(hunk@, (index + 1) as nat, continued));
            index += 1;
        }
    }
}

impl<'a> Renderer<'a> {
    /// Appends the lines of a hunk of the file at `path`, and of the gap
    /// between it and `previous`.
    fn render_hunk(
        &self,
        path: &str,
        hunk_index: usize,
        previous: Option<&Hunk>,
        hunk: &Hunk,
        output: &mut RenderedDocument,
    )
        requires
            old(output).wf(),
            layout::hunk_fits(hunk@),
            previous matches Some(previous) ==> layout::hunk_fits(previous@),
            forall|j: int|
                0 <= j < self.gap_states.entries@.len() ==> state_fits(
                    (#[trigger] self.gap_states.entries@[j]).1@,
                    seq![ItemView::Hunk(hunk@)],
                ),
        ensures
            final(output).wf(),
            final(output).layout == old(output).layout,
            final(output)@ == old(output)@ + self@.hunk_lines(
                path@,
                hunk_index as nat,
                match previous {
                    Some(previous) => Some(previous@),
                    None => None,
                },
                hunk@,
            ),
    {
        let ghost before = output@;
        match omitted_range_above(previous, hunk) {
            Some((start_line, line_count)) => {
                let gap = GapDescriptor {
                    id: GapId { file_path: path.to_owned(), hunk_index },
                    start_line,
                    line_count,
                };
                proof {
                    let one = seq![ItemView::Hunk(hunk@)];
                    assert forall|j: int| 0 <= j < self.gap_states.entries@.len() implies gap_fits(
                        gap,
                        (#[trigger] self.gap_states.entries@[j]).1@,
                    ) by {
                        assert(state_fits(self.gap_states.entries@[j].1@, one));
                        assert(one[0] == ItemView::Hunk(hunk@));
                    }
                }
                self.render_gap(gap, output);
                self.render_hunk_rows(hunk, true, output);
            },
            None => {
                self.render_hunk_rows(hunk, false, output);
            },
        }
        assert(output@ =~= before + self@.hunk_lines(
            path@,
            hunk_index as nat,
            match previous {
                Some(previous) => Some(previous@),
                None => None,
            },
            hunk@,
        ));
    }

    /// Appends the lines of the items from position `from` up to position
    /// `to`, which belong to the file at `path`.
    pub fn render_file_section(
        &self,
        path: &str,
        items: &Vec<Item>,
        from: usize,
        to: usize,
        output: &mut RenderedDocument,
    )
        requires
            old(output).wf(),
            from <= to <= items@.len(),
            layout::items_fit(unified_diff::item_views(items@)),
            gaps_fit(*self.gap_states, unified_diff::item_views(items@)),
        ensures
            final(output).wf(),
            final(output).layout == old(output).layout,
            final(output)@ == old(output)@ + self@.section_lines(
                path@,
                unified_diff::item_views(items@).subrange(from as int, to as int),
            ),
    {
        let ghost views = unified_diff::item_views(items@);
        let ghost before = output@;
        let mut hunk_index: usize = 0;
        let mut previous: Option<&Hunk> = None;
        let mut index: usize = from;
        assert(views.subrange(from as int, from as int) =~= Seq::<ItemView>::empty());
        assert(output@ =~= before + self@.section_lines(
            path@,
            views.subrange(from as int, from as int),
        ));
        while index < to
            invariant
                from <= index <= to <= items@.len(),
                views == unified_diff::item_views(items@),
                layout::items_fit(views),
                gaps_fit(*self.gap_states, views),
                output.wf(),
                output.layout == old(output).layout,
                hunk_index <= index - from,
                hunk_index == hunk_count(views.subrange(from as int, index as int)),
                last_hunk(views.subrange(from as int, index as int)) == match previous {
                    Some(previous) => Some(previous@),
                    None => None,
                },
                previous matches Some(previous) ==> layout::hunk_fits(previous@),
                output@ == before + self@.section_lines(
                    path@,
                    views.subrange(from as int, index as int),
                ),
            decreases to - index,
        {
            let ghost done = output@;
            let ghost section = views.subrange(from as int, index + 1);
            assert(section.drop_last() =~= views.subrange(from as int, index as int));
            assert(views[index as int] == items@[index as int]@);
            match &items[index] {
                Item::Hunk(hunk) => {
                    proof {
                        assert(layout::item_fits(views[index as int]));
                        assert forall|j: int|
                            0 <= j < self.gap_states.entries@.len() implies state_fits(
                            (#[trigger] self.gap_states.entries@[j]).1@,
                            seq![ItemView::Hunk(hunk@)],
                        ) by {
                            assert(state_fits(self.gap_states.entries@[j].1@, views));
                            assert(views[index as int] == ItemView::Hunk(hunk@));
                        }
                    }
                    self.render_hunk(path, hunk_index, previous, hunk, output);
                    hunk_index += 1;
                    previous = Some(hunk);
                },
                Item::Meta(line) => {
                    assert(layout::item_fits(views[index as int]));
                    self.render_meta(line.as_str(), output);
                },
                Item::FileHeader(_) => {},
            }
            assert(output@ =~= before + self@.section_lines(path@, section));
            index += 1;
        }
    }

    /// Appends the line of a line outside any hunk, where it is shown.
    fn render_meta(&self, line: &str, output: &mut RenderedDocument)
        requires
            old(output).wf(),
            width::fits_columns(line@),
        ensures
            final(output).wf(),
            final(output).layout == old(output).layout,
            final(output)@ == old(output)@ + self@.meta_lines(line@),
    {
        let ghost before = output@;
        match self.format {
            RowFormat::SideBySide { width, layout: _ } => {
                output.push_line(clip_plain_text(line, width), None);
            },
            RowFormat::Inline { line_number_width: _ } => {},
        }
        assert(output@ =~= before + self@.meta_lines(line@));
    }

    /// Appends a file header, parted by a blank line from what stands above.
    fn render_header(&self, path: &str, output: &mut RenderedDocument)
        requires
            old(output).wf(),
        ensures
            final(output).wf(),
            final(output).layout == old(output).layout,
            final(output)@ == self@.with_header(old(output)@, path@),
    {
        if output.lines.len() > 0 {
            let blank = String::new();
            assert(blank@ =~= Seq::<char>::empty());
            output.push_line(blank, None);
        }
        output.push_line(render_file_header(path), None);
    }

    /// Renders a whole diff, whose panes are `panes`.
    fn render_items(&self, document: &Document, panes: PaneLayout) -> (output: RenderedDocument)
        requires
            layout::items_fit(document@),
            gaps_fit(*self.gap_states, document@),
        ensures
            output.wf(),
            output.layout == panes,
            output@ == self@.document_lines(document@),
    {
        let mut output = RenderedDocument::new(panes);
        let mut index: usize = 0;
        while index < document.items.len()
            invariant
                index <= document.items@.len(),
                layout::items_fit(document@),
                gaps_fit(*self.gap_states, document@),
                output.wf(),
                output.layout == panes,
                self@.document_lines(document@) == self@.lines_from(
                    document@,
                    index as int,
                    output@,
                ),
            decreases document.items@.len() - index,
        {
            let ghost above = output@;
            assert(document@[index as int] == document.items@[index as int]@);
            match &document.items[index] {
                Item::FileHeader(path) => {
                    self.render_header(path.as_str(), &mut output);
                    let section_end = next_file_header_index(&document.items, index + 1);
                    self.render_file_section(
                        path.as_str(),
                        &document.items,
                        index + 1,
                        section_end,
                        &mut output,
                    );
                    index = section_end;
                },
                Item::Meta(line) => {
                    assert(layout::item_fits(document@[index as int]));
                    self.render_meta(line.as_str(), &mut output);
                    index += 1;
                },
                Item::Hunk(_) => {
                    let section_end = next_file_header_index(&document.items, index);
                    proof {
                        reveal_strlit("");
                        assert(""@ =~= Seq::<char>::empty());
                    }
                    self.render_file_section(
                        "",
                        &document.items,
                        index,
                        section_end,
                        &mut output,
                    );
                    index = section_end;
                },
            }
        }
        output
    }
}

/// Appends the lines of `row` in a single column and counts its lines.
fn render_inline_row(
    row: &Row,
    old_line: &mut usize,
    new_line: &mut usize,
    line_number_width: usize,
    palette: &TintPalette,
    output: &mut RenderedDocument,
)
    requires
        old(output).wf(),
        layout::row_fits(row@),
        *old(old_line) < usize::MAX || !layout::has_left(row@),
        *old(new_line) < usize::MAX || !layout::has_right(row@),
    ensures
        final(output).wf(),
        final(output).layout == old(output).layout,
        final(output)@ == old(output)@ + inline_row_lines(
            row@,
            *old(old_line) as nat,
            *old(new_line) as nat,
            line_number_width as nat,
            *palette,
        ),
        *final(old_line) == *old(old_line) + if layout::has_left(row@) {
            1int
        } else {
            0int
        },
        *final(new_line) == *old(new_line) + if layout::has_right(row@) {
            1int
        } else {
            0int
        },
{
    let ghost before = output@;
    let ghost added = inline_row_lines(
        row@,
        *old_line as nat,
        *new_line as nat,
        line_number_width as nat,
        *palette,
    );
    match row {
        Row::Context(text) => {
            let line_number = *new_line;
            *old_line += 1;
            *new_line += 1;
            output.push_line(
                render_inline_context_line(line_number, text.as_str(), line_number_width),
                None,
            );
        },
        Row::Delete(text) => {
            let line_number = *old_line;
            *old_line += 1;
            output.push_line(
                render_inline_deleted_line(line_number, text.as_str(), line_number_width, palette),
                None,
            );
        },
        Row::Insert(text) => {
            let line_number = *new_line;
            *new_line += 1;
            output.push_line(
                render_inline_inserted_line(line_number, text.as_str(), line_number_width, palette),
                None,
            );
        },
        Row::Change { old, new } => {
            let old_number = *old_line;
            let new_number = *new_line;
            *old_line += 1;
            *new_line += 1;
            output.push_line(
                render_inline_deleted_line(old_number, old.as_str(), line_number_width, palette),
                None,
            );
            output.push_line(
                render_inline_changed_line(new_number, new.as_str(), line_number_width, palette),
                None,
            );
        },
        Row::Annotation(text) => {
            output.push_line(text.clone(), None);
        },
    }
    assert(output@ =~= before + added);
}

// ---------------------------------------------------------------------------
// Documents
// ---------------------------------------------------------------------------

/// Renders `document` with its two sides next to each other on `width`
/// columns. Gaps that were asked for are shown as `gap_states` says.
pub fn render_document_with_state(
    document: &Document,
    width: usize,
    palette: &TintPalette,
    gap_states: &GapStates,
    spinner_frame: usize,
) -> (output: RenderedDocument)
    requires
        layout::items_fit(document@),
        gaps_fit(*gap_states, document@),
    ensures
        output.wf(),
        layout::is_pane_layout(output.layout, document@, width as nat),
        exists|layout: Layout| #[trigger]
            layout::is_layout(layout, document@, width as nat) && output@ == (Rendering {
                format: Format::SideBySide { width: width as nat, layout },
                palette: *palette,
                gaps: gap_states.entries@,
                frame: spinner_frame as nat,
            }).document_lines(document@),
{
    let layout = layout_for(document, width);
    let panes = pane_layout(document, width);
    let renderer = Renderer {
        format: RowFormat::SideBySide { width, layout },
        palette,
        gap_states,
        spinner_frame,
    };
    renderer.render_items(document, panes)
}

/// Renders `document` with its two sides next to each other on `width`
/// columns, with a mark for each gap.
pub fn render_document(document: &Document, width: usize, palette: &TintPalette) -> (output: String)
    requires
        layout::items_fit(document@),
    ensures
        exists|layout: Layout| #[trigger]
            layout::is_layout(layout, document@, width as nat) && output@ == text::join(
                lines::line_texts(
                    (Rendering {
                        format: Format::SideBySide { width: width as nat, layout },
                        palette: *palette,
                        gaps: Seq::empty(),
                        frame: 0,
                    }).document_lines(document@),
                ),
                "\n"@,
            ),
{
    let gap_states = GapStates::new();
    render_document_with_state(document, width, palette, &gap_states, 0).into_output()
}

/// Renders `document` in a single column. Gaps that were asked for are shown
/// as `gap_states` says.
pub fn render_inline_document_with_state(
    document: &Document,
    palette: &TintPalette,
    gap_states: &GapStates,
    spinner_frame: usize,
) -> (output: RenderedDocument)
    requires
        layout::items_fit(document@),
        gaps_fit(*gap_states, document@),
    ensures
        output.wf(),
        output.layout.left_end == 0,
        output.layout.right_start == 0,
        output.layout.content_start == layout::inline_width(document@) + 2,
        output@ == (Rendering {
            format: Format::Inline { number_width: layout::inline_width(document@) },
            palette: *palette,
            gaps: gap_states.entries@,
            frame: spinner_frame as nat,
        }).document_lines(document@),
{
    let line_number_width = inline_line_number_width(document);
    let panes = PaneLayout { left_end: 0, right_start: 0, content_start: line_number_width + 2 };
    let renderer = Renderer {
        format: RowFormat::Inline { line_number_width },
        palette,
        gap_states,
        spinner_frame,
    };
    renderer.render_items(document, panes)
}

/// Renders `document` in a single column, with a mark for each gap. The width
/// of the terminal does not matter: lines keep their full length.
pub fn render_inline_document(
    document: &Document,
    _width: usize,
    palette: &TintPalette,
) -> (output: String)
    requires
        layout::items_fit(document@),
    ensures
        output@ == text::join(
            lines::line_texts(
                (Rendering {
                    format: Format::Inline { number_width: layout::inline_width(document@) },
                    palette: *palette,
                    gaps: Seq::empty(),
                    frame: 0,
                }).document_lines(document@),
            ),
            "\n"@,
        ),
{
    let gap_states = GapStates::new();
    render_inline_document_with_state(document, palette, &gap_states, 0).into_output()
}

} // verus!
