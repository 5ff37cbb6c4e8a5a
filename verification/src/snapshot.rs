//! A diff as it was at one time: what the command printed, what it says, and
//! what is shown of it.

use crate::render;
use crate::render::document;
use crate::render::layout;
use crate::render::lines;
use crate::render::render_document_with_state;
use crate::render::render_inline_document_with_state;
use crate::render::should_render_side_by_side;
use crate::render::GapStates;
use crate::render::Layout;
use crate::render::RenderedDocument;
use crate::render::TintPalette;
use crate::text;
use crate::text::same_text;
use crate::unified_diff;
use crate::unified_diff::parse;
use crate::unified_diff::Document;
use crate::unified_diff::ItemView;
use vstd::prelude::*;

verus! {

broadcast use vstd::seq::group_seq_axioms;

/// A diff as it was at one time.
#[derive(Clone, Debug)]
pub struct DiffSnapshot {
    /// What the command printed.
    pub raw_stdout: String,
    pub document: Document,
    /// The files of the diff.
    pub files: Vec<String>,
}

/// The items of a diff with file headers.
pub open spec fn document_of(raw_stdout: Seq<char>) -> Seq<ItemView> {
    unified_diff::with_headers(unified_diff::parsed(raw_stdout))
}

/// What is rendered of `items` on `width` columns: the sides next to each
/// other on a wide terminal, a single column on others.
pub open spec fn is_rendered_for_width(
    items: Seq<ItemView>,
    width: nat,
    palette: TintPalette,
    gap_states: GapStates,
    frame: nat,
    output: Seq<lines::LineView>,
) -> bool {
    if layout::wide(width) {
        exists|layout: Layout| #[trigger]
            layout::is_layout(layout, items, width) && output == (document::Rendering {
                format: document::Format::SideBySide { width, layout },
                palette,
                gaps: gap_states.entries@,
                frame,
            }).document_lines(items)
    } else {
        output == (document::Rendering {
            format: document::Format::Inline { number_width: layout::inline_width(items) },
            palette,
            gaps: gap_states.entries@,
            frame,
        }).document_lines(items)
    }
}

/// Renders `document` for a terminal of `width` columns.
pub fn render_for_width(
    document: &Document,
    width: usize,
    palette: &TintPalette,
    gap_states: &GapStates,
    spinner_frame: usize,
) -> (output: RenderedDocument)
    requires
        layout::items_fit(document@),
        document::gaps_fit(*gap_states, document@),
    ensures
        output.wf(),
        layout::is_pane_layout(output.layout, document@, width as nat),
        is_rendered_for_width(
            document@,
            width as nat,
            *palette,
            *gap_states,
            spinner_frame as nat,
            output@,
        ),
{
    if should_render_side_by_side(width) {
        render_document_with_state(document, width, palette, gap_states, spinner_frame)
    } else {
        render_inline_document_with_state(document, palette, gap_states, spinner_frame)
    }
}

/// What can be rendered as a whole can be rendered filtered.
pub proof fn lemma_filtered_fits(items: Seq<ItemView>, query: Seq<char>, gap_states: GapStates)
    requires
        layout::items_fit(items),
        document::gaps_fit(gap_states, items),
    ensures
        layout::items_fit(unified_diff::filtered(items, query)),
        document::gaps_fit(gap_states, unified_diff::filtered(items, query)),
{
    let kept = unified_diff::filtered(items, query);
    assert forall|i: int| 0 <= i < kept.len() implies layout::item_fits(#[trigger] kept[i]) by {
        unified_diff::lemma_filter_adds_nothing(items, query, i);
        let k = choose|k: int| 0 <= k < items.len() && items[k] == kept[i];
        assert(layout::item_fits(items[k]));
    }
    assert forall|j: int| 0 <= j < gap_states.entries@.len() implies document::state_fits(
        (#[trigger] gap_states.entries@[j]).1@,
        kept,
    ) by {
        let state = gap_states.entries@[j].1@;
        assert(document::state_fits(state, items));
        match state {
            render::gaps::GapStateView::Loading => {},
            render::gaps::GapStateView::Expanded(shown) => {
                assert forall|i: int|
                    0 <= i < kept.len() implies (#[trigger] kept[i] matches ItemView::Hunk(hunk)
                    ==> hunk.new_start + shown.len() <= usize::MAX) by {
                    unified_diff::lemma_filter_adds_nothing(items, query, i);
                    let k = choose|k: int| 0 <= k < items.len() && items[k] == kept[i];
                    assert(items[k] == kept[i]);
                }
            },
        }
    }
}

/// Reads what a diff command printed.
pub fn build_snapshot(raw_stdout: String) -> (snapshot: DiffSnapshot)
    ensures
        snapshot.raw_stdout@ == raw_stdout@,
        snapshot.wf(),
{
    let document = parse(raw_stdout.as_str()).with_file_headers();
    let files = document.file_paths();
    DiffSnapshot { raw_stdout, document, files }
}

impl DiffSnapshot {
    /// The document and the files are those of what the command printed.
    pub open spec fn wf(self) -> bool {
        &&& self.document@ == document_of(self.raw_stdout@)
        &&& text::texts(self.files@) == unified_diff::header_paths(self.document@)
    }

    /// Takes over what the command printed when it was run again. Tells whether
    /// it was anything new.
    pub fn refresh(&mut self, raw_stdout: String) -> (changed: bool)
        requires
            old(self).wf(),
        ensures
            final(self).wf(),
            changed == (old(self).raw_stdout@ != raw_stdout@),
            final(self).raw_stdout@ == raw_stdout@,
            !changed ==> *final(self) == *old(self),
    {
        if same_text(self.raw_stdout.as_str(), raw_stdout.as_str()) {
            return false;
        }
        *self = build_snapshot(raw_stdout);
        true
    }

    /// Renders the files whose path holds `file_filter` for a terminal of
    /// `width` columns.
    pub fn render(
        &self,
        width: usize,
        file_filter: &str,
        palette: &TintPalette,
        gap_states: &GapStates,
        spinner_frame: usize,
    ) -> (output: RenderedDocument)
        requires
            layout::items_fit(self.document@),
            document::gaps_fit(*gap_states, self.document@),
        ensures
            output.wf(),
            layout::is_pane_layout(
                output.layout,
                unified_diff::filtered(self.document@, file_filter@),
                width as nat,
            ),
            is_rendered_for_width(
                unified_diff::filtered(self.document@, file_filter@),
                width as nat,
                *palette,
                *gap_states,
                spinner_frame as nat,
                output@,
            ),
    {
        proof {
            lemma_filtered_fits(self.document@, file_filter@, *gap_states);
        }
        let filtered = self.document.filter_files(file_filter);
        render_for_width(&filtered, width, palette, gap_states, spinner_frame)
    }
}

/// What a snapshot shows is what the command printed: its hunks are those that
/// were read, in their order, below the headers of their files, and its files are
/// those that have a header.
pub proof fn lemma_snapshot_is_what_was_printed(snapshot: DiffSnapshot)
    requires
        snapshot.wf(),
    ensures
        unified_diff::hunks_of(snapshot.document@) == unified_diff::hunks_of(
            unified_diff::parsed(snapshot.raw_stdout@),
        ),
        snapshot.document@ == unified_diff::with_headers(
            unified_diff::parsed(snapshot.raw_stdout@),
        ),
        text::texts(snapshot.files@) == unified_diff::header_paths(snapshot.document@),
{
    unified_diff::lemma_headers_keep_hunks(unified_diff::parsed(snapshot.raw_stdout@));
}

/// Terminals of more than 120 columns get the sides next to each other, all
/// others a single column.
pub proof fn lemma_width_decides_layout(
    items: Seq<ItemView>,
    width: nat,
    palette: TintPalette,
    gap_states: GapStates,
    frame: nat,
    output: Seq<lines::LineView>,
)
    requires
        is_rendered_for_width(items, width, palette, gap_states, frame, output),
    ensures
        width <= 120 ==> output == (document::Rendering {
            format: document::Format::Inline { number_width: layout::inline_width(items) },
            palette,
            gaps: gap_states.entries@,
            frame,
        }).document_lines(items),
        width > 120 ==> exists|layout: Layout| #[trigger]
            layout::is_layout(layout, items, width) && output == (document::Rendering {
                format: document::Format::SideBySide { width, layout },
                palette,
                gaps: gap_states.entries@,
                frame,
            }).document_lines(items),
        layout::wide(width) <==> width > 120,
{
}

} // verus!
