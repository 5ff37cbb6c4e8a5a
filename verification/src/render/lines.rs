//! Rendered lines and what is known of them.

use super::gaps;
use super::gaps::GapDescriptor;
use super::layout::PaneLayout;
use crate::text;
use crate::text::copy_texts;
use crate::text::join_texts;
use vstd::prelude::*;

verus! {

broadcast use vstd::seq::group_seq_axioms;

/// What is known of a rendered line besides its text.
#[derive(Debug, Eq, PartialEq)]
pub struct RenderedLineMetadata {
    /// The gap that the line stands for.
    pub gap: Option<GapDescriptor>,
}

/// A rendered diff.
#[derive(Debug, Eq, PartialEq)]
pub struct RenderedDocument {
    pub lines: Vec<String>,
    pub line_metadata: Vec<RenderedLineMetadata>,
    pub layout: PaneLayout,
}

impl Default for RenderedLineMetadata {
    fn default() -> (metadata: Self)
        ensures
            metadata.gap is None,
    {
        RenderedLineMetadata { gap: None }
    }
}

impl Default for RenderedDocument {
    fn default() -> (document: Self)
        ensures
            document.wf(),
            document@ == Seq::<LineView>::empty(),
            document.layout == (PaneLayout { left_end: 0, right_start: 0, content_start: 0 }),
    {
        RenderedDocument::new(PaneLayout::default())
    }
}

/// A rendered line: its text, and the gap that it stands for.
pub struct LineView {
    pub text: Seq<char>,
    pub gap: Option<gaps::GapView>,
}

/// A line that stands for no gap.
pub open spec fn text_line(text: Seq<char>) -> LineView {
    LineView { text, gap: None }
}

impl View for RenderedDocument {
    type V = Seq<LineView>;

    open spec fn view(&self) -> Seq<LineView> {
        Seq::new(
            self.lines@.len(),
            |i: int|
                LineView {
                    text: self.lines@[i]@,
                    gap: gaps::gap_view(self.line_metadata@[i].gap),
                },
        )
    }
}

impl Clone for RenderedLineMetadata {
    fn clone(&self) -> (copy: Self)
        ensures
            gaps::gap_view(copy.gap) == gaps::gap_view(self.gap),
    {
        RenderedLineMetadata {
            gap: match &self.gap {
                Some(gap) => Some(gap.clone()),
                None => None,
            },
        }
    }
}

impl Clone for RenderedDocument {
    fn clone(&self) -> (copy: Self)
        ensures
            text::texts(copy.lines@) == text::texts(self.lines@),
            copy.line_metadata@.len() == self.line_metadata@.len(),
            forall|i: int|
                0 <= i < copy.line_metadata@.len() ==> gaps::gap_view(
                    (#[trigger] copy.line_metadata@[i]).gap,
                ) == gaps::gap_view(self.line_metadata@[i].gap),
            copy.layout == self.layout,
            self.wf() ==> copy.wf() && copy@ == self@,
    {
        let lines = copy_texts(&self.lines);
        let mut line_metadata: Vec<RenderedLineMetadata> = Vec::new();
        let mut index: usize = 0;
        while index < self.line_metadata.len()
            invariant
                index <= self.line_metadata@.len(),
                line_metadata@.len() == index,
                forall|i: int|
                    0 <= i < index ==> gaps::gap_view((#[trigger] line_metadata@[i]).gap)
                        == gaps::gap_view(self.line_metadata@[i].gap),
            decreases self.line_metadata@.len() - index,
        {
            line_metadata.push(self.line_metadata[index].clone());
            index += 1;
        }
        let copy = RenderedDocument { lines, line_metadata, layout: self.layout };
        proof {
            assert(text::texts(copy.lines@).len() == text::texts(self.lines@).len());
            if self.wf() {
                assert forall|i: int| 0 <= i < copy@.len() implies copy@[i] == self@[i] by {
                    assert(text::texts(copy.lines@)[i] == copy.lines@[i]@);
                    assert(text::texts(self.lines@)[i] == self.lines@[i]@);
                    assert(copy.line_metadata@[i] == line_metadata@[i]);
                }
                assert(copy@ =~= self@);
            }
        }
        copy
    }
}

/// The texts of rendered lines.
pub open spec fn line_texts(lines: Seq<LineView>) -> Seq<Seq<char>> {
    lines.map_values(|line: LineView| line.text)
}

impl RenderedDocument {
    /// Each line has its metadata.
    pub open spec fn wf(self) -> bool {
        self.lines@.len() == self.line_metadata@.len()
    }

    /// A document without lines.
    pub fn new(layout: PaneLayout) -> (document: RenderedDocument)
        ensures
            document.wf(),
            document@ == Seq::<LineView>::empty(),
            document.layout == layout,
    {
        let document = RenderedDocument { lines: Vec::new(), line_metadata: Vec::new(), layout };
        assert(document@ =~= Seq::<LineView>::empty());
        document
    }

    /// Appends a line.
    pub fn push_line(&mut self, text: String, gap: Option<GapDescriptor>)
        requires
            old(self).wf(),
        ensures
            final(self).wf(),
            final(self).layout == old(self).layout,
            final(self)@ == old(self)@.push(LineView { text: text@, gap: gaps::gap_view(gap) }),
    {
        let ghost before = self@;
        self.lines.push(text);
        self.line_metadata.push(RenderedLineMetadata { gap });
        assert(self@ =~= before.push(LineView { text: text@, gap: gaps::gap_view(gap) }));
    }

    /// The lines as one text, with a newline between each two.
    pub fn into_output(self) -> (output: String)
        ensures
            output@ == text::join(line_texts(self@), "\n"@),
    {
        let output = join_texts(&self.lines, "\n");
        assert(text::texts(self.lines@) =~= line_texts(self@));
        output
    }
}

} // verus!
