//! Turning a diff into lines of terminal text.
//!
//! Wide terminals get the two sides next to each other, with one column of
//! line numbers between them; narrow ones get a single column.

pub mod cells;
pub mod document;
pub mod gap_laws;
pub mod gaps;
pub mod laws;
pub mod layout;
pub mod lines;
pub mod order_laws;
pub mod side_by_side;
pub mod single_column;
pub mod style_laws;

pub use cells::ansi_bg;
pub use cells::ansi_fg;
pub use cells::clip_plain_text;
pub use cells::digit_count;
pub use cells::display_width;
pub use cells::format_right_line_number;
pub use cells::render_styled_cell;
pub use cells::StyledLine;
pub use document::gap_states_fit;
pub use document::render_document;
pub use document::render_document_with_state;
pub use document::render_inline_document;
pub use document::render_inline_document_with_state;
pub use gaps::GapDescriptor;
pub use gaps::GapId;
pub use gaps::GapState;
pub use gaps::GapStates;
pub use layout::document_fits;
pub use layout::pane_layout;
pub use layout::should_render_side_by_side;
pub use layout::Layout;
pub use layout::PaneLayout;
pub use layout::RenderMode;
pub use lines::RenderedDocument;
pub use lines::RenderedLineMetadata;
pub use side_by_side::render_compact_elision_row;
pub use single_column::render_inline_inserted_line;
pub use crate::width::expand_tabs;

use crate::terminal_palette::AnsiColor;
use vstd::prelude::*;

verus! {

/// The colors of a rendered diff.
#[derive(Clone, Copy, Debug, Eq, PartialEq, Structural)]
pub struct TintPalette {
    /// The background of lines that are gone.
    pub changed_line_bg: Option<AnsiColor>,
    /// The mark in front of lines that are new.
    pub gutter_fg: Option<AnsiColor>,
}

impl TintPalette {
    /// The palette of the colors that were found for the terminal: that of
    /// lines that are gone, and that of the mark in front of new ones.
    pub fn detect(colors: (Option<AnsiColor>, Option<AnsiColor>)) -> (palette: TintPalette)
        ensures
            palette.changed_line_bg == colors.0,
            palette.gutter_fg == colors.1,
    {
        let (changed_line_bg, gutter_fg) = colors;
        TintPalette { changed_line_bg, gutter_fg }
    }
}

impl Default for TintPalette {
    fn default() -> (palette: Self)
        ensures
            palette.changed_line_bg is None,
            palette.gutter_fg is None,
    {
        TintPalette { changed_line_bg: None, gutter_fg: None }
    }
}

} // verus!
