//! Whether a rendering is printed or shown in the pager.

use super::screen::line_count;
use super::screen::should_page_output;
use super::state;
use super::state::PagerState;
use crate::render::PaneLayout;
use crate::render::TintPalette;
use crate::terminal_palette::AnsiColor;
use crate::text;
use vstd::prelude::*;

verus! {

broadcast use vstd::seq::group_seq_axioms;

/// What becomes of a rendering.
pub enum Opening<F> where F: Fn(usize, &str, &TintPalette) -> (String, PaneLayout) {
    /// It is printed as it is.
    Print(String),
    /// It is shown in the pager.
    Page(PagerState<F>),
}

/// Whether `made` is what `render` makes of all files on `width` columns.
pub open spec fn is_first_rendering<F>(
    render: F,
    width: usize,
    palette: TintPalette,
    made: (String, PaneLayout),
) -> bool where F: Fn(usize, &str, &TintPalette) -> (String, PaneLayout) {
    exists|query: &str, colors: &TintPalette| #[trigger]
        call_ensures(render, (width, query, colors), made) && query@ == Seq::<char>::empty()
            && *colors == palette
}

/// The columns of a terminal, or none where there is no terminal.
pub open spec fn first_width(terminal: Option<(usize, usize)>) -> usize {
    match terminal {
        Some((width, rows)) => width,
        None => 0,
    }
}

/// Renders all files and decides what becomes of the rendering. It is shown in
/// the pager if the output goes to a terminal, whose columns and rows are given
/// then, and it either does not fit or the pager is asked for.
pub fn page_or_render<F>(
    files: Vec<String>,
    force_pager: bool,
    terminal: Option<(usize, usize)>,
    palette: TintPalette,
    search_bg: Option<AnsiColor>,
    render: F,
) -> (opening: Opening<F>) where F: Fn(usize, &str, &TintPalette) -> (String, PaneLayout)
    requires
        forall|width: usize, query: &str, colors: &TintPalette| #[trigger]
            call_requires(render, (width, query, colors)),
    ensures
        exists|made: (String, PaneLayout)| #[trigger]
            is_first_rendering(render, first_width(terminal), palette, made) && match opening {
                Opening::Print(output) => output@ == made.0@ && (terminal matches Some(
                    (width, rows),
                ) ==> !force_pager && text::lines(made.0@).len() <= rows),
                Opening::Page(state) => {
                    &&& terminal matches Some((width, rows)) && (force_pager || text::lines(
                        made.0@,
                    ).len() > rows) && state@.width == width && state@.height == rows
                    &&& state@.wf()
                    &&& state.render == render && state.renders()
                    &&& state@.lines == text::lines(made.0@)
                    &&& state@.pane_layout == made.1
                    &&& state@.all_files == text::texts(files@)
                    &&& state@.palette == palette
                    &&& state@.search_bg == search_bg
                    &&& state@.offset == 0 && state@.horizontal_offset == 0
                    &&& state@.file_filter_query == Seq::<char>::empty()
                    &&& state@.search is Inactive && state@.search_message is None
                    &&& !state@.file_filter_open && !state@.help_open && state@.selection is None
                },
            },
{
    proof {
        reveal_strlit("");
        assert(""@ =~= Seq::<char>::empty());
    }
    let (width, rows) = match terminal {
        Some((width, rows)) => (width, rows),
        None => (0, 0),
    };
    let made = (render)(width, "", &palette);
    assert(is_first_rendering(render, first_width(terminal), palette, made));
    let (output, layout) = made;
    let count = line_count(output.as_str());
    if !should_page_output(terminal.is_some(), force_pager, count, rows) {
        return Opening::Print(output);
    }
    Opening::Page(
        PagerState::new(render, width, rows, output, layout, files, palette, search_bg),
    )
}

} // verus!
