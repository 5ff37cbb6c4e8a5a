//! The pager: rendered text, what is shown of it, and what keys do.

use super::ansi::strip_ansi_text;
use super::columns;
use super::columns::plain_offset_to_column;
use super::files;
use super::files::build_file_header_lines;
use super::files::FileHeaderLine;
use super::hud;
use super::hud::display_width;
use super::search;
use super::search::find_matches;
use super::search::SearchMatch;
use super::view;
use super::view::KeyStep;
use super::view::PagerView;
use super::view::SearchView;
use super::view::Selection;
use super::view::HORIZONTAL_SCROLL_COLUMNS;
use crate::render::PaneLayout;
use crate::render::TintPalette;
use crate::terminal_palette::AnsiColor;
use crate::text;
use crate::text::copy_texts;
use crate::text::same_text;
use crate::text::split_lines;
use crate::unified_diff;
use vstd::prelude::*;

verus! {

broadcast use vstd::seq::group_seq_axioms;

/// What is being searched for.
#[derive(Clone, Debug, Eq, PartialEq)]
pub enum SearchMode {
    Inactive,
    Prompt { query: String },
    Active { query: String, matches: Vec<SearchMatch>, current: usize },
}

impl View for SearchMode {
    type V = SearchView;

    open spec fn view(&self) -> SearchView {
        match self {
            SearchMode::Inactive => SearchView::Inactive,
            SearchMode::Prompt { query } => SearchView::Prompt { query: query@ },
            SearchMode::Active { query, matches, current } => SearchView::Active {
                query: query@,
                matches: search::match_views(matches@),
                current: *current as nat,
            },
        }
    }
}

impl Default for SearchMode {
    fn default() -> (mode: Self)
        ensures
            mode is Inactive,
    {
        SearchMode::Inactive
    }
}

/// What an optional text says.
pub open spec fn text_view(text: Option<String>) -> Option<Seq<char>> {
    match text {
        Some(text) => Some(text@),
        None => None,
    }
}

/// A pager over text that `render` makes for a width, a file filter and a
/// palette.
pub struct PagerState<F> where F: Fn(usize, &str, &TintPalette) -> (String, PaneLayout) {
    pub render: F,
    pub palette: TintPalette,
    pub lines: Vec<String>,
    pub plain_lines: Vec<String>,
    pub offset: usize,
    pub horizontal_offset: usize,
    pub width: usize,
    pub height: usize,
    pub search: SearchMode,
    pub search_bg: Option<AnsiColor>,
    pub search_message: Option<&'static str>,
    pub all_files: Vec<String>,
    pub visible_files: Vec<String>,
    pub file_headers: Vec<FileHeaderLine>,
    pub file_filter_query: String,
    pub file_filter_open: bool,
    pub help_open: bool,
    pub selection: Option<Selection>,
    pub pane_layout: PaneLayout,
}

impl<F> View for PagerState<F> where F: Fn(usize, &str, &TintPalette) -> (String, PaneLayout) {
    type V = PagerView;

    open spec fn view(&self) -> PagerView {
        PagerView {
            palette: self.palette,
            lines: text::texts(self.lines@),
            plain_lines: text::texts(self.plain_lines@),
            offset: self.offset as nat,
            horizontal_offset: self.horizontal_offset as nat,
            width: self.width as nat,
            height: self.height as nat,
            search: self.search@,
            search_bg: self.search_bg,
            search_message: match self.search_message {
                Some(message) => Some(message@),
                None => None,
            },
            all_files: text::texts(self.all_files@),
            visible_files: text::texts(self.visible_files@),
            file_headers: files::header_views(self.file_headers@),
            file_filter_query: self.file_filter_query@,
            file_filter_open: self.file_filter_open,
            help_open: self.help_open,
            selection: self.selection,
            pane_layout: self.pane_layout,
        }
    }
}

/// The texts that `lines` show.
pub fn rebuild_plain_lines(lines: &Vec<String>) -> (plain: Vec<String>)
    ensures
        text::texts(plain@) == view::shown_lines(text::texts(lines@)),
{
    let mut plain: Vec<String> = Vec::new();
    let ghost shown = view::shown_lines(text::texts(lines@));
    let mut index: usize = 0;
    assert(text::texts(plain@) =~= shown.take(0));
    while index < lines.len()
        invariant
            index <= lines@.len(),
            text::texts(plain@) == shown.take(index as int),
            shown == view::shown_lines(text::texts(lines@)),
        decreases lines@.len() - index,
    {
        let ghost before = text::texts(plain@);
        let line = strip_ansi_text(lines[index].as_str());
        assert(line@ == shown[index as int]);
        plain.push(line);
        assert(text::texts(plain@) =~= before.push(line@));
        index += 1;
        assert(text::texts(plain@) =~= shown.take(index as int));
    }
    assert(text::texts(plain@) =~= view::shown_lines(text::texts(lines@)));
    plain
}

/// The smaller of two numbers.
fn least(a: usize, b: usize) -> (least: usize)
    ensures
        least == hud::smaller(a as nat, b as nat),
{
    if a <= b {
        a
    } else {
        b
    }
}

impl<F> PagerState<F> where F: Fn(usize, &str, &TintPalette) -> (String, PaneLayout) {
    /// Whether `render` can be called.
    pub open spec fn renders(self) -> bool {
        forall|width: usize, query: &str, palette: &TintPalette| #[trigger]
            call_requires(self.render, (width, query, palette))
    }

    /// Whether `after` shows what `render` made for the width, the filter and
    /// the palette of `before`.
    pub open spec fn rerendered(
        self,
        before: PagerView,
        preferred: Option<Seq<char>>,
        after: PagerView,
    ) -> bool {
        exists|query: &str, palette: &TintPalette, made: (String, PaneLayout)| #[trigger]
            call_ensures(self.render, (before.width as usize, query, palette), made) && query@
                == before.file_filter_query && *palette == before.palette && after
                == before.with_output(made.0@, made.1, preferred)
    }

    /// Whether `step` led to `after`.
    pub open spec fn stepped(self, step: KeyStep, after: PagerView) -> bool {
        match step {
            KeyStep::Done { handled, view } => after == view,
            KeyStep::Rerender { view, preferred } => self.rerendered(view, preferred, after),
        }
    }

    /// A pager that shows `initial_output` from its first line on.
    pub fn new(
        render: F,
        width: usize,
        height: usize,
        initial_output: String,
        initial_layout: PaneLayout,
        all_files: Vec<String>,
        palette: TintPalette,
        search_bg: Option<AnsiColor>,
    ) -> (state: PagerState<F>)
        ensures
            state.render == render,
            state@.wf(),
            state@ == (PagerView {
                palette,
                lines: text::lines(initial_output@),
                plain_lines: view::shown_lines(text::lines(initial_output@)),
                offset: 0,
                horizontal_offset: 0,
                width: width as nat,
                height: height as nat,
                search: SearchView::Inactive,
                search_bg,
                search_message: None,
                all_files: text::texts(all_files@),
                visible_files: text::texts(all_files@),
                file_headers: files::header_lines(
                    view::shown_lines(text::lines(initial_output@)),
                    text::texts(all_files@),
                ),
                file_filter_query: Seq::empty(),
                file_filter_open: false,
                help_open: false,
                selection: None,
                pane_layout: initial_layout,
            }),
    {
        let lines = split_lines(initial_output.as_str());
        let plain_lines = rebuild_plain_lines(&lines);
        let visible_files = copy_texts(&all_files);
        let file_headers = build_file_header_lines(
            plain_lines.as_slice(),
            visible_files.as_slice(),
        );
        let file_filter_query = String::new();
        proof {
            unified_diff::lemma_empty_filter_keeps_all(
                Seq::empty(),
                text::texts(all_files@),
            );
            assert(file_filter_query@ =~= Seq::<char>::empty());
        }
        PagerState {
            render,
            palette,
            lines,
            plain_lines,
            offset: 0,
            horizontal_offset: 0,
            width,
            height,
            search: SearchMode::Inactive,
            search_bg,
            search_message: None,
            all_files,
            visible_files,
            file_headers,
            file_filter_query,
            file_filter_open: false,
            help_open: false,
            selection: None,
            pane_layout: initial_layout,
        }
    }

    // -----------------------------------------------------------------------
    // Sizes
    // -----------------------------------------------------------------------

    /// Whether the search takes the bottom row.
    pub fn search_visible(&self) -> (visible: bool)
        ensures
            visible == !(self@.search is Inactive),
    {
        match &self.search {
            SearchMode::Inactive => false,
            _ => true,
        }
    }

    /// The rows that the bottom of the screen takes.
    pub fn hud_height(&self) -> (rows: usize)
        ensures
            rows == self@.hud_height(),
    {
        if self.file_filter_open {
            let max_hud_rows: usize = if self.height >= 2 {
                self.height - 1
            } else {
                1
            };
            least(self.visible_files.len().saturating_add(1), max_hud_rows)
        } else if self.search_visible() {
            1
        } else {
            0
        }
    }

    /// The rows that are left for lines.
    pub fn viewport_height(&self) -> (rows: usize)
        ensures
            rows == self@.viewport_height(),
    {
        self.height.saturating_sub(self.hud_height())
    }

    /// The lines of a page.
    pub fn page_size(&self) -> (rows: usize)
        ensures
            rows == self@.page_size(),
    {
        let rows = self.viewport_height();
        if rows >= 1 {
            rows
        } else {
            1
        }
    }

    /// The largest offset.
    pub fn max_offset(&self) -> (offset: usize)
        ensures
            offset == self@.max_offset(),
    {
        self.lines.len().saturating_sub(self.viewport_height())
    }

    /// The largest offset to the side.
    pub fn max_horizontal_offset(&self) -> (offset: usize)
        ensures
            offset == self@.max_horizontal_offset(),
    {
        if self.width == 0 {
            return 0;
        }
        let ghost list = text::texts(self.plain_lines@);
        let mut widest: usize = 0;
        let mut index: usize = 0;
        assert(list.take(0) =~= Seq::<Seq<char>>::empty());
        while index < self.plain_lines.len()
            invariant
                index <= self.plain_lines@.len(),
                list == text::texts(self.plain_lines@),
                widest == hud::widest(list.take(index as int)),
            decreases self.plain_lines@.len() - index,
        {
            assert(list.take(index + 1).drop_last() =~= list.take(index as int));
            assert(list[index as int] == self.plain_lines@[index as int]@);
            let columns = display_width(self.plain_lines[index].as_str());
            if columns > widest {
                widest = columns;
            }
            index += 1;
        }
        assert(list.take(index as int) =~= list);
        widest.saturating_sub(self.width)
    }

    // -----------------------------------------------------------------------
    // Moving about
    // -----------------------------------------------------------------------

    /// Brings the offsets into their bounds.
    pub fn clamp_offset(&mut self)
        ensures
            final(self)@ == old(self)@.clamped(),
            final(self).render == old(self).render,
    {
        self.offset = least(self.offset, self.max_offset());
        self.horizontal_offset = least(self.horizontal_offset, self.max_horizontal_offset());
    }

    /// Moves a page up.
    pub fn page_up(&mut self)
        ensures
            final(self)@ == old(self)@.scrolled_up(old(self)@.page_size()),
            final(self).render == old(self).render,
    {
        self.offset = self.offset.saturating_sub(self.page_size());
    }

    /// Moves a page down.
    pub fn page_down(&mut self)
        ensures
            final(self)@ == old(self)@.scrolled_down(old(self)@.page_size()),
            final(self).render == old(self).render,
    {
        self.offset = least(self.offset.saturating_add(self.page_size()), self.max_offset());
    }

    /// Moves `lines` lines up.
    pub fn scroll_up(&mut self, lines: usize)
        ensures
            final(self)@ == old(self)@.scrolled_up(lines as nat),
            final(self).render == old(self).render,
    {
        self.offset = self.offset.saturating_sub(lines);
    }

    /// Moves `lines` lines down.
    pub fn scroll_down(&mut self, lines: usize)
        ensures
            final(self)@ == old(self)@.scrolled_down(lines as nat),
            final(self).render == old(self).render,
    {
        self.offset = least(self.offset.saturating_add(lines), self.max_offset());
    }

    /// Moves to the first line.
    pub fn to_top(&mut self)
        ensures
            final(self)@ == old(self)@.at_top(),
            final(self).render == old(self).render,
    {
        self.offset = 0;
    }

    /// Moves to the last line.
    pub fn to_bottom(&mut self)
        ensures
            final(self)@ == old(self)@.at_bottom(),
            final(self).render == old(self).render,
    {
        self.offset = self.max_offset();
    }

    /// Moves a step to the left.
    pub fn scroll_left(&mut self)
        ensures
            final(self)@ == old(self)@.scrolled_left(),
            final(self).render == old(self).render,
    {
        self.horizontal_offset = self.horizontal_offset.saturating_sub(HORIZONTAL_SCROLL_COLUMNS);
    }

    /// Moves a step to the right.
    pub fn scroll_right(&mut self)
        ensures
            final(self)@ == old(self)@.scrolled_right(),
            final(self).render == old(self).render,
    {
        self.horizontal_offset = least(
            self.horizontal_offset.saturating_add(HORIZONTAL_SCROLL_COLUMNS),
            self.max_horizontal_offset(),
        );
    }

    // -----------------------------------------------------------------------
    // Files
    // -----------------------------------------------------------------------

    /// The file that the line at the top belongs to.
    pub fn current_top_file_index(&self) -> (index: Option<usize>)
        ensures
            self@.top_file() == match index {
                Some(index) => Some(index as nat),
                None => None,
            },
            index matches Some(index) ==> index < self.file_headers@.len(),
    {
        let ghost headers = files::header_views(self.file_headers@);
        let mut index: usize = self.file_headers.len();
        assert(headers.take(index as int) =~= headers);
        while index > 0
            invariant
                index <= self.file_headers@.len(),
                headers == files::header_views(self.file_headers@),
                view::last_header_above(headers, self.offset as nat) == view::last_header_above(
                    headers.take(index as int),
                    self.offset as nat,
                ),
            decreases index,
        {
            assert(headers.take(index as int).drop_last() =~= headers.take(index - 1));
            assert(headers[index - 1] == self.file_headers@[index - 1]@);
            if self.file_headers[index - 1].line <= self.offset {
                return Some(index - 1);
            }
            index -= 1;
        }
        if self.file_headers.len() > 0 {
            Some(0)
        } else {
            None
        }
    }

    /// The name of the file that the line at the top belongs to.
    pub fn current_top_file_name(&self) -> (name: Option<String>)
        ensures
            text_view(name) == self@.top_file_name(),
    {
        match self.current_top_file_index() {
            Some(index) => {
                assert(files::header_views(self.file_headers@)[index as int]
                    == self.file_headers@[index as int]@);
                Some(self.file_headers[index].name.clone())
            },
            None => None,
        }
    }

    /// Moves to the start of a file.
    pub fn jump_to_file_index(&mut self, index: usize)
        ensures
            final(self)@ == old(self)@.at_file(index as nat),
            final(self).render == old(self).render,
    {
        if index < self.file_headers.len() {
            assert(files::header_views(self.file_headers@)[index as int]
                == self.file_headers@[index as int]@);
            let line = self.file_headers[index].line;
            self.offset = if self.file_filter_open {
                line
            } else {
                least(line, self.max_offset())
            };
        }
    }

    /// Moves to the start of the file before.
    pub fn navigate_previous_file(&mut self)
        ensures
            final(self)@ == old(self)@.at_previous_file(),
            final(self).render == old(self).render,
    {
        match self.current_top_file_index() {
            None => {
                self.jump_to_file_index(0);
            },
            Some(current) => {
                if current > 0 {
                    self.jump_to_file_index(current - 1);
                }
            },
        }
    }

    /// Moves to the start of the next file.
    pub fn navigate_next_file(&mut self)
        ensures
            final(self)@ == old(self)@.at_next_file(),
            final(self).render == old(self).render,
    {
        match self.current_top_file_index() {
            None => {
                self.jump_to_file_index(0);
            },
            Some(current) => {
                if current < self.file_headers.len() - 1 {
                    self.jump_to_file_index(current + 1);
                }
            },
        }
    }

    /// The position of the first header with the given name.
    fn header_position(&self, name: &str) -> (index: usize)
        ensures
            index == view::header_named(files::header_views(self.file_headers@), name@),
    {
        let ghost headers = files::header_views(self.file_headers@);
        let mut index: usize = 0;
        assert(headers.skip(0) =~= headers);
        while index < self.file_headers.len()
            invariant
                index <= self.file_headers@.len(),
                headers == files::header_views(self.file_headers@),
                view::header_named(headers, name@) == index + view::header_named(
                    headers.skip(index as int),
                    name@,
                ),
            decreases self.file_headers@.len() - index,
        {
            assert(headers.skip(index as int).drop_first() =~= headers.skip(index + 1));
            assert(headers[index as int] == self.file_headers@[index as int]@);
            if same_text(self.file_headers[index].name.as_str(), name) {
                return index;
            }
            index += 1;
        }
        index
    }

    /// Moves to the start of the file with the given name, or of the first.
    pub fn restore_offset_for_file(&mut self, preferred_file: Option<String>)
        ensures
            final(self)@ == old(self)@.at_file_named(text_view(preferred_file)),
            final(self).render == old(self).render,
    {
        let index: usize = match &preferred_file {
            Some(name) => self.header_position(name.as_str()),
            None => self.file_headers.len(),
        };
        if index < self.file_headers.len() {
            self.jump_to_file_index(index);
        } else if self.file_headers.len() > 0 {
            self.jump_to_file_index(0);
        } else {
            self.offset = 0;
        }
    }

    // -----------------------------------------------------------------------
    // Searching
    // -----------------------------------------------------------------------

    /// The query of the search.
    pub fn search_query(&self) -> (query: Option<String>)
        ensures
            text_view(query) == match self@.search {
                SearchView::Inactive => None,
                SearchView::Prompt { query } => Some(query),
                SearchView::Active { query, matches, current } => Some(query),
            },
    {
        match &self.search {
            SearchMode::Prompt { query } => Some(query.clone()),
            SearchMode::Active { query, matches: _, current: _ } => Some(query.clone()),
            SearchMode::Inactive => None,
        }
    }

    /// The line of the match that the search is at, and its first byte.
    pub fn current_match_position(&self) -> (position: Option<(usize, usize)>)
        ensures
            match position {
                Some((line, start)) => self@.current_match() matches Some(found) && found.line
                    == line && found.start == start,
                None => self@.current_match() is None,
            },
    {
        match &self.search {
            SearchMode::Active { query: _, matches, current } => {
                if *current < matches.len() {
                    assert(search::match_views(matches@)[*current as int]
                        == matches@[*current as int]@);
                    Some((matches[*current].line, matches[*current].start))
                } else {
                    None
                }
            },
            _ => None,
        }
    }

    /// Scrolls to the side until a byte of a line is seen.
    pub fn reveal_line_column(&mut self, line_index: usize, plain_offset: usize)
        ensures
            final(self)@ == old(self)@.revealing(line_index as nat, plain_offset as nat),
            final(self).render == old(self).render,
    {
        if self.width == 0 || line_index >= self.plain_lines.len() {
            return;
        }
        assert(text::texts(self.plain_lines@)[line_index as int]
            == self.plain_lines@[line_index as int]@);
        let column = plain_offset_to_column(self.plain_lines[line_index].as_str(), plain_offset);
        if column < self.horizontal_offset {
            self.horizontal_offset = column;
        } else if column - self.horizontal_offset >= self.width {
            self.horizontal_offset = column - (self.width - 1);
        }
        self.horizontal_offset = least(self.horizontal_offset, self.max_horizontal_offset());
    }

    /// Moves to the match that the search is at.
    pub fn jump_to_current_match(&mut self)
        ensures
            final(self)@ == old(self)@.at_current_match(),
            final(self).render == old(self).render,
    {
        match self.current_match_position() {
            None => {},
            Some((line, start)) => {
                let anchor: usize = self.viewport_height() / 2;
                self.offset = least(line.saturating_sub(anchor), self.max_offset());
                self.reveal_line_column(line, start);
            },
        }
    }

    /// Makes the search that was typed.
    pub fn commit_search(&mut self)
        ensures
            final(self)@ == old(self)@.searched(),
            final(self).render == old(self).render,
    {
        let query = match &self.search {
            SearchMode::Prompt { query } => query.clone(),
            _ => {
                return;
            },
        };
        if query.as_str().is_empty() {
            self.search = SearchMode::Inactive;
            self.search_message = None;
            self.clamp_offset();
            return;
        }
        let matches = find_matches(self.plain_lines.as_slice(), query.as_str());
        self.search = SearchMode::Active { query, matches, current: 0 };
        self.search_message = None;
        self.jump_to_current_match();
    }

    /// Makes the search again.
    pub fn refresh_search_matches(&mut self)
        ensures
            final(self)@ == old(self)@.searched_again(),
            final(self).render == old(self).render,
    {
        let (query, current) = match &self.search {
            SearchMode::Active { query, matches: _, current } => (query.clone(), *current),
            _ => {
                return;
            },
        };
        let matches = find_matches(self.plain_lines.as_slice(), query.as_str());
        let current: usize = if matches.len() == 0 {
            0
        } else {
            least(current, matches.len() - 1)
        };
        self.search = SearchMode::Active { query, matches, current };
        self.search_message = None;
        self.jump_to_current_match();
    }

    /// Moves to another match.
    fn move_to_match(&mut self, index: usize)
        requires
            old(self)@.search is Active,
        ensures
            final(self)@ == old(self)@.with_search(
                old(self)@.search.at_match(index as nat),
            ).at_current_match(),
            final(self).render == old(self).render,
    {
        match &mut self.search {
            SearchMode::Active { query: _, matches: _, current } => {
                *current = index;
            },
            _ => {},
        }
        self.search_message = None;
        self.jump_to_current_match();
    }

    /// Moves to the next match, if there is one.
    pub fn next_match(&mut self)
        ensures
            final(self)@ == old(self)@.at_next_match(),
            final(self).render == old(self).render,
    {
        let (count, current) = match &self.search {
            SearchMode::Active { query: _, matches, current } => (matches.len(), *current),
            _ => {
                return;
            },
        };
        if count == 0 {
            return;
        }
        if current >= count - 1 {
            self.search_message = Some("end of file");
            return;
        }
        self.move_to_match(current + 1);
    }

    /// Moves to the match before, if there is one.
    pub fn previous_match(&mut self)
        ensures
            final(self)@ == old(self)@.at_previous_match(),
            final(self).render == old(self).render,
    {
        let (count, current) = match &self.search {
            SearchMode::Active { query: _, matches, current } => (matches.len(), *current),
            _ => {
                return;
            },
        };
        if count == 0 {
            return;
        }
        if current == 0 {
            self.search_message = Some("beginning of file");
            return;
        }
        self.move_to_match(current - 1);
    }
}

} // verus!
