//! What the pager shows, and how it changes.

use super::ansi;
use super::columns;
use super::files;
use super::files::HeaderView;
use super::hud;
use super::keys::ActionView;
use super::keys::KeyCode;
use super::keys::KeyModifiers;
use super::keys::PagerEvent;
use super::paint;
use super::paint::Painting;
use super::search;
use super::search::MatchView;
use crate::render::PaneLayout;
use crate::render::TintPalette;
use crate::terminal_palette::AnsiColor;
use crate::text;
use crate::unified_diff;
use vstd::prelude::*;

verus! {

broadcast use vstd::seq::group_seq_axioms;

/// The lines that a turn of the mouse wheel scrolls.
pub const MOUSE_SCROLL_LINES: usize = 3;

/// The columns that a step to the left or right scrolls.
pub const HORIZONTAL_SCROLL_COLUMNS: usize = 8;

/// The part of a line that can be selected.
#[derive(Clone, Copy, Debug, Eq, PartialEq, Structural)]
pub enum SelectionPane {
    Left,
    Right,
    Full,
}

/// Lines that are selected: from where the selection started to where it is
/// now.
#[derive(Clone, Copy, Debug, Eq, PartialEq, Structural)]
pub struct Selection {
    pub pane: SelectionPane,
    pub anchor_line: usize,
    pub extent_line: usize,
}

/// What is being searched for.
pub enum SearchView {
    Inactive,
    Prompt { query: Seq<char> },
    Active { query: Seq<char>, matches: Seq<MatchView>, current: nat },
}

impl SearchView {
    /// The search at another of its matches.
    pub open spec fn at_match(self, index: nat) -> SearchView {
        match self {
            SearchView::Active { query, matches, current } => SearchView::Active {
                query,
                matches,
                current: index,
            },
            _ => self,
        }
    }
}

/// What the pager shows.
pub struct PagerView {
    pub palette: TintPalette,
    pub lines: Seq<Seq<char>>,
    pub plain_lines: Seq<Seq<char>>,
    pub offset: nat,
    pub horizontal_offset: nat,
    pub width: nat,
    pub height: nat,
    pub search: SearchView,
    pub search_bg: Option<AnsiColor>,
    pub search_message: Option<Seq<char>>,
    pub all_files: Seq<Seq<char>>,
    pub visible_files: Seq<Seq<char>>,
    pub file_headers: Seq<HeaderView>,
    pub file_filter_query: Seq<char>,
    pub file_filter_open: bool,
    pub help_open: bool,
    pub selection: Option<Selection>,
    pub pane_layout: PaneLayout,
}

/// What a key did: either it is all done, or the diff has to be rendered anew.
pub enum KeyStep {
    Done { handled: bool, view: PagerView },
    Rerender { view: PagerView, preferred: Option<Seq<char>> },
}

/// What something that happened did: either it is all done, or the diff has to
/// be rendered anew.
pub enum EventStep {
    Done { action: ActionView, view: PagerView },
    Rerender { view: PagerView, preferred: Option<Seq<char>> },
}

/// `a` less `b`, but not less than zero.
pub open spec fn less(a: nat, b: nat) -> nat {
    if a >= b {
        (a - b) as nat
    } else {
        0
    }
}

/// The texts that lines show.
pub open spec fn shown_lines(list: Seq<Seq<char>>) -> Seq<Seq<char>> {
    list.map_values(|line: Seq<char>| ansi::shown_text(line))
}

/// The last header at or above line `offset`.
pub open spec fn last_header_above(headers: Seq<HeaderView>, offset: nat) -> Option<nat>
    decreases headers.len(),
{
    if headers.len() == 0 {
        None
    } else if headers.last().line <= offset {
        Some((headers.len() - 1) as nat)
    } else {
        last_header_above(headers.drop_last(), offset)
    }
}

/// The position of the first header with the given name, or the number of
/// headers.
pub open spec fn header_named(headers: Seq<HeaderView>, name: Seq<char>) -> nat
    decreases headers.len(),
{
    if headers.len() == 0 || headers[0].name == name {
        0
    } else {
        1 + header_named(headers.drop_first(), name)
    }
}

/// The matches in line `line`.
pub open spec fn matches_in(matches: Seq<MatchView>, line: nat) -> Seq<MatchView>
    decreases matches.len(),
{
    if matches.len() == 0 {
        Seq::empty()
    } else {
        let before = matches_in(matches.drop_last(), line);
        if matches.last().line == line {
            before.push(matches.last())
        } else {
            before
        }
    }
}

/// `list` without the empty texts at its end.
pub open spec fn without_empty_end(list: Seq<Seq<char>>) -> Seq<Seq<char>>
    decreases list.len(),
{
    if list.len() > 0 && list.last().len() == 0 {
        without_empty_end(list.drop_last())
    } else {
        list
    }
}

impl PagerView {
    /// The line at the top is one of the lines, or right behind the last, and
    /// what is shown fits what it was made from: the plain lines are the lines
    /// without their styles, the files shown are those that the filter lets
    /// through, and what a search found is what there is to be found.
    pub open spec fn wf(self) -> bool {
        &&& self.offset <= self.lines.len()
        &&& self.plain_lines == shown_lines(self.lines)
        &&& self.visible_files == unified_diff::matching(self.all_files, self.file_filter_query)
        &&& self.file_headers == files::header_lines(self.plain_lines, self.visible_files)
        &&& self.search matches SearchView::Active { query, matches, current } ==> {
            &&& matches == search::all_matches(self.plain_lines, query)
            &&& current < matches.len() || (matches.len() == 0 && current == 0)
        }
    }

    // -----------------------------------------------------------------------
    // Sizes
    // -----------------------------------------------------------------------

    /// The rows that the bottom of the screen takes away from the lines.
    pub open spec fn hud_height(self) -> nat {
        if self.file_filter_open {
            hud::smaller(
                self.visible_files.len() + 1,
                if self.height >= 2 {
                    (self.height - 1) as nat
                } else {
                    1
                },
            )
        } else if !(self.search is Inactive) {
            1
        } else {
            0
        }
    }

    /// The rows that are left for the lines.
    pub open spec fn viewport_height(self) -> nat {
        less(self.height, self.hud_height())
    }

    /// The lines that a page has, at least one.
    pub open spec fn page_size(self) -> nat {
        if self.viewport_height() >= 1 {
            self.viewport_height()
        } else {
            1
        }
    }

    /// The offset at which the last line is at the bottom.
    pub open spec fn max_offset(self) -> nat {
        less(self.lines.len(), self.viewport_height())
    }

    /// The offset at which the end of the widest line is at the right edge.
    pub open spec fn max_horizontal_offset(self) -> nat {
        if self.width == 0 {
            0
        } else {
            less(hud::widest(self.plain_lines), self.width)
        }
    }

    // -----------------------------------------------------------------------
    // Moving about
    // -----------------------------------------------------------------------

    /// The view with its offsets within their bounds.
    pub open spec fn clamped(self) -> PagerView {
        PagerView {
            offset: hud::smaller(self.offset, self.max_offset()),
            horizontal_offset: hud::smaller(self.horizontal_offset, self.max_horizontal_offset()),
            ..self
        }
    }

    /// `count` lines further up.
    pub open spec fn scrolled_up(self, count: nat) -> PagerView {
        PagerView { offset: less(self.offset, count), ..self }
    }

    /// `count` lines further down.
    pub open spec fn scrolled_down(self, count: nat) -> PagerView {
        PagerView { offset: hud::smaller(self.offset + count, self.max_offset()), ..self }
    }

    /// At the first line.
    pub open spec fn at_top(self) -> PagerView {
        PagerView { offset: 0, ..self }
    }

    /// At the last line.
    pub open spec fn at_bottom(self) -> PagerView {
        PagerView { offset: self.max_offset(), ..self }
    }

    /// One step further to the left.
    pub open spec fn scrolled_left(self) -> PagerView {
        PagerView {
            horizontal_offset: less(self.horizontal_offset, HORIZONTAL_SCROLL_COLUMNS as nat),
            ..self
        }
    }

    /// One step further to the right.
    pub open spec fn scrolled_right(self) -> PagerView {
        PagerView {
            horizontal_offset: hud::smaller(
                self.horizontal_offset + HORIZONTAL_SCROLL_COLUMNS as nat,
                self.max_horizontal_offset(),
            ),
            ..self
        }
    }

    // -----------------------------------------------------------------------
    // Files
    // -----------------------------------------------------------------------

    /// The file that the line at the top belongs to: the first one if the line
    /// stands above all files.
    pub open spec fn top_file(self) -> Option<nat> {
        match last_header_above(self.file_headers, self.offset) {
            Some(index) => Some(index),
            None => if self.file_headers.len() > 0 {
                Some(0)
            } else {
                None
            },
        }
    }

    /// The name of the file that the line at the top belongs to.
    pub open spec fn top_file_name(self) -> Option<Seq<char>> {
        match self.top_file() {
            Some(index) => Some(self.file_headers[index as int].name),
            None => None,
        }
    }

    /// At the start of a file. While files are being filtered this may leave
    /// rows at the bottom empty.
    pub open spec fn at_file(self, index: nat) -> PagerView {
        if index < self.file_headers.len() {
            let line = self.file_headers[index as int].line;
            PagerView {
                offset: if self.file_filter_open {
                    line
                } else {
                    hud::smaller(line, self.max_offset())
                },
                ..self
            }
        } else {
            self
        }
    }

    /// At the start of the file before.
    pub open spec fn at_previous_file(self) -> PagerView {
        match self.top_file() {
            None => self.at_file(0),
            Some(current) => if current > 0 {
                self.at_file((current - 1) as nat)
            } else {
                self
            },
        }
    }

    /// At the start of the next file.
    pub open spec fn at_next_file(self) -> PagerView {
        match self.top_file() {
            None => self.at_file(0),
            Some(current) => if current + 1 < self.file_headers.len() {
                self.at_file(current + 1)
            } else {
                self
            },
        }
    }

    /// At the start of the file with the given name, or of the first file.
    pub open spec fn at_file_named(self, preferred: Option<Seq<char>>) -> PagerView {
        let index = match preferred {
            Some(name) => header_named(self.file_headers, name),
            None => self.file_headers.len(),
        };
        if index < self.file_headers.len() {
            self.at_file(index)
        } else if self.file_headers.len() > 0 {
            self.at_file(0)
        } else {
            self.at_top()
        }
    }

    // -----------------------------------------------------------------------
    // Searching
    // -----------------------------------------------------------------------

    /// The view in another state of searching.
    pub open spec fn with_search(self, search: SearchView) -> PagerView {
        PagerView { search, search_message: None, ..self }
    }

    /// The match that the search is at.
    pub open spec fn current_match(self) -> Option<MatchView> {
        match self.search {
            SearchView::Active { query, matches, current } => if current < matches.len() {
                Some(matches[current as int])
            } else {
                None
            },
            _ => None,
        }
    }

    /// Scrolled so far to the side that byte `offset` of line `line` is seen.
    pub open spec fn revealing(self, line: nat, offset: nat) -> PagerView {
        if self.width == 0 || line >= self.plain_lines.len() {
            self
        } else {
            let column = columns::column_of_byte(self.plain_lines[line as int], offset);
            let wanted = if column < self.horizontal_offset {
                column
            } else if column >= self.horizontal_offset + self.width {
                (column + 1 - self.width) as nat
            } else {
                self.horizontal_offset
            };
            PagerView {
                horizontal_offset: hud::smaller(wanted, self.max_horizontal_offset()),
                ..self
            }
        }
    }

    /// At the match that the search is at: in the middle of the screen, as far
    /// as the lines allow.
    pub open spec fn at_current_match(self) -> PagerView {
        match self.current_match() {
            None => self,
            Some(found) => {
                let moved = PagerView {
                    offset: hud::smaller(
                        less(found.line, self.viewport_height() / 2),
                        self.max_offset(),
                    ),
                    ..self
                };
                moved.revealing(found.line, found.start)
            },
        }
    }

    /// The search that was being typed is made.
    pub open spec fn searched(self) -> PagerView {
        match self.search {
            SearchView::Prompt { query } => if query.len() == 0 {
                self.with_search(SearchView::Inactive).clamped()
            } else {
                self.with_search(
                    SearchView::Active {
                        query,
                        matches: search::all_matches(self.plain_lines, query),
                        current: 0,
                    },
                ).at_current_match()
            },
            _ => self,
        }
    }

    /// The search is made again among lines that have changed.
    pub open spec fn searched_again(self) -> PagerView {
        match self.search {
            SearchView::Active { query, matches, current } => {
                let found = search::all_matches(self.plain_lines, query);
                self.with_search(
                    SearchView::Active {
                        query,
                        matches: found,
                        current: if found.len() == 0 {
                            0
                        } else {
                            hud::smaller(current, (found.len() - 1) as nat)
                        },
                    },
                ).at_current_match()
            },
            _ => self,
        }
    }

    /// At the next match. Behind the last there is none: a message says so.
    pub open spec fn at_next_match(self) -> PagerView {
        match self.search {
            SearchView::Active { query, matches, current } => if matches.len() == 0 {
                self
            } else if current + 1 >= matches.len() {
                PagerView { search_message: Some("end of file"@), ..self }
            } else {
                self.with_search(self.search.at_match(current + 1)).at_current_match()
            },
            _ => self,
        }
    }

    /// At the match before. Before the first there is none: a message says so.
    pub open spec fn at_previous_match(self) -> PagerView {
        match self.search {
            SearchView::Active { query, matches, current } => if matches.len() == 0 {
                self
            } else if current == 0 {
                PagerView { search_message: Some("beginning of file"@), ..self }
            } else {
                self.with_search(self.search.at_match((current - 1) as nat)).at_current_match()
            },
            _ => self,
        }
    }

    // -----------------------------------------------------------------------
    // Rendering anew
    // -----------------------------------------------------------------------

    /// The view of another rendering. It stays at the match that the search is
    /// at, or else at the start of the file that was preferred.
    pub open spec fn with_output(
        self,
        output: Seq<char>,
        layout: PaneLayout,
        preferred: Option<Seq<char>>,
    ) -> PagerView {
        let lines = text::lines(output);
        let plain_lines = shown_lines(lines);
        let visible_files = unified_diff::matching(self.all_files, self.file_filter_query);
        let shown = PagerView {
            lines,
            plain_lines,
            visible_files,
            file_headers: files::header_lines(plain_lines, visible_files),
            pane_layout: layout,
            ..self
        };
        if shown.search is Active {
            shown.searched_again().clamped()
        } else {
            shown.at_file_named(preferred).clamped()
        }
    }

    /// The view for a screen of another size. Another width asks for another
    /// rendering.
    pub open spec fn resized(self, width: nat, height: nat) -> KeyStep {
        let sized = PagerView { width, height, ..self };
        if self.width != width || self.lines.len() == 0 {
            KeyStep::Rerender { view: sized, preferred: self.top_file_name() }
        } else {
            KeyStep::Done { handled: true, view: sized.clamped() }
        }
    }

    /// The view in other colors, which ask for another rendering.
    pub open spec fn recolored(
        self,
        palette: TintPalette,
        search_bg: Option<AnsiColor>,
    ) -> KeyStep {
        if self.palette == palette && self.search_bg == search_bg {
            KeyStep::Done { handled: true, view: self }
        } else {
            KeyStep::Rerender {
                view: PagerView { palette, search_bg, ..self },
                preferred: self.top_file_name(),
            }
        }
    }

    /// The view with another filter, which asks for another rendering.
    pub open spec fn filtered_by(self, query: Seq<char>) -> KeyStep {
        KeyStep::Rerender {
            view: PagerView {
                file_filter_query: query,
                ..self.with_search(SearchView::Inactive)
            },
            preferred: self.top_file_name(),
        }
    }

    // -----------------------------------------------------------------------
    // Keys
    // -----------------------------------------------------------------------

    /// What a key does to the search; nothing if the search has no use for it.
    pub open spec fn search_key(self, code: KeyCode) -> Option<PagerView> {
        match (self.search, code) {
            (SearchView::Inactive, KeyCode::Char(ch)) => if ch == '/' {
                Some(
                    PagerView {
                        file_filter_open: false,
                        ..self.with_search(SearchView::Prompt { query: Seq::empty() })
                    },
                )
            } else {
                None
            },
            (SearchView::Prompt { query }, KeyCode::Esc) => Some(
                self.with_search(SearchView::Inactive).clamped(),
            ),
            (SearchView::Prompt { query }, KeyCode::Backspace) => Some(
                self.with_search(
                    SearchView::Prompt {
                        query: if query.len() > 0 {
                            query.drop_last()
                        } else {
                            query
                        },
                    },
                ),
            ),
            (SearchView::Prompt { query }, KeyCode::Enter) => Some(self.searched()),
            (SearchView::Prompt { query }, KeyCode::Char(ch)) => Some(
                self.with_search(SearchView::Prompt { query: query.push(ch) }),
            ),
            (SearchView::Active { query, matches, current }, KeyCode::Esc) => Some(
                self.with_search(SearchView::Inactive).clamped(),
            ),
            (SearchView::Active { query, matches, current }, KeyCode::Char(ch)) => if ch == '/' {
                Some(self.with_search(SearchView::Prompt { query }))
            } else if ch == 'n' {
                Some(self.at_next_match())
            } else if ch == 'N' {
                Some(self.at_previous_match())
            } else {
                None
            },
            _ => None,
        }
    }

    /// What a key does while files are being filtered.
    pub open spec fn filter_key(self, code: KeyCode, modifiers: KeyModifiers) -> KeyStep {
        match code {
            KeyCode::Esc | KeyCode::Enter => KeyStep::Done {
                handled: true,
                view: (PagerView { file_filter_open: false, ..self }).clamped(),
            },
            KeyCode::Backspace => self.filtered_by(
                if self.file_filter_query.len() > 0 {
                    self.file_filter_query.drop_last()
                } else {
                    self.file_filter_query
                },
            ),
            KeyCode::Up => KeyStep::Done { handled: true, view: self.at_previous_file() },
            KeyCode::Down => KeyStep::Done { handled: true, view: self.at_next_file() },
            KeyCode::Home => KeyStep::Done { handled: true, view: self.at_file(0) },
            KeyCode::End => KeyStep::Done {
                handled: true,
                view: if self.file_headers.len() > 0 {
                    self.at_file((self.file_headers.len() - 1) as nat)
                } else {
                    self
                },
            },
            KeyCode::Char(ch) => if modifiers is Plain {
                self.filtered_by(self.file_filter_query.push(ch))
            } else {
                KeyStep::Done { handled: false, view: self }
            },
            _ => KeyStep::Done { handled: false, view: self },
        }
    }

    /// The view with the file filter open.
    pub open spec fn filtering(self) -> PagerView {
        PagerView {
            file_filter_open: true,
            offset: if self.visible_files.len() == 0 {
                0
            } else {
                self.offset
            },
            ..self.with_search(SearchView::Inactive)
        }
    }

    /// What a key does to the help, the file filter and the search, of which
    /// the first that is open takes it.
    pub open spec fn hud_key(self, code: KeyCode, modifiers: KeyModifiers) -> KeyStep {
        if self.help_open {
            KeyStep::Done {
                handled: true,
                view: PagerView {
                    help_open: !(code == KeyCode::Char('?') || code is Esc),
                    ..self
                },
            }
        } else if code == KeyCode::Char('?') {
            KeyStep::Done { handled: true, view: PagerView { help_open: true, ..self } }
        } else if modifiers is Control && code == KeyCode::Char('f') {
            KeyStep::Done { handled: true, view: self.filtering() }
        } else if self.file_filter_open {
            self.filter_key(code, modifiers)
        } else {
            match self.search_key(code) {
                Some(view) => KeyStep::Done { handled: true, view },
                None => KeyStep::Done { handled: false, view: self },
            }
        }
    }

    /// What a key does that nothing else has a use for.
    pub open spec fn main_key(self, code: KeyCode) -> EventStep {
        let view = match code {
            KeyCode::Up | KeyCode::PageUp => self.scrolled_up(self.page_size()),
            KeyCode::Down | KeyCode::PageDown => self.scrolled_down(self.page_size()),
            KeyCode::Left => self.scrolled_left(),
            KeyCode::Right => self.scrolled_right(),
            KeyCode::Home => self.at_top(),
            KeyCode::End => self.at_bottom(),
            KeyCode::Char(ch) => if ch == ' ' {
                self.scrolled_down(self.page_size())
            } else if ch == 'g' {
                self.at_top()
            } else if ch == 'G' {
                self.at_bottom()
            } else {
                self
            },
            _ => self,
        };
        EventStep::Done {
            action: if code is Esc || code == KeyCode::Char('q') {
                ActionView::Quit
            } else {
                ActionView::Continue
            },
            view,
        }
    }

    /// The line that row `row` of the screen shows, or that below it the last
    /// row shows.
    pub open spec fn line_of_row(self, row: nat) -> nat {
        self.offset + hud::smaller(row, less(self.viewport_height(), 1))
    }

    /// The view with the selection going on to line `line`.
    pub open spec fn selecting_to(self, line: nat) -> PagerView {
        match self.selection {
            Some(selection) => PagerView {
                selection: Some(Selection { extent_line: line as usize, ..selection }),
                ..self
            },
            None => self,
        }
    }

    /// What the mouse does. It does nothing while the help is open.
    pub open spec fn mouse_event(self, event: PagerEvent) -> EventStep {
        let nothing = EventStep::Done { action: ActionView::Continue, view: self };
        if self.help_open {
            nothing
        } else {
            match event {
                PagerEvent::ScrollUp => EventStep::Done {
                    action: ActionView::Continue,
                    view: self.scrolled_up(MOUSE_SCROLL_LINES as nat),
                },
                PagerEvent::ScrollDown => EventStep::Done {
                    action: ActionView::Continue,
                    view: self.scrolled_down(MOUSE_SCROLL_LINES as nat),
                },
                PagerEvent::Press { row, column } => if row < self.viewport_height() {
                    let line = (self.offset + row) as usize;
                    EventStep::Done {
                        action: ActionView::Continue,
                        view: PagerView {
                            selection: Some(
                                Selection {
                                    pane: self.pane_at(self.horizontal_offset + column as nat),
                                    anchor_line: line,
                                    extent_line: line,
                                },
                            ),
                            ..self
                        },
                    }
                } else {
                    nothing
                },
                PagerEvent::Drag { row } => EventStep::Done {
                    action: ActionView::Continue,
                    view: self.selecting_to(self.line_of_row(row as nat)),
                },
                PagerEvent::Release { row } => {
                    let selected = self.selecting_to(self.line_of_row(row as nat)).selected_text();
                    EventStep::Done {
                        action: if selected.len() == 0 {
                            ActionView::Continue
                        } else {
                            ActionView::Copy(selected)
                        },
                        view: PagerView { selection: None, ..self },
                    }
                },
                _ => nothing,
            }
        }
    }

    /// What a key does. It takes the selection away.
    pub open spec fn key_event(self, code: KeyCode, modifiers: KeyModifiers) -> EventStep {
        let unselected = PagerView { selection: None, ..self };
        match unselected.hud_key(code, modifiers) {
            KeyStep::Rerender { view, preferred } => EventStep::Rerender { view, preferred },
            KeyStep::Done { handled, view } => if handled {
                EventStep::Done { action: ActionView::Continue, view }
            } else {
                view.main_key(code)
            },
        }
    }

    /// What it does that the terminal has the focus again.
    pub open spec fn focus_event(
        self,
        palette: TintPalette,
        search_bg: Option<AnsiColor>,
    ) -> EventStep {
        match self.recolored(palette, search_bg) {
            KeyStep::Rerender { view, preferred } => EventStep::Rerender { view, preferred },
            KeyStep::Done { handled, view } => EventStep::Done {
                action: ActionView::Continue,
                view,
            },
        }
    }

    /// What something that happened at the terminal does.
    pub open spec fn event(self, event: PagerEvent) -> EventStep {
        match event {
            PagerEvent::Key { code, modifiers } => self.key_event(code, modifiers),
            PagerEvent::Focus { palette, search_bg } => self.focus_event(palette, search_bg),
            _ => self.mouse_event(event),
        }
    }

    // -----------------------------------------------------------------------
    // The screen
    // -----------------------------------------------------------------------

    /// The matches in line `line`.
    pub open spec fn matches_in_line(self, line: nat) -> Seq<MatchView> {
        match self.search {
            SearchView::Active { query, matches, current } => matches_in(matches, line),
            _ => Seq::empty(),
        }
    }

    /// The columns that are selected in any line of the selection.
    pub open spec fn pane_columns(self, pane: SelectionPane) -> (nat, nat) {
        match pane {
            SelectionPane::Full => (self.pane_layout.content_start as nat, usize::MAX as nat),
            SelectionPane::Left => (0, self.pane_layout.left_end as nat),
            SelectionPane::Right => (self.pane_layout.right_start as nat, usize::MAX as nat),
        }
    }

    /// The columns that are selected in line `line`.
    pub open spec fn selected_columns(self, line: nat) -> Option<(nat, nat)> {
        match self.selection {
            None => None,
            Some(selection) => if selection.anchor_line <= line <= selection.extent_line
                || selection.extent_line <= line <= selection.anchor_line {
                Some(self.pane_columns(selection.pane))
            } else {
                None
            },
        }
    }

    /// The column at which the text of the diff starts: behind the line numbers
    /// of a single column, or at the right side.
    pub open spec fn text_start(self) -> nat {
        let layout = self.pane_layout;
        if layout.content_start >= layout.right_start {
            layout.content_start as nat
        } else {
            layout.right_start as nat
        }
    }

    /// Row `row` of the screen, if a line is there.
    pub open spec fn screen_row(self, row: nat) -> Option<Seq<char>> {
        let line = self.offset + row;
        if line < self.lines.len() {
            Some(
                (Painting {
                    start_col: self.horizontal_offset,
                    width: self.width,
                    matches: self.matches_in_line(line),
                    search_bg: self.search_bg,
                    selection: self.selected_columns(line),
                    content_start: self.text_start(),
                }).line(ansi::cells_of(self.lines[line as int])),
            )
        } else {
            None
        }
    }

    /// The pane that the column `column` of a line belongs to.
    pub open spec fn pane_at(self, column: nat) -> SelectionPane {
        if self.pane_layout.left_end == 0 {
            SelectionPane::Full
        } else if self.pane_layout.left_end <= column && self.pane_layout.right_start <= column {
            SelectionPane::Right
        } else {
            SelectionPane::Left
        }
    }

    /// The text that is selected: of each line the part in the pane, without
    /// the white space at its end, and without empty lines at the end.
    pub open spec fn selected_text(self) -> Seq<char> {
        match self.selection {
            None => Seq::empty(),
            Some(selection) => {
                let (first, last) = if selection.anchor_line <= selection.extent_line {
                    (selection.anchor_line as nat, selection.extent_line as nat)
                } else {
                    (selection.extent_line as nat, selection.anchor_line as nat)
                };
                let (from, to) = self.pane_columns(selection.pane);
                let end = hud::smaller(last + 1, self.plain_lines.len());
                let parts = Seq::new(
                    less(end, first),
                    |i: int|
                        text::trim_end(
                            columns::column_range(self.plain_lines[first + i], 0, from, to),
                        ),
                );
                text::join(without_empty_end(parts), "\n"@)
            },
        }
    }

    /// What the bottom row says about the matches.
    pub open spec fn search_status(self) -> Seq<char> {
        let counts = match self.search {
            SearchView::Active { query, matches, current } => if matches.len() == 0 {
                "0/0"@
            } else {
                text::decimal(current + 1) + "/"@ + text::decimal(matches.len())
            },
            _ => Seq::empty(),
        };
        match self.search_message {
            Some(message) => counts + " "@ + message,
            None => counts,
        }
    }

    /// The first file in the list of files: the list is scrolled so far that
    /// the file at the top is in it.
    pub open spec fn list_start(self) -> nat {
        let rows = less(self.hud_height(), 1);
        if self.visible_files.len() <= rows {
            0
        } else {
            hud::smaller(
                match self.top_file() {
                    Some(index) => index,
                    None => 0,
                },
                (self.visible_files.len() - rows) as nat,
            )
        }
    }

    /// Row `i` of the list of files. The file at the top is bold.
    pub open spec fn list_row(self, i: int) -> Seq<char> {
        let at = self.list_start() + i;
        if at < self.visible_files.len() {
            let file = self.visible_files[at];
            hud::hud_row(
                "  "@ + file,
                self.width,
                self.search_bg,
                self.top_file_name() == Some(file),
            )
        } else {
            hud::hud_row(Seq::empty(), self.width, self.search_bg, false)
        }
    }

    /// The text of the row in which the filter is typed.
    pub open spec fn filter_prompt(self) -> Seq<char> {
        "› "@ + self.file_filter_query
    }

    /// The rows at the bottom of the screen.
    pub open spec fn hud_rows(self) -> Seq<Seq<char>> {
        if self.file_filter_open {
            Seq::new(less(self.hud_height(), 1), |i: int| self.list_row(i)).push(
                hud::hud_row(self.filter_prompt(), self.width, self.search_bg, false),
            )
        } else {
            match self.search {
                SearchView::Inactive => Seq::empty(),
                SearchView::Prompt { query } => seq![
                    hud::hud_row(
                        hud::search_text(query, self.width, None),
                        self.width,
                        self.search_bg,
                        false,
                    ),
                ],
                SearchView::Active { query, matches, current } => seq![
                    hud::hud_row(
                        hud::search_text(query, self.width, Some(self.search_status())),
                        self.width,
                        self.search_bg,
                        false,
                    ),
                ],
            }
        }
    }

    /// Where something is being typed: the column and the row.
    pub open spec fn cursor(self) -> Option<(nat, nat)> {
        let prompt = if self.file_filter_open {
            Some(self.filter_prompt())
        } else {
            match self.search {
                SearchView::Prompt { query } => Some("/"@ + query),
                _ => None,
            }
        };
        match prompt {
            Some(prompt) if !self.help_open => Some(
                (paint::columns(paint::clip(prompt, self.width)), less(self.height, 1)),
            ),
            _ => None,
        }
    }
}

} // verus!
