//! What keys and the other things that happen at a terminal do to the pager.

use super::files::build_file_header_lines;
use super::files::filter_file_names;
use super::keys::ActionView;
use super::keys::KeyCode;
use super::keys::KeyModifiers;
use super::keys::PagerAction;
use super::keys::PagerEvent;
use super::laws;
use super::state;
use super::state::rebuild_plain_lines;
use super::state::PagerState;
use super::state::SearchMode;
use super::view::EventStep;
use super::view::KeyStep;
use super::view::PagerView;
use super::view::SearchView;
use super::view::Selection;
use super::view::MOUSE_SCROLL_LINES;
use crate::render::PaneLayout;
use crate::render::TintPalette;
use crate::terminal_palette::AnsiColor;
use crate::text;
use crate::text::split_lines;
use vstd::prelude::*;

verus! {

broadcast use vstd::seq::group_seq_axioms;

impl<F> PagerState<F> where F: Fn(usize, &str, &TintPalette) -> (String, PaneLayout) {
    // -----------------------------------------------------------------------
    // Rendering anew
    // -----------------------------------------------------------------------

    /// Shows another rendering.
    pub fn show_output(
        &mut self,
        output: String,
        layout: PaneLayout,
        preferred_file: Option<String>,
    )
        ensures
            final(self)@ == old(self)@.with_output(
                output@,
                layout,
                state::text_view(preferred_file),
            ),
            final(self)@.wf(),
            final(self).render == old(self).render,
    {
        proof {
            laws::lemma_output_is_shown(
                self@,
                output@,
                layout,
                state::text_view(preferred_file),
            );
        }
        self.pane_layout = layout;
        self.lines = split_lines(output.as_str());
        self.plain_lines = rebuild_plain_lines(&self.lines);
        self.visible_files = filter_file_names(
            self.all_files.as_slice(),
            self.file_filter_query.as_str(),
        );
        self.file_headers = build_file_header_lines(
            self.plain_lines.as_slice(),
            self.visible_files.as_slice(),
        );
        let searching = match &self.search {
            SearchMode::Active { query: _, matches: _, current: _ } => true,
            _ => false,
        };
        if searching {
            self.refresh_search_matches();
        } else {
            self.restore_offset_for_file(preferred_file);
        }
        self.clamp_offset();
    }

    /// Renders the diff anew, for the present width, filter and palette, and
    /// shows what came of it.
    pub fn rerender(&mut self, preferred_file: Option<String>)
        requires
            old(self).renders(),
        ensures
            old(self).rerendered(
                old(self)@,
                state::text_view(preferred_file),
                final(self)@,
            ),
            final(self)@.wf(),
            final(self).render == old(self).render,
    {
        let ghost before = *self;
        let palette = self.palette;
        let made = (self.render)(self.width, self.file_filter_query.as_str(), &palette);
        assert(exists|query: &str, shown: &TintPalette|
            query@ == before@.file_filter_query && *shown == before@.palette && #[trigger]
            call_ensures(before.render, (before@.width as usize, query, shown), made));
        let ghost (query, shown) = choose|query: &str, shown: &TintPalette|
            query@ == before@.file_filter_query && *shown == before@.palette && #[trigger]
            call_ensures(before.render, (before@.width as usize, query, shown), made);
        let (output, layout) = made;
        self.show_output(output, layout, preferred_file);
        assert(call_ensures(before.render, (before@.width as usize, query, shown), made));
    }

    /// Shows a diff that changed, and now has `files`.
    pub fn apply_files(&mut self, files: Vec<String>)
        requires
            old(self).renders(),
        ensures
            old(self).rerendered(
                (PagerView { all_files: text::texts(files@), ..old(self)@ }),
                old(self)@.top_file_name(),
                final(self)@,
            ),
            final(self)@.wf(),
            final(self).render == old(self).render,
    {
        let preferred = self.current_top_file_name();
        self.all_files = files;
        self.rerender(preferred);
    }

    /// Sets the size of the screen.
    pub fn set_dimensions(&mut self, width: usize, height: usize)
        requires
            old(self).renders(),
        ensures
            old(self).stepped(
                old(self)@.resized(width as nat, height as nat),
                final(self)@,
            ),
            old(self)@.wf() ==> final(self)@.wf(),
            final(self).render == old(self).render,
    {
        let width_changed = self.width != width || self.lines.len() == 0;
        self.width = width;
        self.height = height;
        if width_changed {
            let preferred = self.current_top_file_name();
            self.rerender(preferred);
        } else {
            self.clamp_offset();
        }
    }

    /// Sets the colors.
    pub fn apply_palette(&mut self, palette: TintPalette, search_bg: Option<AnsiColor>)
        requires
            old(self).renders(),
        ensures
            old(self).stepped(old(self)@.recolored(palette, search_bg), final(self)@),
            old(self)@.wf() ==> final(self)@.wf(),
            final(self).render == old(self).render,
    {
        if self.palette == palette && self.search_bg == search_bg {
            return;
        }
        let preferred = self.current_top_file_name();
        self.palette = palette;
        self.search_bg = search_bg;
        self.rerender(preferred);
    }

    /// Sets the file filter.
    pub fn apply_file_filter_query(&mut self, query: String)
        requires
            old(self).renders(),
        ensures
            old(self).stepped(old(self)@.filtered_by(query@), final(self)@),
            final(self)@.wf(),
            final(self).render == old(self).render,
    {
        let preferred = self.current_top_file_name();
        self.file_filter_query = query;
        self.search = SearchMode::Inactive;
        self.search_message = None;
        self.rerender(preferred);
    }

    // -----------------------------------------------------------------------
    // Keys
    // -----------------------------------------------------------------------

    /// Opens the file filter.
    pub fn open_file_filter(&mut self)
        ensures
            final(self)@ == old(self)@.filtering(),
            final(self).render == old(self).render,
    {
        self.search = SearchMode::Inactive;
        self.search_message = None;
        self.file_filter_open = true;
        if self.visible_files.len() == 0 {
            self.offset = 0;
        }
    }

    /// Hands a key to the file filter. Tells whether it had a use for it.
    pub fn handle_file_filter_key(&mut self, code: KeyCode, modifiers: KeyModifiers) -> (handled:
        bool)
        requires
            old(self).renders(),
        ensures
            old(self).stepped(old(self)@.filter_key(code, modifiers), final(self)@),
            handled == !(old(self)@.filter_key(code, modifiers) matches KeyStep::Done {
                handled: used,
                view,
            } && !used),
            old(self)@.wf() ==> final(self)@.wf(),
            final(self).render == old(self).render,
    {
        proof {
            if self@.wf() {
                laws::lemma_filter_key_keeps_wf(self@, code, modifiers);
            }
        }
        match code {
            KeyCode::Esc | KeyCode::Enter => {
                self.file_filter_open = false;
                self.clamp_offset();
                true
            },
            KeyCode::Backspace => {
                let mut query = self.file_filter_query.clone();
                query.pop();
                self.apply_file_filter_query(query);
                true
            },
            KeyCode::Up => {
                self.navigate_previous_file();
                true
            },
            KeyCode::Down => {
                self.navigate_next_file();
                true
            },
            KeyCode::Home => {
                self.jump_to_file_index(0);
                true
            },
            KeyCode::End => {
                if self.file_headers.len() > 0 {
                    self.jump_to_file_index(self.file_headers.len() - 1);
                }
                true
            },
            KeyCode::Char(ch) => {
                if modifiers == KeyModifiers::Plain {
                    let mut query = self.file_filter_query.clone();
                    query.push(ch);
                    self.apply_file_filter_query(query);
                    true
                } else {
                    false
                }
            },
            _ => false,
        }
    }

    /// Leaves the search.
    fn leave_search(&mut self)
        ensures
            final(self)@ == old(self)@.with_search(SearchView::Inactive).clamped(),
            final(self).render == old(self).render,
    {
        self.search = SearchMode::Inactive;
        self.search_message = None;
        self.clamp_offset();
    }

    /// Sets the query that is being typed.
    fn prompt_for(&mut self, query: String)
        ensures
            final(self)@ == old(self)@.with_search(SearchView::Prompt { query: query@ }),
            final(self).render == old(self).render,
    {
        self.search = SearchMode::Prompt { query };
        self.search_message = None;
    }

    /// Hands a key to the search. Tells whether it had a use for it.
    pub fn handle_search_key(&mut self, code: KeyCode) -> (handled: bool)
        ensures
            match old(self)@.search_key(code) {
                Some(view) => handled && final(self)@ == view,
                None => !handled && final(self)@ == old(self)@,
            },
            old(self)@.wf() ==> final(self)@.wf(),
            final(self).render == old(self).render,
    {
        proof {
            if self@.wf() {
                laws::lemma_search_key_keeps_wf(self@, code);
            }
        }
        match &self.search {
            SearchMode::Inactive => match code {
                KeyCode::Char(ch) => {
                    if ch == '/' {
                        self.file_filter_open = false;
                        let query = String::new();
                        assert(query@ =~= Seq::<char>::empty());
                        self.prompt_for(query);
                        true
                    } else {
                        false
                    }
                },
                _ => false,
            },
            SearchMode::Prompt { query } => {
                let mut query = query.clone();
                match code {
                    KeyCode::Esc => {
                        self.leave_search();
                        true
                    },
                    KeyCode::Backspace => {
                        query.pop();
                        self.prompt_for(query);
                        true
                    },
                    KeyCode::Enter => {
                        self.commit_search();
                        true
                    },
                    KeyCode::Char(ch) => {
                        query.push(ch);
                        self.prompt_for(query);
                        true
                    },
                    _ => false,
                }
            },
            SearchMode::Active { query, matches: _, current: _ } => {
                let query = query.clone();
                match code {
                    KeyCode::Esc => {
                        self.leave_search();
                        true
                    },
                    KeyCode::Char(ch) => {
                        if ch == '/' {
                            self.prompt_for(query);
                            true
                        } else if ch == 'n' {
                            self.next_match();
                            true
                        } else if ch == 'N' {
                            self.previous_match();
                            true
                        } else {
                            false
                        }
                    },
                    _ => false,
                }
            },
        }
    }

    /// Hands a key to the help, the file filter and the search. Tells whether
    /// one of them had a use for it.
    pub fn handle_hud_key(&mut self, code: KeyCode, modifiers: KeyModifiers) -> (handled: bool)
        requires
            old(self).renders(),
        ensures
            old(self).stepped(old(self)@.hud_key(code, modifiers), final(self)@),
            handled == !(old(self)@.hud_key(code, modifiers) matches KeyStep::Done {
                handled: used,
                view,
            } && !used),
            old(self)@.wf() ==> final(self)@.wf(),
            final(self).render == old(self).render,
    {
        if self.help_open {
            if code == KeyCode::Char('?') || code == KeyCode::Esc {
                self.help_open = false;
            }
            return true;
        }
        if code == KeyCode::Char('?') {
            self.help_open = true;
            return true;
        }
        if modifiers == KeyModifiers::Control && code == KeyCode::Char('f') {
            self.open_file_filter();
            return true;
        }
        if self.file_filter_open {
            return self.handle_file_filter_key(code, modifiers);
        }
        self.handle_search_key(code)
    }

    // -----------------------------------------------------------------------
    // Events
    // -----------------------------------------------------------------------

    /// Whether `step` led to `action` and `after`.
    pub open spec fn took(self, step: EventStep, action: ActionView, after: PagerView) -> bool {
        match step {
            EventStep::Done { action: done, view } => action == done && after == view,
            EventStep::Rerender { view, preferred } => action is Continue && self.rerendered(
                view,
                preferred,
                after,
            ),
        }
    }

    /// Handles a key that nothing else had a use for.
    fn handle_main_key(&mut self, code: KeyCode) -> (action: PagerAction)
        ensures
            old(self).took(old(self)@.main_key(code), action@, final(self)@),
            old(self)@.wf() ==> final(self)@.wf(),
            final(self).render == old(self).render,
    {
        match code {
            KeyCode::Esc => {
                return PagerAction::Quit;
            },
            KeyCode::Up | KeyCode::PageUp => {
                self.page_up();
            },
            KeyCode::Down | KeyCode::PageDown => {
                self.page_down();
            },
            KeyCode::Left => {
                self.scroll_left();
            },
            KeyCode::Right => {
                self.scroll_right();
            },
            KeyCode::Home => {
                self.to_top();
            },
            KeyCode::End => {
                self.to_bottom();
            },
            KeyCode::Char(ch) => {
                if ch == 'q' {
                    return PagerAction::Quit;
                } else if ch == ' ' {
                    self.page_down();
                } else if ch == 'g' {
                    self.to_top();
                } else if ch == 'G' {
                    self.to_bottom();
                }
            },
            _ => {},
        }
        PagerAction::Continue
    }

    /// Carries the selection on to the line at row `row` of the screen.
    fn select_to_row(&mut self, row: u16)
        requires
            old(self).offset + u16::MAX <= usize::MAX,
        ensures
            final(self)@ == old(self)@.selecting_to(old(self)@.line_of_row(row as nat)),
            final(self).render == old(self).render,
    {
        let row = row as usize;
        let max_row: usize = self.viewport_height().saturating_sub(1);
        let line: usize = self.offset + if row <= max_row {
            row
        } else {
            max_row
        };
        match self.selection {
            Some(selection) => {
                self.selection = Some(
                    Selection {
                        pane: selection.pane,
                        anchor_line: selection.anchor_line,
                        extent_line: line,
                    },
                );
            },
            None => {},
        }
    }

    /// Handles the mouse.
    fn handle_mouse_event(&mut self, event: PagerEvent) -> (action: PagerAction)
        requires
            old(self).offset + u16::MAX <= usize::MAX,
            old(self).horizontal_offset + u16::MAX <= usize::MAX,
        ensures
            old(self).took(old(self)@.mouse_event(event), action@, final(self)@),
            old(self)@.wf() ==> final(self)@.wf(),
            final(self).render == old(self).render,
    {
        if self.help_open {
            return PagerAction::Continue;
        }
        match event {
            PagerEvent::ScrollUp => {
                self.scroll_up(MOUSE_SCROLL_LINES);
            },
            PagerEvent::ScrollDown => {
                self.scroll_down(MOUSE_SCROLL_LINES);
            },
            PagerEvent::Press { row, column } => {
                let row = row as usize;
                if row < self.viewport_height() {
                    let line: usize = self.offset + row;
                    let pane = self.pane_at_column(self.horizontal_offset + column as usize);
                    self.selection = Some(
                        Selection { pane, anchor_line: line, extent_line: line },
                    );
                }
            },
            PagerEvent::Drag { row } => {
                self.select_to_row(row);
            },
            PagerEvent::Release { row } => {
                self.select_to_row(row);
                let text = self.extract_selection_text();
                self.selection = None;
                if !text.as_str().is_empty() {
                    return PagerAction::Copy(text);
                }
            },
            _ => {},
        }
        PagerAction::Continue
    }

    /// Handles a key.
    fn handle_key_event(&mut self, code: KeyCode, modifiers: KeyModifiers) -> (action: PagerAction)
        requires
            old(self).renders(),
        ensures
            old(self).took(old(self)@.key_event(code, modifiers), action@, final(self)@),
            old(self)@.wf() ==> final(self)@.wf(),
            final(self).render == old(self).render,
    {
        self.selection = None;
        if self.handle_hud_key(code, modifiers) {
            PagerAction::Continue
        } else {
            self.handle_main_key(code)
        }
    }

    /// Handles that the terminal has the focus again.
    fn handle_focus_event(&mut self, palette: TintPalette, search_bg: Option<AnsiColor>) -> (action:
        PagerAction)
        requires
            old(self).renders(),
        ensures
            old(self).took(old(self)@.focus_event(palette, search_bg), action@, final(self)@),
            old(self)@.wf() ==> final(self)@.wf(),
            final(self).render == old(self).render,
    {
        self.apply_palette(palette, search_bg);
        PagerAction::Continue
    }

    /// Handles something that happened at the terminal, and tells what is to be
    /// done.
    pub fn handle_event(&mut self, event: PagerEvent) -> (action: PagerAction)
        requires
            old(self).renders(),
            old(self).offset + u16::MAX <= usize::MAX,
            old(self).horizontal_offset + u16::MAX <= usize::MAX,
        ensures
            old(self).took(old(self)@.event(event), action@, final(self)@),
            old(self)@.wf() ==> final(self)@.wf(),
            final(self).render == old(self).render,
    {
        match event {
            PagerEvent::Key { code, modifiers } => self.handle_key_event(code, modifiers),
            PagerEvent::Focus { palette, search_bg } => self.handle_focus_event(palette, search_bg),
            _ => self.handle_mouse_event(event),
        }
    }
}

} // verus!
