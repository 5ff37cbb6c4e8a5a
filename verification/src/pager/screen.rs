//! What the pager puts on the screen, and what of it can be selected.

use super::base64;
use super::base64::encode_base64;
use super::columns;
use super::columns::extract_column_range;
use super::hud;
use super::hud::clip_plain_text;
use super::hud::display_width;
use super::hud::help_lines;
use super::hud::render_centered_overlay_lines;
use super::hud::render_hud_row;
use super::hud::render_search_hud;
use super::paint;
use super::paint::render_highlighted_line;
use super::search;
use super::search::MatchView;
use super::search::SearchMatch;
use super::state::PagerState;
use super::state::SearchMode;
use super::view;
use super::view::SelectionPane;
use crate::render::PaneLayout;
use crate::render::TintPalette;
use crate::text;
use crate::text::decimal_string;
use crate::text::join_texts;
use crate::text::push_decimal;
use crate::text::same_text;
use crate::text::split_lines;
use crate::text::trim_text_end;
use vstd::prelude::*;

verus! {

broadcast use vstd::seq::group_seq_axioms;

/// The number of lines of `output`.
pub fn line_count(output: &str) -> (count: usize)
    ensures
        count == text::lines(output@).len(),
{
    split_lines(output).len()
}

/// Whether `output` is to be shown in the pager.
pub fn should_page_output(
    stdout_is_tty: bool,
    force_pager: bool,
    output_line_count: usize,
    terminal_rows: usize,
) -> (page: bool)
    ensures
        page == (stdout_is_tty && (force_pager || output_line_count > terminal_rows)),
{
    stdout_is_tty && (force_pager || output_line_count > terminal_rows)
}

/// The escape sequence that hands a text to the clipboard.
pub open spec fn clipboard_sequence(text: Seq<char>) -> Seq<char> {
    "\u{1b}]52;c;"@ + base64::encoded(vstd::utf8::encode_utf8(text)) + "\u{7}"@
}

/// The escape sequence that hands `text` to the clipboard.
pub fn osc52_sequence(text: &str) -> (sequence: String)
    ensures
        sequence@ == clipboard_sequence(text@),
{
    let mut sequence = "\u{1b}]52;c;".to_owned();
    sequence.push_str(encode_base64(text.as_bytes()).as_str());
    sequence.push_str("\u{7}");
    sequence
}

/// What the screen is to show.
pub struct Frame {
    /// The rows for lines, from the top; nothing where no line is left.
    pub rows: Vec<Option<String>>,
    /// The rows at the bottom.
    pub hud: Vec<String>,
    /// Rows of the help: column, row, and text.
    pub overlay: Vec<(u16, u16, String)>,
    /// Where something is being typed: column and row.
    pub cursor: Option<(u16, u16)>,
}

impl<F> PagerState<F> where F: Fn(usize, &str, &TintPalette) -> (String, PaneLayout) {
    // -----------------------------------------------------------------------
    // Lines
    // -----------------------------------------------------------------------

    /// The line at row `row` of the screen.
    pub fn line_at(&self, row: usize) -> (line: Option<&str>)
        ensures
            match line {
                Some(line) => self@.offset + row < self@.lines.len() && line@
                    == self@.lines[self@.offset + row],
                None => self@.offset + row >= self@.lines.len(),
            },
    {
        let count = self.lines.len();
        if self.offset < count && row < count - self.offset {
            assert(text::texts(self.lines@)[self.offset + row] == self.lines@[self.offset
                + row]@);
            Some(self.lines[self.offset + row].as_str())
        } else {
            None
        }
    }

    /// The matches in line `line`.
    pub fn matches_for_line(&self, line: usize) -> (matches: Vec<SearchMatch>)
        ensures
            search::match_views(matches@) == self@.matches_in_line(line as nat),
    {
        let mut kept: Vec<SearchMatch> = Vec::new();
        assert(search::match_views(kept@) =~= Seq::<MatchView>::empty());
        match &self.search {
            SearchMode::Active { query: _, matches, current: _ } => {
                let ghost views = search::match_views(matches@);
                let mut index: usize = 0;
                assert(views.take(0) =~= Seq::<MatchView>::empty());
                while index < matches.len()
                    invariant
                        index <= matches@.len(),
                        views == search::match_views(matches@),
                        search::match_views(kept@) == view::matches_in(
                            views.take(index as int),
                            line as nat,
                        ),
                    decreases matches@.len() - index,
                {
                    let ghost before = search::match_views(kept@);
                    assert(views.take(index + 1).drop_last() =~= views.take(index as int));
                    assert(views[index as int] == matches@[index as int]@);
                    if matches[index].line == line {
                        kept.push(matches[index]);
                        assert(search::match_views(kept@) =~= before.push(
                            matches@[index as int]@,
                        ));
                    }
                    index += 1;
                }
                assert(views.take(index as int) =~= views);
            },
            _ => {},
        }
        kept
    }

    /// The columns of a pane.
    fn pane_range(&self, pane: SelectionPane) -> (range: (usize, usize))
        ensures
            (range.0 as nat, range.1 as nat) == self@.pane_columns(pane),
    {
        match pane {
            SelectionPane::Full => (self.pane_layout.content_start, usize::MAX),
            SelectionPane::Left => (0, self.pane_layout.left_end),
            SelectionPane::Right => (self.pane_layout.right_start, usize::MAX),
        }
    }

    /// The columns that are selected in line `line_index`.
    pub fn selection_columns_for_line(&self, line_index: usize) -> (range: Option<(usize, usize)>)
        ensures
            paint::selection_view(range) == self@.selected_columns(line_index as nat),
    {
        match self.selection {
            None => None,
            Some(selection) => {
                let (start, end) = if selection.anchor_line <= selection.extent_line {
                    (selection.anchor_line, selection.extent_line)
                } else {
                    (selection.extent_line, selection.anchor_line)
                };
                if line_index < start || line_index > end {
                    None
                } else {
                    Some(self.pane_range(selection.pane))
                }
            },
        }
    }

    /// Row `row` of the screen, painted.
    pub fn rendered_line_at(&self, row: usize) -> (painted: Option<String>)
        ensures
            match painted {
                Some(painted) => self@.screen_row(row as nat) == Some(painted@),
                None => self@.screen_row(row as nat) is None,
            },
    {
        let count = self.lines.len();
        if self.offset >= count || row >= count - self.offset {
            return None;
        }
        let line_index: usize = self.offset + row;
        assert(text::texts(self.lines@)[line_index as int] == self.lines@[line_index as int]@);
        let matches = self.matches_for_line(line_index);
        let selection = self.selection_columns_for_line(line_index);
        let content_start: usize = if self.pane_layout.content_start
            >= self.pane_layout.right_start {
            self.pane_layout.content_start
        } else {
            self.pane_layout.right_start
        };
        Some(
            render_highlighted_line(
                self.lines[line_index].as_str(),
                self.horizontal_offset,
                self.width,
                matches.as_slice(),
                self.search_bg,
                selection,
                content_start,
            ),
        )
    }

    // -----------------------------------------------------------------------
    // Selecting
    // -----------------------------------------------------------------------

    /// The pane that a column of a line belongs to.
    pub fn pane_at_column(&self, content_col: usize) -> (pane: SelectionPane)
        ensures
            pane == self@.pane_at(content_col as nat),
    {
        if self.pane_layout.left_end == 0 {
            SelectionPane::Full
        } else if content_col < self.pane_layout.left_end {
            SelectionPane::Left
        } else if content_col >= self.pane_layout.right_start {
            SelectionPane::Right
        } else {
            SelectionPane::Left
        }
    }

    /// The text that is selected.
    pub fn extract_selection_text(&self) -> (text: String)
        ensures
            text@ == self@.selected_text(),
    {
        let selection = match self.selection {
            None => {
                return String::new();
            },
            Some(selection) => selection,
        };
        let (first, last) = if selection.anchor_line <= selection.extent_line {
            (selection.anchor_line, selection.extent_line)
        } else {
            (selection.extent_line, selection.anchor_line)
        };
        let (from, to) = self.pane_range(selection.pane);
        let count = self.plain_lines.len();
        let end: usize = if last < count {
            last + 1
        } else {
            count
        };
        let ghost plain = text::texts(self.plain_lines@);
        let ghost parts = Seq::new(
            view::less(end as nat, first as nat),
            |i: int|
                text::trim_end(
                    columns::column_range(plain[first + i], 0, from as nat, to as nat),
                ),
        );
        let mut kept: Vec<String> = Vec::new();
        let mut index: usize = first;
        assert(text::texts(kept@) =~= parts.take(0));
        while index < end
            invariant
                first <= index,
                index <= end || end < first,
                end <= self.plain_lines@.len(),
                plain == text::texts(self.plain_lines@),
                parts == Seq::new(
                    view::less(end as nat, first as nat),
                    |i: int|
                        text::trim_end(
                            columns::column_range(plain[first + i], 0, from as nat, to as nat),
                        ),
                ),
                text::texts(kept@) == parts.take(index - first),
                end < first ==> index == first,
            decreases end - index,
        {
            let ghost before = text::texts(kept@);
            assert(plain[index as int] == self.plain_lines@[index as int]@);
            let part = extract_column_range(self.plain_lines[index].as_str(), from, to);
            let trimmed = trim_text_end(part.as_str());
            assert(trimmed@ == parts[index - first]);
            kept.push(trimmed);
            assert(text::texts(kept@) =~= before.push(trimmed@));
            index += 1;
            assert(text::texts(kept@) =~= parts.take(index - first));
        }
        assert(text::texts(kept@) =~= parts);
        while kept.len() > 0 && kept[kept.len() - 1].as_str().is_empty()
            invariant
                view::without_empty_end(parts) == view::without_empty_end(text::texts(kept@)),
            decreases kept@.len(),
        {
            let ghost before = kept@;
            kept.pop();
            assert(text::texts(kept@) =~= text::texts(before).drop_last());
        }
        assert(kept@.len() > 0 ==> text::texts(kept@).last() == kept@.last()@);
        assert(view::without_empty_end(text::texts(kept@)) == text::texts(kept@));
        join_texts(&kept, "\n")
    }

    // -----------------------------------------------------------------------
    // The bottom of the screen
    // -----------------------------------------------------------------------

    /// What the bottom row says about `count` matches, of which the search is
    /// at number `current`.
    fn status_text(&self, count: usize, current: usize) -> (status: String)
        requires
            count > 0 ==> current < count,
        ensures
            status@ == (match self@.search_message {
                Some(message) => (if count == 0 {
                    "0/0"@
                } else {
                    text::decimal((current + 1) as nat) + "/"@ + text::decimal(count as nat)
                }) + " "@ + message,
                None => if count == 0 {
                    "0/0"@
                } else {
                    text::decimal((current + 1) as nat) + "/"@ + text::decimal(count as nat)
                },
            }),
    {
        let mut status = if count == 0 {
            "0/0".to_owned()
        } else {
            let mut counts = decimal_string(current + 1);
            counts.push_str("/");
            push_decimal(&mut counts, count);
            counts
        };
        match self.search_message {
            Some(message) => {
                status.push_str(" ");
                status.push_str(message);
            },
            None => {},
        }
        status
    }

    /// The rows of the list of files, and the row in which the filter is typed.
    pub fn file_filter_hud_lines(&self) -> (rows: Vec<String>)
        requires
            self@.file_filter_open,
        ensures
            text::texts(rows@) == self@.hud_rows(),
    {
        let list_rows: usize = self.hud_height().saturating_sub(1);
        let count = self.visible_files.len();
        let current_index: usize = match self.current_top_file_index() {
            Some(index) => index,
            None => 0,
        };
        let start: usize = if count <= list_rows {
            0
        } else if current_index <= count - list_rows {
            current_index
        } else {
            count - list_rows
        };
        assert(start == self@.list_start());
        let current_file = self.current_top_file_name();
        let ghost list = Seq::new(list_rows as nat, |i: int| self@.list_row(i));
        let mut rows: Vec<String> = Vec::new();
        let mut index: usize = 0;
        assert(text::texts(rows@) =~= list.take(0));
        while index < list_rows
            invariant
                index <= list_rows,
                count == self.visible_files@.len(),
                start <= count,
                start == self@.list_start(),
                current_file is Some ==> self@.top_file_name() == Some(current_file->0@),
                current_file is None ==> self@.top_file_name() is None,
                list == Seq::new(list_rows as nat, |i: int| self@.list_row(i)),
                text::texts(rows@) == list.take(index as int),
            decreases list_rows - index,
        {
            let ghost before = text::texts(rows@);
            let row = if index < count - start {
                let file = &self.visible_files[start + index];
                assert(text::texts(self.visible_files@)[start + index] == file@);
                let bold = match &current_file {
                    Some(name) => same_text(name.as_str(), file.as_str()),
                    None => false,
                };
                let mut line = "  ".to_owned();
                line.push_str(file.as_str());
                render_hud_row(line.as_str(), self.width, self.search_bg, bold)
            } else {
                proof {
                    reveal_strlit("");
                    assert(""@ =~= Seq::<char>::empty());
                }
                render_hud_row("", self.width, self.search_bg, false)
            };
            assert(row@ == list[index as int]);
            rows.push(row);
            assert(text::texts(rows@) =~= before.push(row@));
            index += 1;
            assert(text::texts(rows@) =~= list.take(index as int));
        }
        assert(list.take(index as int) =~= list);
        let mut prompt = "› ".to_owned();
        prompt.push_str(self.file_filter_query.as_str());
        let row = render_hud_row(prompt.as_str(), self.width, self.search_bg, false);
        rows.push(row);
        assert(text::texts(rows@) =~= list.push(row@));
        rows
    }

    /// The rows at the bottom of the screen.
    pub fn hud_lines(&self) -> (rows: Vec<String>)
        requires
            self@.wf(),
        ensures
            text::texts(rows@) == self@.hud_rows(),
    {
        if self.file_filter_open {
            return self.file_filter_hud_lines();
        }
        let mut rows: Vec<String> = Vec::new();
        match &self.search {
            SearchMode::Inactive => {},
            SearchMode::Prompt { query } => {
                rows.push(render_search_hud(query.as_str(), self.width, self.search_bg, None));
            },
            SearchMode::Active { query, matches, current } => {
                let status = self.status_text(matches.len(), *current);
                rows.push(
                    render_search_hud(
                        query.as_str(),
                        self.width,
                        self.search_bg,
                        Some(status.as_str()),
                    ),
                );
            },
        }
        assert(text::texts(rows@) =~= self@.hud_rows());
        rows
    }

    /// Where something is being typed.
    pub fn hud_cursor_position(&self) -> (position: Option<(u16, u16)>)
        ensures
            position == match self@.cursor() {
                Some((column, row)) => Some((column as u16, row as u16)),
                None => None,
            },
    {
        if self.help_open {
            return None;
        }
        let mut prompt: String;
        if self.file_filter_open {
            prompt = "› ".to_owned();
            prompt.push_str(self.file_filter_query.as_str());
        } else {
            match &self.search {
                SearchMode::Prompt { query } => {
                    prompt = "/".to_owned();
                    prompt.push_str(query.as_str());
                },
                _ => {
                    return None;
                },
            }
        }
        let shown = clip_plain_text(prompt.as_str(), self.width);
        Some((display_width(shown.as_str()) as u16, self.height.saturating_sub(1) as u16))
    }

    // -----------------------------------------------------------------------
    // Frames
    // -----------------------------------------------------------------------

    /// All that the screen is to show.
    pub fn frame(&self) -> (frame: Frame)
        requires
            self@.wf(),
        ensures
            text::texts(frame.hud@) == self@.hud_rows(),
            frame.rows@.len() == self@.viewport_height(),
            forall|row: int|
                0 <= row < frame.rows@.len() ==> match #[trigger] frame.rows@[row] {
                    Some(painted) => self@.screen_row(row as nat) == Some(painted@),
                    None => self@.screen_row(row as nat) is None,
                },
            !self@.help_open || self@.width == 0 || self@.height == 0 ==> frame.overlay@.len() == 0,
            self@.help_open && self@.width > 0 && self@.height > 0 ==> ({
                let place = hud::overlay_box(self@.width, self@.height, hud::help_text());
                &&& frame.overlay@.len() == place.height
                &&& forall|i: int|
                    0 <= i < frame.overlay@.len() ==> (#[trigger] frame.overlay@[i]).0
                        == place.x as u16 && frame.overlay@[i].1 == (place.y + i) as u16
                        && frame.overlay@[i].2@ == hud::overlay_row(
                        hud::help_text(),
                        i,
                        place.width,
                        self@.search_bg,
                    )
            }),
            frame.cursor == match self@.cursor() {
                Some((column, row)) => Some((column as u16, row as u16)),
                None => None,
            },
    {
        let hud = self.hud_lines();
        let height = self.viewport_height();
        let mut rows: Vec<Option<String>> = Vec::new();
        let mut row: usize = 0;
        while row < height
            invariant
                row <= height,
                rows@.len() == row,
                forall|i: int|
                    0 <= i < rows@.len() ==> match #[trigger] rows@[i] {
                        Some(painted) => self@.screen_row(i as nat) == Some(painted@),
                        None => self@.screen_row(i as nat) is None,
                    },
            decreases height - row,
        {
            rows.push(self.rendered_line_at(row));
            row += 1;
        }
        let overlay = if self.help_open {
            let lines = help_lines();
            render_centered_overlay_lines(
                self.width,
                self.height,
                self.search_bg,
                lines.as_slice(),
            )
        } else {
            Vec::new()
        };
        Frame { rows, hud, overlay, cursor: self.hud_cursor_position() }
    }
}

} // verus!
