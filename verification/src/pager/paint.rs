//! Painting the part of a line that is on the screen.

use super::ansi;
use super::ansi::parse_styled_cells;
use super::ansi::style_prefix;
use super::ansi::CellView;
use super::ansi::StyledCell;
use super::ansi::TextStyle;
use super::search;
use super::search::MatchView;
use super::search::SearchMatch;
use crate::terminal_palette::AnsiColor;
use crate::text;
use crate::text::push_spaces;
use crate::width;
use crate::width::char_width;
use vstd::prelude::*;

verus! {

broadcast use vstd::seq::group_seq_axioms;

/// The columns of `text`. The pager gives a tab none: what it shows has its
/// tabs expanded.
pub open spec fn columns(text: Seq<char>) -> nat {
    width::columns(text, 0)
}

/// The beginning of `text` that fits into `width` columns.
pub open spec fn clip(text: Seq<char>, width: nat) -> Seq<char> {
    width::clip(text, width, 0)
}

/// A character in its final style.
pub struct PaintedChar {
    pub ch: char,
    pub style: TextStyle,
}

/// What a line is painted with: how far it is scrolled to the right, the
/// columns of the screen, the matches in it, the background of matches and of
/// the selection, the columns that are selected, and the column at which the
/// text of the diff starts.
pub struct Painting {
    pub start_col: nat,
    pub width: nat,
    pub matches: Seq<MatchView>,
    pub search_bg: Option<AnsiColor>,
    pub selection: Option<(nat, nat)>,
    pub content_start: nat,
}

/// Whether a cell shares a byte with a match.
pub open spec fn highlighted(cell: CellView, matches: Seq<MatchView>) -> bool {
    exists|i: int|
        0 <= i < matches.len() && cell.start < (#[trigger] matches[i]).end && cell.end
            > matches[i].start
}

/// Whether `column` is selected.
pub open spec fn selected(column: nat, selection: Option<(nat, nat)>) -> bool {
    selection matches Some((from, to)) && from <= column < to
}

/// The number of cells before those at the end that have `color` behind them.
pub open spec fn cells_before_run(cells: Seq<CellView>, color: AnsiColor) -> nat
    decreases cells.len(),
{
    if cells.len() == 0 || cells.last().style.background != Some(color) {
        cells.len()
    } else {
        cells_before_run(cells.drop_last(), color)
    }
}

/// The background that the line ends in, and the column at which it starts.
pub open spec fn trailing(cells: Seq<CellView>) -> Option<(AnsiColor, nat)> {
    if cells.len() == 0 {
        None
    } else {
        match cells.last().style.background {
            None => None,
            Some(color) => Some(
                (
                    color,
                    columns(ansi::cell_chars(cells).take(cells_before_run(cells, color) as int)),
                ),
            ),
        }
    }
}

/// `painted` as text that starts in style `current` and ends plain. The style
/// is written out where it changes.
pub open spec fn written(painted: Seq<PaintedChar>, current: TextStyle) -> Seq<char>
    decreases painted.len(),
{
    if painted.len() == 0 {
        if current == ansi::plain_style() {
            Seq::empty()
        } else {
            "\u{1b}[0m"@
        }
    } else {
        let style = painted[0].style;
        let change = if style == current {
            Seq::empty()
        } else {
            "\u{1b}[0m"@ + ansi::style_escape(style)
        };
        change + seq![painted[0].ch] + written(painted.drop_first(), style)
    }
}

impl Painting {
    /// The style of `cell`, which stands at `column`.
    pub open spec fn style_at(self, cell: CellView, column: nat) -> TextStyle {
        if self.search_bg is Some && (highlighted(cell, self.matches) || selected(
            column,
            self.selection,
        )) {
            ansi::on_background(cell.style, self.search_bg)
        } else {
            cell.style
        }
    }

    /// Whether the line goes on behind the right edge of the screen.
    pub open spec fn overflows(self, cells: Seq<CellView>) -> bool {
        columns(ansi::cell_chars(cells)) > self.start_col + self.width
    }

    /// The columns that are left for the line: the last one is for the mark
    /// that tells that the line goes on.
    pub open spec fn room(self, cells: Seq<CellView>) -> nat {
        if self.overflows(cells) {
            (self.width - 1) as nat
        } else {
            self.width
        }
    }

    /// The number of cells that are scrolled off to the left.
    pub open spec fn first(self, cells: Seq<CellView>) -> nat {
        clip(ansi::cell_chars(cells), self.start_col).len()
    }

    /// The number of cells that are on the screen.
    pub open spec fn count(self, cells: Seq<CellView>) -> nat {
        clip(
            ansi::cell_chars(cells).skip(self.first(cells) as int),
            self.room(cells),
        ).len()
    }

    /// The characters on the screen.
    pub open spec fn painted(self, cells: Seq<CellView>) -> Seq<PaintedChar> {
        let first = self.first(cells);
        Seq::new(
            self.count(cells),
            |i: int|
                PaintedChar {
                    ch: cells[first + i].ch,
                    style: self.style_at(
                        cells[first + i],
                        columns(ansi::cell_chars(cells).take(first + i)),
                    ),
                },
        )
    }

    /// The columns that the characters on the screen take.
    pub open spec fn used(self, cells: Seq<CellView>) -> nat {
        columns(
            clip(ansi::cell_chars(cells).skip(self.first(cells) as int), self.room(cells)),
        )
    }

    /// The spaces that carry the background that the line ends in on to the
    /// right edge. That of a mark in front of the text is not carried on.
    pub open spec fn fill(self, cells: Seq<CellView>) -> Seq<char> {
        match trailing(cells) {
            Some((color, start)) if start >= self.content_start && self.used(cells) < self.room(
                cells,
            ) => ansi::style_escape(ansi::on_background(ansi::plain_style(), Some(color)))
                + text::spaces((self.room(cells) - self.used(cells)) as nat) + "\u{1b}[0m"@,
            _ => Seq::empty(),
        }
    }

    /// The line as it is put on the screen.
    pub open spec fn line(self, cells: Seq<CellView>) -> Seq<char> {
        if self.width == 0 {
            Seq::empty()
        } else {
            written(self.painted(cells), ansi::plain_style()) + self.fill(cells)
                + if self.overflows(cells) {
                seq!['»']
            } else {
                Seq::empty()
            }
        }
    }
}

// ---------------------------------------------------------------------------
// Counting columns
// ---------------------------------------------------------------------------

/// One more character adds its columns and its bytes.
pub proof fn lemma_prefix_step(chars: Seq<char>, i: int, ch: char)
    requires
        0 <= i < chars.len(),
        chars[i] == ch,
    ensures
        columns(chars.take(i + 1)) == columns(chars.take(i)) + width::char_columns(ch, 0),
        text::byte_len(chars.take(i + 1)) == text::byte_len(chars.take(i)) + text::utf8_len(ch),
{
    let one = seq![ch];
    assert(chars.take(i + 1) =~= chars.take(i) + one);
    width::lemma_columns_add(chars.take(i), one, 0);
    text::lemma_byte_len_add(chars.take(i), one);
    assert(one.drop_first() =~= Seq::<char>::empty());
    assert(width::columns(one.drop_first(), 0) == 0);
    assert(text::byte_len(one.drop_first()) == 0);
}

/// The columns of one character.
fn cell_width(ch: char) -> (columns: usize)
    ensures
        columns == width::char_columns(ch, 0),
        columns <= text::utf8_len(ch) <= 4,
{
    char_width(ch, 0)
}

/// A cell of contiguous cells starts where those before it end.
proof fn lemma_cell_at(cells: Seq<StyledCell>, i: int)
    requires
        ansi::contiguous(ansi::cell_views(cells), 0),
        0 <= i < cells.len(),
    ensures
        ansi::cell_views(cells)[i] == cells[i]@,
        ansi::cell_chars(ansi::cell_views(cells))[i] == cells[i].ch,
        text::byte_len(ansi::cell_chars(ansi::cell_views(cells)).take(i)) == cells[i].start,
        cells[i].end == cells[i].start + text::utf8_len(cells[i].ch),
{
    assert(ansi::cell_views(cells)[i] == cells[i]@);
}

/// The columns of the first `count` cells.
fn columns_before(cells: &Vec<StyledCell>, count: usize) -> (total: usize)
    requires
        ansi::contiguous(ansi::cell_views(cells@), 0),
        count <= cells@.len(),
    ensures
        total == columns(ansi::cell_chars(ansi::cell_views(cells@)).take(count as int)),
        total <= text::byte_len(
            ansi::cell_chars(ansi::cell_views(cells@)).take(count as int),
        ),
{
    let ghost views = ansi::cell_views(cells@);
    let ghost chars = ansi::cell_chars(views);
    let mut total: usize = 0;
    let mut index: usize = 0;
    assert(chars.take(0) =~= Seq::<char>::empty());
    assert(columns(chars.take(0)) == 0);
    while index < count
        invariant
            index <= count <= cells@.len(),
            views == ansi::cell_views(cells@),
            chars == ansi::cell_chars(views),
            ansi::contiguous(views, 0),
            total == columns(chars.take(index as int)),
            total <= text::byte_len(chars.take(index as int)),
        decreases count - index,
    {
        let ch = cells[index].ch;
        proof {
            lemma_cell_at(cells@, index as int);
            lemma_prefix_step(chars, index as int, ch);
        }
        total += cell_width(ch);
        index += 1;
    }
    total
}

/// The columns of all cells.
fn total_width(cells: &Vec<StyledCell>) -> (total: usize)
    requires
        ansi::contiguous(ansi::cell_views(cells@), 0),
    ensures
        total == columns(ansi::cell_chars(ansi::cell_views(cells@))),
{
    let ghost chars = ansi::cell_chars(ansi::cell_views(cells@));
    assert(chars.take(cells@.len() as int) =~= chars);
    columns_before(cells, cells.len())
}

/// Finds how many cells from `from` on fit into `room` columns, and how many
/// columns they take.
fn fitting_cells(cells: &Vec<StyledCell>, from: usize, room: usize) -> (fitting: (usize, usize))
    requires
        ansi::contiguous(ansi::cell_views(cells@), 0),
        from <= cells@.len(),
    ensures
        ({
            let kept = clip(
                ansi::cell_chars(ansi::cell_views(cells@)).skip(from as int),
                room as nat,
            );
            &&& fitting.0 == kept.len()
            &&& fitting.1 == columns(kept)
        }),
        from + fitting.0 <= cells@.len(),
        fitting.1 <= room,
{
    let ghost views = ansi::cell_views(cells@);
    let ghost chars = ansi::cell_chars(views);
    let ghost rest = chars.skip(from as int);
    let mut used: usize = 0;
    let mut index: usize = from;
    assert(chars.skip(from as int).take(0) =~= Seq::<char>::empty());
    assert(columns(rest.take(0)) == 0);
    proof {
        width::lemma_clip(rest, room as nat, 0);
    }
    while index < cells.len()
        invariant
            from <= index <= cells@.len(),
            views == ansi::cell_views(cells@),
            chars == ansi::cell_chars(views),
            rest == chars.skip(from as int),
            ansi::contiguous(views, 0),
            used <= room,
            used <= text::byte_len(chars.take(index as int)),
            clip(rest, room as nat).len() == index - from + clip(
                chars.skip(index as int),
                (room - used) as nat,
            ).len(),
            used == columns(rest.take(index - from)),
            clip(rest, room as nat) == rest.take(clip(rest, room as nat).len() as int),
        decreases cells@.len() - index,
    {
        let ch = cells[index].ch;
        proof {
            lemma_cell_at(cells@, index as int);
            lemma_prefix_step(chars, index as int, ch);
            lemma_prefix_step(rest, index - from, ch);
            assert(chars.skip(index as int).drop_first() =~= chars.skip(index + 1));
        }
        let ch_width = cell_width(ch);
        if used + ch_width > room {
            assert(clip(chars.skip(index as int), (room - used) as nat).len() == 0);
            return (index - from, used);
        }
        used += ch_width;
        index += 1;
    }
    assert(chars.skip(index as int) =~= Seq::<char>::empty());
    (index - from, used)
}

/// The background that the line ends in, and the column at which it starts.
fn trailing_background(cells: &Vec<StyledCell>) -> (background: Option<(AnsiColor, usize)>)
    requires
        ansi::contiguous(ansi::cell_views(cells@), 0),
    ensures
        trailing(ansi::cell_views(cells@)) == match background {
            Some((color, start)) => Some((color, start as nat)),
            None => None,
        },
{
    let ghost views = ansi::cell_views(cells@);
    let ghost chars = ansi::cell_chars(views);
    if cells.len() == 0 {
        return None;
    }
    let color = match cells[cells.len() - 1].style.background {
        Some(color) => color,
        None => {
            return None;
        },
    };
    let mut start = total_width(cells);
    let mut index: usize = cells.len();
    assert(chars.take(index as int) =~= chars);
    assert(views.take(index as int) =~= views);
    while index > 0 && cells[index - 1].style.background == Some(color)
        invariant
            index <= cells@.len(),
            views == ansi::cell_views(cells@),
            chars == ansi::cell_chars(views),
            ansi::contiguous(views, 0),
            start == columns(chars.take(index as int)),
            cells_before_run(views, color) == cells_before_run(views.take(index as int), color),
        decreases index,
    {
        let ch = cells[index - 1].ch;
        proof {
            lemma_cell_at(cells@, index - 1);
            lemma_prefix_step(chars, index - 1, ch);
            assert(views.take(index as int).drop_last() =~= views.take(index - 1));
        }
        start -= cell_width(ch);
        index -= 1;
    }
    Some((color, start))
}

// ---------------------------------------------------------------------------
// Painting
// ---------------------------------------------------------------------------

/// Whether `cell` shares a byte with a match.
fn cell_is_highlighted(cell: &StyledCell, matches: &[SearchMatch]) -> (found: bool)
    ensures
        found == highlighted(cell@, search::match_views(matches@)),
{
    let ghost views = search::match_views(matches@);
    let mut index: usize = 0;
    while index < matches.len()
        invariant
            index <= matches@.len(),
            views == search::match_views(matches@),
            forall|i: int|
                0 <= i < index ==> !(cell.start < (#[trigger] views[i]).end && cell.end
                    > views[i].start),
        decreases matches@.len() - index,
    {
        assert(views[index as int] == matches@[index as int]@);
        if cell.start < matches[index].end && cell.end > matches[index].start {
            return true;
        }
        index += 1;
    }
    false
}

/// What an optional pair of columns says.
pub open spec fn selection_view(selection: Option<(usize, usize)>) -> Option<(nat, nat)> {
    match selection {
        Some((from, to)) => Some((from as nat, to as nat)),
        None => None,
    }
}

/// Appends a change of style.
fn push_style_change(rendered: &mut String, style: TextStyle)
    ensures
        final(rendered)@ == old(rendered)@ + ("\u{1b}[0m"@ + ansi::style_escape(style)),
{
    let ghost before = rendered@;
    rendered.push_str("\u{1b}[0m");
    match style_prefix(style) {
        Some(prefix) => {
            rendered.push_str(prefix.as_str());
        },
        None => {},
    }
    assert(rendered@ =~= before + ("\u{1b}[0m"@ + ansi::style_escape(style)));
}

proof fn lemma_written_step(painted: Seq<PaintedChar>, i: int, ch: char, current: TextStyle)
    requires
        0 <= i < painted.len(),
        painted[i].ch == ch,
    ensures
        written(painted.skip(i), current) == (if painted[i].style == current {
            Seq::empty()
        } else {
            "\u{1b}[0m"@ + ansi::style_escape(painted[i].style)
        }) + seq![ch] + written(painted.skip(i + 1), painted[i].style),
{
    assert(painted.skip(i).drop_first() =~= painted.skip(i + 1));
}

/// Appends the cells on the screen, each in its style.
#[verifier::rlimit(30)]
fn write_cells(
    cells: &Vec<StyledCell>,
    first: usize,
    count: usize,
    matches: &[SearchMatch],
    search_bg: Option<AnsiColor>,
    selection: Option<(usize, usize)>,
    Ghost(painting): Ghost<Painting>,
) -> (rendered: String)
    requires
        ansi::contiguous(ansi::cell_views(cells@), 0),
        first + count <= cells@.len(),
        painting.matches == search::match_views(matches@),
        painting.search_bg == search_bg,
        painting.selection == selection_view(selection),
        painting.first(ansi::cell_views(cells@)) == first,
        painting.count(ansi::cell_views(cells@)) == count,
    ensures
        rendered@ == written(painting.painted(ansi::cell_views(cells@)), ansi::plain_style()),
{
    let ghost views = ansi::cell_views(cells@);
    let ghost chars = ansi::cell_chars(views);
    let ghost painted = painting.painted(views);
    let mut rendered = String::new();
    let mut current_style = TextStyle::default();
    let mut column: usize = columns_before(cells, first);
    let mut index: usize = 0;
    assert(painted.skip(0) =~= painted);
    while index < count
        invariant
            index <= count,
            first + count <= cells.len(),
            views == ansi::cell_views(cells@),
            chars == ansi::cell_chars(views),
            ansi::contiguous(views, 0),
            painted == painting.painted(views),
            painting.matches == search::match_views(matches@),
            painting.search_bg == search_bg,
            painting.selection == selection_view(selection),
            painting.first(views) == first,
            painted.len() == count,
            column == columns(chars.take(first + index)),
            column <= text::byte_len(chars.take(first + index)),
            written(painted, ansi::plain_style()) == rendered@ + written(
                painted.skip(index as int),
                current_style,
            ),
        decreases count - index,
    {
        let ghost before = rendered@;
        let ghost was = current_style;
        let cell = cells[first + index];
        proof {
            lemma_cell_at(cells@, first + index);
            lemma_prefix_step(chars, first + index, cell.ch);
        }
        let mut style = cell.style;
        if search_bg.is_some() {
            let chosen = match selection {
                Some((from, to)) => column >= from && column < to,
                None => false,
            };
            if chosen || cell_is_highlighted(&cell, matches) {
                style.background = search_bg;
            }
        }
        assert(painted[index as int].style == style);
        proof {
            lemma_written_step(painted, index as int, cell.ch, was);
        }
        if style != current_style {
            push_style_change(&mut rendered, style);
            current_style = style;
        }
        rendered.push(cell.ch);
        column += cell_width(cell.ch);
        index += 1;
        assert(before + written(painted.skip(index - 1), was) =~= rendered@ + written(
            painted.skip(index as int),
            current_style,
        ));
    }
    if current_style != TextStyle::default() {
        rendered.push_str("\u{1b}[0m");
    }
    assert(painted.skip(index as int) =~= Seq::<PaintedChar>::empty());
    assert(rendered@ =~= written(painted, ansi::plain_style()));
    rendered
}

/// Paints the part of a line that is on the screen.
pub fn render_visible_cells(
    cells: &Vec<StyledCell>,
    start_col: usize,
    width: usize,
    matches: &[SearchMatch],
    search_bg: Option<AnsiColor>,
    selection: Option<(usize, usize)>,
    content_start: usize,
) -> (rendered: String)
    requires
        ansi::contiguous(ansi::cell_views(cells@), 0),
    ensures
        rendered@ == (Painting {
            start_col: start_col as nat,
            width: width as nat,
            matches: search::match_views(matches@),
            search_bg,
            selection: selection_view(selection),
            content_start: content_start as nat,
        }).line(ansi::cell_views(cells@)),
{
    let ghost painting = Painting {
        start_col: start_col as nat,
        width: width as nat,
        matches: search::match_views(matches@),
        search_bg,
        selection: selection_view(selection),
        content_start: content_start as nat,
    };
    let ghost views = ansi::cell_views(cells@);
    let ghost chars = ansi::cell_chars(views);
    if width == 0 {
        return String::new();
    }
    let total = total_width(cells);
    let background = trailing_background(cells);
    let right_overflow = total > start_col.saturating_add(width);
    let room: usize = if right_overflow {
        width - 1
    } else {
        width
    };
    assert(right_overflow == painting.overflows(views));
    assert(chars.skip(0) =~= chars);
    let (first, _) = fitting_cells(cells, 0, start_col);
    let (count, used) = fitting_cells(cells, first, room);
    let mut rendered = write_cells(
        cells,
        first,
        count,
        matches,
        search_bg,
        selection,
        Ghost(painting),
    );
    let ghost shown = rendered@;
    match background {
        Some((color, start)) => {
            if start >= content_start && used < room {
                let style = TextStyle { bold: false, dim: false, italic: false, background: Some(color) };
                match style_prefix(style) {
                    Some(prefix) => {
                        rendered.push_str(prefix.as_str());
                        push_spaces(&mut rendered, room - used);
                        rendered.push_str("\u{1b}[0m");
                    },
                    None => {},
                }
            }
        },
        None => {},
    }
    assert(rendered@ =~= shown + painting.fill(views));
    if right_overflow {
        rendered.push('»');
    }
    assert(rendered@ =~= painting.line(views));
    rendered
}

/// Paints the part of `text` that is on the screen.
pub fn render_highlighted_line(
    text: &str,
    start_col: usize,
    width: usize,
    matches: &[SearchMatch],
    search_bg: Option<AnsiColor>,
    selection: Option<(usize, usize)>,
    content_start: usize,
) -> (rendered: String)
    ensures
        rendered@ == (Painting {
            start_col: start_col as nat,
            width: width as nat,
            matches: search::match_views(matches@),
            search_bg,
            selection: selection_view(selection),
            content_start: content_start as nat,
        }).line(ansi::cells_of(text@)),
{
    let cells = parse_styled_cells(text);
    render_visible_cells(
        &cells,
        start_col,
        width,
        matches,
        search_bg,
        selection,
        content_start,
    )
}

/// The part of `text` from column `start_col` on that fits into `width`
/// columns, with its styles.
pub fn clip_ansi_text_from(text: &str, start_col: usize, width: usize) -> (rendered: String)
    ensures
        rendered@ == (Painting {
            start_col: start_col as nat,
            width: width as nat,
            matches: Seq::empty(),
            search_bg: None,
            selection: None,
            content_start: 0,
        }).line(ansi::cells_of(text@)),
{
    let none: Vec<SearchMatch> = Vec::new();
    assert(search::match_views(none@) =~= Seq::<MatchView>::empty());
    render_highlighted_line(text, start_col, width, none.as_slice(), None, None, 0)
}

/// The beginning of `text` that fits into `width` columns, with its styles.
pub fn clip_ansi_text(text: &str, width: usize) -> (rendered: String)
    ensures
        rendered@ == (Painting {
            start_col: 0,
            width: width as nat,
            matches: Seq::empty(),
            search_bg: None,
            selection: None,
            content_start: 0,
        }).line(ansi::cells_of(text@)),
{
    clip_ansi_text_from(text, 0, width)
}

} // verus!
