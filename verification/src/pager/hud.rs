//! The rows at the bottom of the screen, and the help in the middle of it.

use super::ansi;
use super::ansi::style_prefix;
use super::ansi::TextStyle;
use super::paint;
use crate::terminal_palette::AnsiColor;
use crate::text;
use crate::text::push_spaces;
use crate::width;
use crate::width::clip_text;
use crate::width::text_columns;
use vstd::prelude::*;

verus! {

broadcast use vstd::seq::group_seq_axioms;

/// `text` cut to `width` columns and filled up with spaces.
pub open spec fn padded(text: Seq<char>, width: nat) -> Seq<char> {
    paint::clip(text, width) + text::spaces(
        (width - paint::columns(paint::clip(text, width))) as nat,
    )
}

/// A row of `width` columns on `background`.
pub open spec fn hud_row(
    text: Seq<char>,
    width: nat,
    background: Option<AnsiColor>,
    bold: bool,
) -> Seq<char> {
    let style = TextStyle { bold, dim: false, italic: false, background };
    if style == ansi::plain_style() {
        padded(text, width)
    } else {
        ansi::style_escape(style) + padded(text, width) + "\u{1b}[0m"@
    }
}

/// The columns of `text`.
pub fn display_width(text: &str) -> (columns: usize)
    ensures
        columns == paint::columns(text@),
{
    text_columns(text, 0)
}

/// Cuts `text` to `width` columns.
pub fn clip_plain_text(text: &str, width: usize) -> (clipped: String)
    ensures
        clipped@ == paint::clip(text@, width as nat),
{
    clip_text(text, width, 0)
}

/// A row of `width` columns on `background`.
pub fn render_hud_row(
    text: &str,
    width: usize,
    background: Option<AnsiColor>,
    bold: bool,
) -> (row: String)
    ensures
        row@ == hud_row(text@, width as nat, background, bold),
{
    let mut cell = clip_plain_text(text, width);
    proof {
        width::lemma_clip(text@, width as nat, 0);
    }
    let used = display_width(cell.as_str());
    push_spaces(&mut cell, width - used);
    assert(cell@ =~= padded(text@, width as nat));
    match style_prefix(TextStyle { bold, dim: false, italic: false, background }) {
        Some(prefix) => {
            let mut row = prefix;
            row.push_str(cell.as_str());
            row.push_str("\u{1b}[0m");
            row
        },
        None => cell,
    }
}

/// The columns of an optional status.
pub open spec fn status_columns(status: Option<Seq<char>>) -> nat {
    match status {
        Some(status) => paint::columns(status),
        None => 0,
    }
}

/// The text of the row that shows a search: the query behind a slash, and the
/// status, if there is one, at the right edge. The query gives way to the
/// status, and a column parts the two where there is room for one.
pub open spec fn search_text(query: Seq<char>, width: nat, status: Option<Seq<char>>) -> Seq<char> {
    let taken = status_columns(status) + if status is Some && width > status_columns(status) {
        1nat
    } else {
        0nat
    };
    let room = if width >= taken {
        (width - taken) as nat
    } else {
        0
    };
    let shown = paint::clip("/"@ + query, room);
    match status {
        None => shown,
        Some(status) => {
            let used = paint::columns(shown) + paint::columns(status);
            shown + text::spaces(
                if width >= used {
                    (width - used) as nat
                } else {
                    0
                },
            ) + status
        },
    }
}

/// The row that shows a search.
pub fn render_search_hud(
    query: &str,
    width: usize,
    background: Option<AnsiColor>,
    status: Option<&str>,
) -> (row: String)
    ensures
        row@ == hud_row(
            search_text(
                query@,
                width as nat,
                match status {
                    Some(status) => Some(status@),
                    None => None,
                },
            ),
            width as nat,
            background,
            false,
        ),
{
    let status_width: usize = match status {
        Some(status) => display_width(status),
        None => 0,
    };
    let gap_width: usize = if status.is_some() && width > status_width {
        1
    } else {
        0
    };
    let query_width: usize = width.saturating_sub(status_width + gap_width);
    let mut prompt = "/".to_owned();
    prompt.push_str(query);
    let mut text = clip_plain_text(prompt.as_str(), query_width);
    proof {
        width::lemma_clip(prompt@, query_width as nat, 0);
    }
    let text_width = display_width(text.as_str());
    match status {
        Some(status) => {
            push_spaces(&mut text, width.saturating_sub(text_width + status_width));
            text.push_str(status);
        },
        None => {},
    }
    render_hud_row(text.as_str(), width, background, false)
}

// ---------------------------------------------------------------------------
// Help
// ---------------------------------------------------------------------------

/// The texts of a list of string slices.
pub open spec fn slices(list: Seq<&str>) -> Seq<Seq<char>> {
    list.map_values(|s: &str| s@)
}

/// The columns of the widest of `list`.
pub open spec fn widest(list: Seq<Seq<char>>) -> nat
    decreases list.len(),
{
    if list.len() == 0 {
        0
    } else {
        let before = widest(list.drop_last());
        let last = paint::columns(list.last());
        if last > before {
            last
        } else {
            before
        }
    }
}

/// The smaller of two numbers.
pub open spec fn smaller(a: nat, b: nat) -> nat {
    if a <= b {
        a
    } else {
        b
    }
}

/// A box in the middle of the screen, as wide as its widest line and a margin
/// of two on each side, as far as the screen goes.
pub struct OverlayBox {
    pub width: nat,
    pub height: nat,
    pub x: nat,
    pub y: nat,
}

/// The box for `list` on a screen of `width` columns and `height` rows.
pub open spec fn overlay_box(width: nat, height: nat, list: Seq<Seq<char>>) -> OverlayBox {
    let box_width = smaller(widest(list) + 4, width);
    let box_height = smaller(list.len(), height);
    OverlayBox {
        width: box_width,
        height: box_height,
        x: ((width - box_width) / 2) as nat,
        y: ((height - box_height) / 2) as nat,
    }
}

/// A row of a box: its line behind a margin of two, bold if it is the first.
pub open spec fn overlay_row(
    list: Seq<Seq<char>>,
    i: int,
    box_width: nat,
    background: Option<AnsiColor>,
) -> Seq<char> {
    let room = if box_width >= 4 {
        (box_width - 4) as nat
    } else {
        0
    };
    hud_row("  "@ + paint::clip(list[i], room), box_width, background, i == 0)
}

/// Puts `lines` into a box in the middle of the screen: for each row its
/// column, its row on the screen, and its text.
pub fn render_centered_overlay_lines(
    width: usize,
    height: usize,
    background: Option<AnsiColor>,
    lines: &[&str],
) -> (rows: Vec<(u16, u16, String)>)
    ensures
        width == 0 || height == 0 ==> rows@.len() == 0,
        width > 0 && height > 0 ==> ({
            let list = slices(lines@);
            let place = overlay_box(width as nat, height as nat, list);
            &&& rows@.len() == place.height
            &&& forall|i: int|
                0 <= i < rows@.len() ==> (#[trigger] rows@[i]).0 == place.x as u16 && rows@[i].1 == (
                place.y + i) as u16 && rows@[i].2@ == overlay_row(
                    list,
                    i,
                    place.width,
                    background,
                )
        }),
{
    let ghost list = slices(lines@);
    let mut rows: Vec<(u16, u16, String)> = Vec::new();
    if width == 0 || height == 0 || lines.len() == 0 {
        return rows;
    }
    let mut content_width: usize = 0;
    let mut index: usize = 0;
    assert(list.take(0) =~= Seq::<Seq<char>>::empty());
    while index < lines.len()
        invariant
            index <= lines@.len(),
            list == slices(lines@),
            content_width == widest(list.take(index as int)),
        decreases lines@.len() - index,
    {
        assert(list.take(index + 1).drop_last() =~= list.take(index as int));
        assert(list[index as int] == lines@[index as int]@);
        let columns = display_width(lines[index]);
        if columns > content_width {
            content_width = columns;
        }
        index += 1;
    }
    assert(list.take(index as int) =~= list);
    let wanted: usize = content_width.saturating_add(4);
    let box_width: usize = if wanted <= width {
        wanted
    } else {
        width
    };
    let box_height: usize = if lines.len() <= height {
        lines.len()
    } else {
        height
    };
    let start_x: usize = (width - box_width) / 2;
    let start_y: usize = (height - box_height) / 2;
    let ghost place = overlay_box(width as nat, height as nat, list);
    let mut row: usize = 0;
    while row < box_height
        invariant
            row <= box_height <= lines@.len(),
            box_height <= height,
            start_y <= height - box_height,
            list == slices(lines@),
            box_width == place.width,
            box_height == place.height,
            start_x == place.x,
            start_y == place.y,
            rows@.len() == row,
            forall|i: int|
                0 <= i < rows@.len() ==> (#[trigger] rows@[i]).0 == place.x as u16 && rows@[i].1 == (
                place.y + i) as u16 && rows@[i].2@ == overlay_row(
                    list,
                    i,
                    place.width,
                    background,
                ),
        decreases box_height - row,
    {
        assert(list[row as int] == lines@[row as int]@);
        let mut line = "  ".to_owned();
        line.push_str(clip_plain_text(lines[row], box_width.saturating_sub(4)).as_str());
        rows.push(
            (
                start_x as u16,
                (start_y + row) as u16,
                render_hud_row(line.as_str(), box_width, background, row == 0),
            ),
        );
        row += 1;
    }
    rows
}

/// What the pager says about its keys.
pub open spec fn help_text() -> Seq<Seq<char>> {
    seq![
        "mdiff help"@,
        ""@,
        "Navigation"@,
        "  q           quit pager"@,
        "  ?           toggle help"@,
        "  Up/PageUp   page up"@,
        "  Down/PageDown/Space"@,
        "              page down"@,
        "  g/Home      jump to top"@,
        "  G/End       jump to bottom"@,
        "  Left/Right  scroll horizontally"@,
        "  Mouse wheel scroll"@,
        ""@,
        "Search"@,
        "  /           open search"@,
        "  Enter       confirm search"@,
        "  n           next match"@,
        "  N           previous match"@,
        "  Esc         leave search"@,
        ""@,
        "File filter"@,
        "  Ctrl-F      open file filter"@,
        "  Type        narrow files"@,
        "  Up/Down     jump between files"@,
        "  Backspace   delete filter text"@,
        "  Enter/Esc   close file filter"@,
        ""@,
        "Press ? or Esc to close this help."@,
    ]
}

/// What the pager says about its keys.
pub fn help_lines() -> (lines: Vec<&'static str>)
    ensures
        slices(lines@) == help_text(),
{
    let lines = vec![
        "mdiff help",
        "",
        "Navigation",
        "  q           quit pager",
        "  ?           toggle help",
        "  Up/PageUp   page up",
        "  Down/PageDown/Space",
        "              page down",
        "  g/Home      jump to top",
        "  G/End       jump to bottom",
        "  Left/Right  scroll horizontally",
        "  Mouse wheel scroll",
        "",
        "Search",
        "  /           open search",
        "  Enter       confirm search",
        "  n           next match",
        "  N           previous match",
        "  Esc         leave search",
        "",
        "File filter",
        "  Ctrl-F      open file filter",
        "  Type        narrow files",
        "  Up/Down     jump between files",
        "  Backspace   delete filter text",
        "  Enter/Esc   close file filter",
        "",
        "Press ? or Esc to close this help.",
    ];
    assert(slices(lines@) =~= help_text());
    lines
}

// ---------------------------------------------------------------------------
// Laws
// ---------------------------------------------------------------------------

/// A row takes exactly the columns of the screen, whatever its text is.
pub proof fn lemma_hud_row_is_full_width(text: Seq<char>, width: nat)
    ensures
        paint::columns(padded(text, width)) == width,
{
    let kept = paint::clip(text, width);
    let room = (width - paint::columns(kept)) as nat;
    width::lemma_clip(text, width, 0);
    width::lemma_columns_add(kept, text::spaces(room), 0);
    width::lemma_spaces_columns(room, 0);
}

/// The status of a search is shown whole, at the right edge, wherever the
/// screen is wide enough for it.
pub proof fn lemma_search_status_is_shown(query: Seq<char>, width: nat, status: Seq<char>)
    requires
        paint::columns(status) <= width,
    ensures
        padded(search_text(query, width, Some(status)), width) == search_text(
            query,
            width,
            Some(status),
        ),
        ({
            let row = search_text(query, width, Some(status));
            row.skip(row.len() - status.len()) == status
        }),
        paint::columns(search_text(query, width, Some(status))) == width,
{
    let row = search_text(query, width, Some(status));
    let taken = paint::columns(status) + if width > paint::columns(status) {
        1nat
    } else {
        0nat
    };
    let room = (width - taken) as nat;
    let shown = paint::clip("/"@ + query, room);
    width::lemma_clip("/"@ + query, room, 0);
    let pad = (width - paint::columns(shown) - paint::columns(status)) as nat;
    assert(row =~= shown + text::spaces(pad) + status);
    width::lemma_columns_add(shown, text::spaces(pad), 0);
    width::lemma_spaces_columns(pad, 0);
    width::lemma_columns_add(shown + text::spaces(pad), status, 0);
    width::lemma_clip(row, width, 0);
    assert(padded(row, width) =~= row);
    assert(row.skip(row.len() - status.len()) =~= status);
}

/// The box of the help stays on the screen and stands in the middle of it: the
/// margins on both sides differ by one at most.
pub proof fn lemma_overlay_is_centered(width: nat, height: nat, list: Seq<Seq<char>>)
    ensures
        ({
            let place = overlay_box(width, height, list);
            &&& place.x + place.width <= width
            &&& place.y + place.height <= height
            &&& 0 <= (width - place.x - place.width) - place.x <= 1
            &&& 0 <= (height - place.y - place.height) - place.y <= 1
        }),
{
}

} // verus!
