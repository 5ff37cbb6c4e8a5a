//! Text with escape sequences: what it shows, and in which style.

use crate::terminal_palette::AnsiColor;
use crate::text;
use crate::text::char_bytes;
use crate::text::char_list;
use crate::text::find_from;
use crate::text::join_texts;
use crate::text::push_decimal;
use crate::text::read_number;
use crate::text::same_text;
use crate::text::slice_text;
use crate::text::split_text;
use crate::text::text_bytes;
use vstd::prelude::*;

verus! {

broadcast use vstd::seq::group_seq_axioms;

/// The character that starts an escape sequence.
pub const ESCAPE: char = '\u{1b}';

/// How a character is shown.
#[derive(Clone, Copy, Debug, Eq, PartialEq, Structural)]
pub struct TextStyle {
    pub bold: bool,
    pub dim: bool,
    pub italic: bool,
    pub background: Option<AnsiColor>,
}

/// The style of text without escape sequences.
pub open spec fn plain_style() -> TextStyle {
    TextStyle { bold: false, dim: false, italic: false, background: None }
}

impl Default for TextStyle {
    fn default() -> (style: Self)
        ensures
            style == plain_style(),
    {
        TextStyle { bold: false, dim: false, italic: false, background: None }
    }
}

/// A character that is shown: its style, and the bytes of the shown text that
/// it takes.
#[derive(Clone, Copy, Debug, Eq, PartialEq)]
pub struct StyledCell {
    pub ch: char,
    pub style: TextStyle,
    pub start: usize,
    pub end: usize,
}

/// What a [`StyledCell`] says.
pub struct CellView {
    pub ch: char,
    pub style: TextStyle,
    pub start: nat,
    pub end: nat,
}

impl View for StyledCell {
    type V = CellView;

    open spec fn view(&self) -> CellView {
        CellView { ch: self.ch, style: self.style, start: self.start as nat, end: self.end as nat }
    }
}

/// What a list of cells says.
pub open spec fn cell_views(cells: Seq<StyledCell>) -> Seq<CellView> {
    cells.map_values(|cell: StyledCell| cell@)
}

/// The characters of a list of cells.
pub open spec fn cell_chars(cells: Seq<CellView>) -> Seq<char> {
    cells.map_values(|cell: CellView| cell.ch)
}

// ---------------------------------------------------------------------------
// Escape sequences
// ---------------------------------------------------------------------------

/// Whether `text` begins with an escape sequence.
pub open spec fn starts_escape(text: Seq<char>) -> bool {
    text.len() >= 2 && text[0] == ESCAPE && text[1] == '['
}

/// The codes of the escape sequence that `text` begins with: what stands
/// before its final `m`.
pub open spec fn escape_codes(text: Seq<char>) -> Seq<char> {
    text.skip(2).take(text::find_char(text.skip(2), 'm') as int)
}

/// What follows the escape sequence that `text` begins with; nothing if the
/// sequence has no end.
pub open spec fn after_escape(text: Seq<char>) -> Seq<char> {
    let at = text::find_char(text.skip(2), 'm') + 2;
    if at < text.len() {
        text.skip(at as int + 1)
    } else {
        Seq::empty()
    }
}

/// The text that `text` shows: without its escape sequences, and without
/// escape characters that start none.
pub open spec fn shown_text(text: Seq<char>) -> Seq<char>
    decreases text.len(),
{
    if text.len() == 0 {
        Seq::empty()
    } else if starts_escape(text) {
        shown_text(after_escape(text))
    } else if text[0] == ESCAPE {
        shown_text(text.drop_first())
    } else {
        seq![text[0]] + shown_text(text.drop_first())
    }
}

/// Finds the end of the escape sequence at `from`: the position of its final
/// `m`, or the number of characters.
fn escape_end(chars: &Vec<char>, from: usize) -> (end: usize)
    requires
        from + 2 <= chars.len(),
    ensures
        from + 2 <= end <= chars@.len(),
        escape_codes(chars@.skip(from as int)) == chars@.subrange(from + 2, end as int),
        end < chars@.len() ==> after_escape(chars@.skip(from as int)) == chars@.skip(end + 1),
        end == chars@.len() ==> after_escape(chars@.skip(from as int)) == Seq::<char>::empty(),
{
    let end = find_from(chars, from + 2, 'm');
    proof {
        let rest = chars@.skip(from as int);
        assert(rest.skip(2) =~= chars@.skip(from + 2));
        assert(escape_codes(rest) =~= chars@.subrange(from + 2, end as int));
        if end < chars@.len() {
            assert(rest.skip(end - from + 1) =~= chars@.skip(end + 1));
        }
    }
    end
}

/// The text that `text` shows.
pub fn strip_ansi_text(text: &str) -> (shown: String)
    ensures
        shown@ == shown_text(text@),
{
    let chars = char_list(text);
    let mut shown = String::new();
    let mut index: usize = 0;
    assert(chars@.skip(0) =~= text@);
    while index < chars.len()
        invariant
            index <= chars@.len(),
            chars@ == text@,
            shown_text(text@) == shown@ + shown_text(chars@.skip(index as int)),
        decreases chars@.len() - index,
    {
        let ghost rest = chars@.skip(index as int);
        let ghost before = shown@;
        assert(rest.drop_first() =~= chars@.skip(index + 1));
        let ch = chars[index];
        if ch == ESCAPE {
            if index + 1 < chars.len() && chars[index + 1] == '[' {
                assert(starts_escape(rest));
                let end = escape_end(&chars, index);
                index = if end < chars.len() {
                    end + 1
                } else {
                    end
                };
                assert(chars@.skip(index as int) =~= after_escape(rest));
            } else {
                index += 1;
            }
        } else {
            shown.push(ch);
            index += 1;
            assert(before + shown_text(rest) =~= shown@ + shown_text(chars@.skip(index as int)));
        }
    }
    shown
}

// ---------------------------------------------------------------------------
// Styles
// ---------------------------------------------------------------------------

/// `style` on another background.
pub open spec fn on_background(style: TextStyle, background: Option<AnsiColor>) -> TextStyle {
    TextStyle { background, ..style }
}

/// The style after the code at position `index` of `parts`, whose number is
/// `code`, and the number of parts that the code takes: a background takes its
/// color from the parts that follow.
pub open spec fn after_code(
    style: TextStyle,
    parts: Seq<Seq<char>>,
    index: int,
    code: nat,
) -> (TextStyle, nat) {
    if code == 0 {
        (plain_style(), 1)
    } else if code == 1 {
        (TextStyle { bold: true, ..style }, 1)
    } else if code == 2 {
        (TextStyle { dim: true, ..style }, 1)
    } else if code == 3 {
        (TextStyle { italic: true, ..style }, 1)
    } else if code == 22 {
        (TextStyle { bold: false, dim: false, ..style }, 1)
    } else if code == 23 {
        (TextStyle { italic: false, ..style }, 1)
    } else if code == 49 {
        (on_background(style, None), 1)
    } else if code == 48 && index + 2 < parts.len() && parts[index + 1] == "5"@ {
        match text::parse_number(parts[index + 2], 255) {
            Some(value) => (on_background(style, Some(AnsiColor::Indexed(value as u8))), 3),
            None => (style, 3),
        }
    } else if code == 48 && index + 4 < parts.len() && parts[index + 1] == "2"@ {
        match (
            text::parse_number(parts[index + 2], 255),
            text::parse_number(parts[index + 3], 255),
            text::parse_number(parts[index + 4], 255),
        ) {
            (Some(r), Some(g), Some(b)) => (
                on_background(style, Some(AnsiColor::Rgb(r as u8, g as u8, b as u8))),
                5,
            ),
            _ => (style, 5),
        }
    } else {
        (style, 1)
    }
}

/// The style after the codes from position `index` of `parts` on. A part that
/// is no number is passed over.
pub open spec fn after_parts(style: TextStyle, parts: Seq<Seq<char>>, index: int) -> TextStyle
    decreases parts.len() - index,
{
    if index >= parts.len() {
        style
    } else {
        match text::parse_number(parts[index], 65535) {
            None => after_parts(style, parts, index + 1),
            Some(code) => {
                let (next, used) = after_code(style, parts, index, code);
                after_parts(next, parts, index + used)
            },
        }
    }
}

/// The style after an escape sequence with the given codes. One without codes
/// makes the style plain.
pub open spec fn after_codes(style: TextStyle, codes: Seq<char>) -> TextStyle {
    if codes.len() == 0 {
        plain_style()
    } else {
        after_parts(style, text::split(codes, ';'), 0)
    }
}

/// Reads `text` as a number.
fn parse_text_number(text: &str, max: usize) -> (number: Option<usize>)
    ensures
        match number {
            Some(n) => text::parse_number(text@, max as nat) == Some(n as nat) && n <= max,
            None => text::parse_number(text@, max as nat) is None,
        },
{
    let chars = char_list(text);
    assert(chars@.subrange(0, chars@.len() as int) =~= text@);
    read_number(&chars, 0, chars.len(), max)
}

/// The background that follows a background code: the color, if it can be
/// read, and the number of parts that belong to it.
fn background_after(parts: &Vec<String>, index: usize) -> (background: (Option<AnsiColor>, usize))
    requires
        index < parts@.len(),
    ensures
        forall|style: TextStyle|
            #[trigger] after_code(style, text::texts(parts@), index as int, 48) == match background.0 {
                Some(color) => (on_background(style, Some(color)), background.1 as nat),
                None => (style, background.1 as nat),
            },
        1 <= background.1,
        background.1 > 1 ==> index + background.1 <= parts@.len(),
{
    let ghost views = text::texts(parts@);
    let left: usize = parts.len() - index;
    if left > 2 && same_text(parts[index + 1].as_str(), "5") {
        assert(views[index + 1] == "5"@);
        assert(views[index + 2] == parts@[index + 2]@);
        match parse_text_number(parts[index + 2].as_str(), 255) {
            Some(value) => (Some(AnsiColor::Indexed(value as u8)), 3),
            None => (None, 3),
        }
    } else if left > 4 && same_text(parts[index + 1].as_str(), "2") {
        assert(views[index + 1] == "2"@);
        assert(views[index + 2] == parts@[index + 2]@);
        assert(views[index + 3] == parts@[index + 3]@);
        assert(views[index + 4] == parts@[index + 4]@);
        let r = parse_text_number(parts[index + 2].as_str(), 255);
        let g = parse_text_number(parts[index + 3].as_str(), 255);
        let b = parse_text_number(parts[index + 4].as_str(), 255);
        proof {
            reveal_strlit("5");
            reveal_strlit("2");
            assert("5"@[0] != "2"@[0]);
        }
        match (r, g, b) {
            (Some(r), Some(g), Some(b)) => (Some(AnsiColor::Rgb(r as u8, g as u8, b as u8)), 5),
            _ => (None, 5),
        }
    } else {
        (None, 1)
    }
}

/// Changes `style` as the codes of an escape sequence say.
pub fn apply_sgr(style: &mut TextStyle, sequence: &str)
    ensures
        *final(style) == after_codes(*old(style), sequence@),
{
    if sequence.is_empty() {
        *style = TextStyle::default();
        return;
    }
    let parts = split_text(sequence, ';');
    let ghost views = text::texts(parts@);
    let mut index: usize = 0;
    while index < parts.len()
        invariant
            index <= parts@.len(),
            views == text::texts(parts@),
            after_codes(*old(style), sequence@) == after_parts(*style, views, index as int),
        decreases parts@.len() - index,
    {
        assert(views[index as int] == parts@[index as int]@);
        match parse_text_number(parts[index].as_str(), 65535) {
            None => {
                index += 1;
            },
            Some(code) => {
                let ghost before = *style;
                if code == 48 {
                    let (background, used) = background_after(&parts, index);
                    assert(after_code(before, views, index as int, 48) == match background {
                        Some(color) => (on_background(before, Some(color)), used as nat),
                        None => (before, used as nat),
                    });
                    if background.is_some() {
                        style.background = background;
                    }
                    index += used;
                } else {
                    if code == 0 {
                        *style = TextStyle::default();
                    } else if code == 1 {
                        style.bold = true;
                    } else if code == 2 {
                        style.dim = true;
                    } else if code == 3 {
                        style.italic = true;
                    } else if code == 22 {
                        style.bold = false;
                        style.dim = false;
                    } else if code == 23 {
                        style.italic = false;
                    } else if code == 49 {
                        style.background = None;
                    }
                    index += 1;
                }
            },
        }
    }
}

// ---------------------------------------------------------------------------
// Cells
// ---------------------------------------------------------------------------

/// The cells of `text`, whose first character that is shown is in `style` and
/// starts at byte `offset` of the shown text.
pub open spec fn cells_from(text: Seq<char>, style: TextStyle, offset: nat) -> Seq<CellView>
    decreases text.len(),
{
    if text.len() == 0 {
        Seq::empty()
    } else if starts_escape(text) {
        cells_from(after_escape(text), after_codes(style, escape_codes(text)), offset)
    } else {
        let end = offset + text::utf8_len(text[0]);
        seq![CellView { ch: text[0], style, start: offset, end }] + cells_from(
            text.drop_first(),
            style,
            end,
        )
    }
}

/// The cells of `text`.
pub open spec fn cells_of(text: Seq<char>) -> Seq<CellView> {
    cells_from(text, plain_style(), 0)
}

proof fn lemma_cells_step(text: Seq<char>, ch: char, style: TextStyle, offset: nat)
    requires
        text.len() > 0,
        text[0] == ch,
        !starts_escape(text),
    ensures
        ({
            let end = offset + text::utf8_len(ch);
            let cell = CellView { ch, style, start: offset, end };
            let rest = cells_from(text.drop_first(), style, end);
            let cells = cells_from(text, style, offset);
            &&& cells == seq![cell] + rest
            &&& cells.len() == rest.len() + 1
            &&& cells[0] == cell
            &&& forall|i: int| 1 <= i < cells.len() ==> #[trigger] cells[i] == rest[i - 1]
            &&& cell_chars(cells) == seq![ch] + cell_chars(rest)
        }),
{
    let end = offset + text::utf8_len(ch);
    let cell = CellView { ch, style, start: offset, end };
    let rest = cells_from(text.drop_first(), style, end);
    let cells = cells_from(text, style, offset);
    assert(cells == seq![cell] + rest);
    assert(cell_chars(cells) =~= seq![ch] + cell_chars(rest));
}

proof fn lemma_push_cell(cells: Seq<StyledCell>, cell: StyledCell)
    ensures
        cell_views(cells.push(cell)) == cell_views(cells) + seq![cell@],
{
    assert(cell_views(cells.push(cell)) =~= cell_views(cells) + seq![cell@]);
}

/// Whether the bytes of the cells follow one another from byte `offset` on.
pub open spec fn contiguous(cells: Seq<CellView>, offset: nat) -> bool {
    forall|i: int|
        0 <= i < cells.len() ==> (#[trigger] cells[i]).start == offset + text::byte_len(
            cell_chars(cells).take(i),
        ) && cells[i].end == cells[i].start + text::utf8_len(cells[i].ch)
}

/// The cells of a text follow one another.
pub proof fn lemma_cells_contiguous(text: Seq<char>, style: TextStyle, offset: nat)
    ensures
        contiguous(cells_from(text, style, offset), offset),
    decreases text.len(),
{
    if text.len() == 0 {
    } else if starts_escape(text) {
        lemma_cells_contiguous(
            after_escape(text),
            after_codes(style, escape_codes(text)),
            offset,
        );
    } else {
        let end = offset + text::utf8_len(text[0]);
        let rest = cells_from(text.drop_first(), style, end);
        let cells = cells_from(text, style, offset);
        lemma_cells_contiguous(text.drop_first(), style, end);
        lemma_cells_step(text, text[0], style, offset);
        assert forall|i: int| 0 <= i < cells.len() implies (#[trigger] cells[i]).start == offset
            + text::byte_len(cell_chars(cells).take(i)) && cells[i].end == cells[i].start
            + text::utf8_len(cells[i].ch) by {
            let chars = cell_chars(cells);
            if i == 0 {
                assert(chars.take(0) =~= Seq::<char>::empty());
                assert(text::byte_len(Seq::<char>::empty()) == 0);
            } else {
                assert(cells[i] == rest[i - 1]);
                assert(chars == seq![text[0]] + cell_chars(rest));
                assert(chars.take(i) =~= seq![text[0]] + cell_chars(rest).take(i - 1));
                text::lemma_byte_len_cons(text[0], cell_chars(rest).take(i - 1));
            }
        }
    }
}

/// Takes `text` apart into the characters that it shows.
pub fn parse_styled_cells(text: &str) -> (cells: Vec<StyledCell>)
    ensures
        cell_views(cells@) == cells_of(text@),
        contiguous(cell_views(cells@), 0),
{
    let total = text_bytes(text);
    let chars = char_list(text);
    let mut cells: Vec<StyledCell> = Vec::new();
    let mut style = TextStyle::default();
    let mut plain_offset: usize = 0;
    let mut index: usize = 0;
    assert(chars@.skip(0) =~= text@);
    assert(cell_views(cells@) =~= Seq::<CellView>::empty());
    while index < chars.len()
        invariant
            index <= chars@.len(),
            chars@ == text@,
            total == text::byte_len(text@),
            plain_offset + text::byte_len(chars@.skip(index as int)) <= total,
            cells_of(text@) =~= cell_views(cells@) + cells_from(
                chars@.skip(index as int),
                style,
                plain_offset as nat,
            ),
        decreases chars@.len() - index,
    {
        let ghost rest = chars@.skip(index as int);
        let ghost before = cell_views(cells@);
        assert(rest.drop_first() =~= chars@.skip(index + 1));
        let ch = chars[index];
        if ch == ESCAPE && index + 1 < chars.len() && chars[index + 1] == '[' {
            assert(starts_escape(rest));
            let end = escape_end(&chars, index);
            let sequence = slice_text(&chars, index + 2, end);
            apply_sgr(&mut style, sequence.as_str());
            let next: usize = if end < chars.len() {
                end + 1
            } else {
                end
            };
            proof {
                assert(chars@.skip(next as int) =~= after_escape(rest));
                assert(rest.skip(next - index) =~= chars@.skip(next as int));
                text::lemma_byte_len_split(rest, next - index);
            }
            index = next;
        } else {
            let start = plain_offset;
            plain_offset += char_bytes(ch);
            let cell = StyledCell { ch, style, start, end: plain_offset };
            proof {
                lemma_push_cell(cells@, cell);
                lemma_cells_step(rest, ch, style, start as nat);
            }
            cells.push(cell);
            index += 1;
            assert(before + cells_from(rest, style, start as nat) =~= cell_views(cells@)
                + cells_from(chars@.skip(index as int), style, plain_offset as nat));
        }
    }
    proof {
        lemma_cells_contiguous(text@, plain_style(), 0);
    }
    cells
}

/// Whether each escape character of `text` starts an escape sequence.
pub open spec fn escapes_are_sequences(text: Seq<char>) -> bool
    decreases text.len(),
{
    if text.len() == 0 {
        true
    } else if starts_escape(text) {
        escapes_are_sequences(after_escape(text))
    } else {
        text[0] != ESCAPE && escapes_are_sequences(text.drop_first())
    }
}

/// The cells of a text are the characters of the text that it shows, so that
/// what is found in the one is found at the same bytes of the other. Left out
/// are texts with an escape character that starts no sequence: such a
/// character has a cell, but is not shown.
pub proof fn lemma_cells_are_shown_text(text: Seq<char>, style: TextStyle, offset: nat)
    requires
        escapes_are_sequences(text),
    ensures
        cell_chars(cells_from(text, style, offset)) == shown_text(text),
    decreases text.len(),
{
    if text.len() == 0 {
        assert(cell_chars(cells_from(text, style, offset)) =~= shown_text(text));
    } else if starts_escape(text) {
        lemma_cells_are_shown_text(
            after_escape(text),
            after_codes(style, escape_codes(text)),
            offset,
        );
    } else {
        let end = offset + text::utf8_len(text[0]);
        lemma_cells_are_shown_text(text.drop_first(), style, end);
        lemma_cells_step(text, text[0], style, offset);
    }
}

// ---------------------------------------------------------------------------
// Writing styles
// ---------------------------------------------------------------------------

/// The codes of a background.
pub open spec fn background_codes(color: AnsiColor) -> Seq<char> {
    match color {
        AnsiColor::Indexed(index) => "48;5;"@ + text::decimal(index as nat),
        AnsiColor::Rgb(r, g, b) => "48;2;"@ + text::decimal(r as nat) + ";"@ + text::decimal(
            g as nat,
        ) + ";"@ + text::decimal(b as nat),
    }
}

/// The codes that make plain text `style`, one for each thing in which the two
/// differ.
pub open spec fn style_codes(style: TextStyle) -> Seq<Seq<char>> {
    let bold = if style.bold {
        seq!["1"@]
    } else {
        Seq::empty()
    };
    let dim = if style.dim {
        seq!["2"@]
    } else {
        Seq::empty()
    };
    let italic = if style.italic {
        seq!["3"@]
    } else {
        Seq::empty()
    };
    let background = match style.background {
        Some(color) => seq![background_codes(color)],
        None => Seq::empty(),
    };
    bold + dim + italic + background
}

/// The escape sequence that makes plain text `style`.
pub open spec fn style_escape(style: TextStyle) -> Seq<char> {
    if style_codes(style).len() == 0 {
        Seq::empty()
    } else {
        "\u{1b}["@ + text::join(style_codes(style), ";"@) + "m"@
    }
}

/// Appends the codes of a background.
fn background_code_text(color: AnsiColor) -> (codes: String)
    ensures
        codes@ == background_codes(color),
{
    match color {
        AnsiColor::Indexed(index) => {
            let mut codes = "48;5;".to_owned();
            push_decimal(&mut codes, index as usize);
            codes
        },
        AnsiColor::Rgb(r, g, b) => {
            let mut codes = "48;2;".to_owned();
            push_decimal(&mut codes, r as usize);
            codes.push_str(";");
            push_decimal(&mut codes, g as usize);
            codes.push_str(";");
            push_decimal(&mut codes, b as usize);
            codes
        },
    }
}

/// The escape sequence that makes plain text `style`; none for plain text.
pub fn style_prefix(style: TextStyle) -> (prefix: Option<String>)
    ensures
        prefix is None <==> style == plain_style(),
        style_escape(style) == match prefix {
            Some(prefix) => prefix@,
            None => Seq::empty(),
        },
{
    let mut codes: Vec<String> = Vec::new();
    if style.bold {
        codes.push("1".to_owned());
    }
    if style.dim {
        codes.push("2".to_owned());
    }
    if style.italic {
        codes.push("3".to_owned());
    }
    match style.background {
        Some(color) => {
            codes.push(background_code_text(color));
        },
        None => {},
    }
    assert(text::texts(codes@) =~= style_codes(style));
    if codes.len() == 0 {
        None
    } else {
        let mut prefix = "\u{1b}[".to_owned();
        prefix.push_str(join_texts(&codes, ";").as_str());
        prefix.push_str("m");
        Some(prefix)
    }
}

} // verus!
