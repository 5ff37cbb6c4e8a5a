//! How escape sequences are read.

use super::ansi;
use super::ansi::TextStyle;
use super::ansi::ESCAPE;
use super::paint_laws;
use crate::terminal_palette::AnsiColor;
use crate::text;
use vstd::prelude::*;

verus! {

broadcast use vstd::seq::group_seq_axioms;

/// What each code does to a style: 0 makes it plain, 1, 2 and 3 make it bold, dim
/// and italic, 22 takes bold and dim away, 23 italic and 49 the background. Other
/// codes do nothing, and a sequence without codes makes it plain.
pub proof fn lemma_codes(style: TextStyle, code: nat)
    requires
        code <= 65535,
    ensures
        ansi::after_codes(style, Seq::empty()) == (TextStyle {
            bold: false,
            dim: false,
            italic: false,
            background: None,
        }),
        ({
            let after = ansi::after_codes(style, text::decimal(code));
            &&& after.bold == if code == 1 {
                true
            } else if code == 0 || code == 22 {
                false
            } else {
                style.bold
            }
            &&& after.dim == if code == 2 {
                true
            } else if code == 0 || code == 22 {
                false
            } else {
                style.dim
            }
            &&& after.italic == if code == 3 {
                true
            } else if code == 0 || code == 23 {
                false
            } else {
                style.italic
            }
            &&& after.background == if code == 0 || code == 49 {
                None
            } else {
                style.background
            }
        }),
{
    paint_laws::lemma_code(style, code);
}

proof fn lemma_number_part(code: nat)
    requires
        code <= 65535,
    ensures
        text::without(text::decimal(code), ';'),
        text::parse_number(text::decimal(code), 65535) == Some(code),
{
    paint_laws::lemma_decimal_reads_back(code, 65535);
    let digits = text::decimal(code);
    assert forall|i: int| 0 <= i < digits.len() implies #[trigger] digits[i] != ';' by {
        assert(text::is_digit(digits[i]));
    }
}

proof fn lemma_parts_behind(style: TextStyle, first: Seq<char>, parts: Seq<Seq<char>>, index: int)
    requires
        0 <= index,
    ensures
        ansi::after_parts(style, seq![first] + parts, index + 1) == ansi::after_parts(
            style,
            parts,
            index,
        ),
    decreases parts.len() - index,
{
    let all = seq![first] + parts;
    if index < parts.len() {
        assert(all[index + 1] == parts[index]);
        match text::parse_number(parts[index], 65535) {
            None => {
                lemma_parts_behind(style, first, parts, index + 1);
            },
            Some(code) => {
                if index + 1 < parts.len() {
                    assert(all[index + 2] == parts[index + 1]);
                }
                if index + 2 < parts.len() {
                    assert(all[index + 3] == parts[index + 2]);
                }
                if index + 3 < parts.len() {
                    assert(all[index + 4] == parts[index + 3]);
                }
                if index + 4 < parts.len() {
                    assert(all[index + 5] == parts[index + 4]);
                }
                let (next, used) = ansi::after_code(style, parts, index, code);
                assert(ansi::after_code(style, all, index + 1, code) == (next, used));
                lemma_parts_behind(next, first, parts, index + used);
            },
        }
    }
}

/// Codes work one after the other: those behind the first work on the style that
/// the first leaves.
pub proof fn lemma_codes_work_one_by_one(style: TextStyle, code: nat, rest: Seq<char>)
    requires
        code <= 65535,
        code != 48,
        rest.len() > 0,
    ensures
        ansi::after_codes(style, text::decimal(code) + seq![';'] + rest) == ansi::after_codes(
            ansi::after_codes(style, text::decimal(code)),
            rest,
        ),
{
    let first = text::decimal(code);
    let whole = first + seq![';'] + rest;
    lemma_number_part(code);
    paint_laws::lemma_code(style, code);
    paint_laws::lemma_find_behind(first, ';', rest);
    assert(whole.take(first.len() as int) =~= first);
    assert(whole.skip(first.len() as int + 1) =~= rest);
    let parts = text::split(rest, ';');
    assert(text::split(whole, ';') == seq![first] + parts);
    let next = ansi::after_codes(style, first);
    assert(ansi::after_code(style, seq![first] + parts, 0, code) == (next, 1nat));
    lemma_parts_behind(next, first, parts, 0);
}

/// A background is a color by its number, or a mixture of red, green and blue.
/// Nothing else of the style changes.
pub proof fn lemma_background_codes(style: TextStyle, index: u8, red: u8, green: u8, blue: u8)
    ensures
        ansi::after_codes(style, ansi::background_codes(AnsiColor::Indexed(index))) == (TextStyle {
            background: Some(AnsiColor::Indexed(index)),
            ..style
        }),
        ansi::after_codes(style, ansi::background_codes(AnsiColor::Rgb(red, green, blue))) == (
        TextStyle { background: Some(AnsiColor::Rgb(red, green, blue)), ..style }),
        ansi::background_codes(AnsiColor::Indexed(index)) == seq!['4', '8', ';', '5', ';']
            + text::decimal(index as nat),
        ansi::background_codes(AnsiColor::Rgb(red, green, blue)) == seq![
            '4',
            '8',
            ';',
            '2',
            ';',
        ] + text::decimal(red as nat) + seq![';'] + text::decimal(green as nat) + seq![';']
            + text::decimal(blue as nat),
{
    paint_laws::lemma_background_reads_back(style, AnsiColor::Indexed(index));
    paint_laws::lemma_background_reads_back(style, AnsiColor::Rgb(red, green, blue));
    reveal_strlit("48;5;");
    reveal_strlit("48;2;");
    reveal_strlit(";");
    assert("48;5;"@ =~= seq!['4', '8', ';', '5', ';']);
    assert("48;2;"@ =~= seq!['4', '8', ';', '2', ';']);
    assert(";"@ =~= seq![';']);
}

/// Of escape sequences nothing is shown: not of one that has its end, not of one
/// that has none, and not of an escape character that starts none. Everything
/// else is shown.
pub proof fn lemma_what_is_shown(codes: Seq<char>, ch: char, rest: Seq<char>)
    requires
        text::without(codes, 'm'),
    ensures
        ansi::shown_text(seq![ESCAPE, '['] + codes + seq!['m'] + rest) == ansi::shown_text(rest),
        ansi::shown_text(seq![ESCAPE, '['] + codes) == Seq::<char>::empty(),
        rest.len() == 0 || rest[0] != '[' ==> ansi::shown_text(seq![ESCAPE] + rest)
            == ansi::shown_text(rest),
        ch != ESCAPE ==> ansi::shown_text(seq![ch] + rest) == seq![ch] + ansi::shown_text(rest),
        ansi::shown_text(Seq::empty()) == Seq::<char>::empty(),
{
    let none = Seq::<char>::empty();
    assert(ansi::shown_text(none) =~= none);
    let whole = seq![ESCAPE, '['] + codes + seq!['m'] + rest;
    assert(whole[0] == ESCAPE && whole[1] == '[');
    assert(whole.skip(2) =~= codes + seq!['m'] + rest);
    paint_laws::lemma_find_behind(codes, 'm', rest);
    assert(ansi::after_escape(whole) =~= rest);
    let open = seq![ESCAPE, '['] + codes;
    assert(open[0] == ESCAPE && open[1] == '[');
    assert(open.skip(2) =~= codes);
    text::lemma_find_char(codes, 'm');
    assert(ansi::after_escape(open) =~= none);
    let lone = seq![ESCAPE] + rest;
    assert(lone.drop_first() =~= rest);
    if rest.len() > 0 {
        assert(lone[1] == rest[0]);
    }
    let plain = seq![ch] + rest;
    assert(plain[0] == ch);
    assert(plain.drop_first() =~= rest);
}

/// How the cells of a text are read: an escape sequence gives no cell and changes
/// the style of what follows; any other character is a cell in the style so far,
/// which takes as many bytes as the character, also an escape character that
/// starts no sequence.
pub proof fn lemma_cells_are_read(
    codes: Seq<char>,
    ch: char,
    rest: Seq<char>,
    style: TextStyle,
    offset: nat,
)
    requires
        text::without(codes, 'm'),
    ensures
        ansi::cells_from(seq![ESCAPE, '['] + codes + seq!['m'] + rest, style, offset)
            == ansi::cells_from(rest, ansi::after_codes(style, codes), offset),
        ansi::cells_from(seq![ESCAPE, '['] + codes, style, offset).len() == 0,
        ch != ESCAPE || rest.len() == 0 || rest[0] != '[' ==> ansi::cells_from(
            seq![ch] + rest,
            style,
            offset,
        ) == seq![
            ansi::CellView { ch, style, start: offset, end: offset + text::utf8_len(ch) },
        ] + ansi::cells_from(rest, style, offset + text::utf8_len(ch)),
        ansi::cells_from(Seq::empty(), style, offset).len() == 0,
{
    let whole = seq![ESCAPE, '['] + codes + seq!['m'] + rest;
    assert(whole[0] == ESCAPE && whole[1] == '[');
    assert(whole.skip(2) =~= codes + seq!['m'] + rest);
    paint_laws::lemma_find_behind(codes, 'm', rest);
    assert(ansi::escape_codes(whole) =~= codes);
    assert(ansi::after_escape(whole) =~= rest);
    let open = seq![ESCAPE, '['] + codes;
    assert(open[0] == ESCAPE && open[1] == '[');
    assert(open.skip(2) =~= codes);
    text::lemma_find_char(codes, 'm');
    assert(ansi::after_escape(open) =~= Seq::<char>::empty());
    assert(ansi::cells_from(
        ansi::after_escape(open),
        ansi::after_codes(style, ansi::escape_codes(open)),
        offset,
    ).len() == 0);
    let plain = seq![ch] + rest;
    assert(plain[0] == ch);
    assert(plain.drop_first() =~= rest);
    if rest.len() > 0 {
        assert(plain[1] == rest[0]);
    }
}

} // verus!
