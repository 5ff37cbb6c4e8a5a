//! What holds of every painted line.

use super::ansi;
use super::ansi::CellView;
use super::ansi::TextStyle;
use super::ansi::ESCAPE;
use super::paint;
use super::paint::PaintedChar;
use super::paint::Painting;
use crate::terminal_palette::AnsiColor;
use crate::text;
use crate::width;
use vstd::prelude::*;

verus! {

broadcast use vstd::seq::group_seq_axioms;

// ---------------------------------------------------------------------------
// Codes
// ---------------------------------------------------------------------------

/// The first `ch` stands right behind a text that holds none.
pub proof fn lemma_find_behind(left: Seq<char>, ch: char, right: Seq<char>)
    requires
        text::without(left, ch),
    ensures
        text::find_char(left + seq![ch] + right, ch) == left.len(),
    decreases left.len(),
{
    let all = left + seq![ch] + right;
    if left.len() == 0 {
        assert(all[0] == ch);
    } else {
        assert(all[0] == left[0]);
        assert(all.drop_first() =~= left.drop_first() + seq![ch] + right);
        assert forall|i: int| 0 <= i < left.drop_first().len() implies #[trigger] left.drop_first()[i]
            != ch by {
            assert(left.drop_first()[i] == left[i + 1]);
        }
        lemma_find_behind(left.drop_first(), ch, right);
    }
}

proof fn lemma_find_nowhere(whole: Seq<char>, ch: char)
    requires
        text::without(whole, ch),
    ensures
        text::find_char(whole, ch) == whole.len(),
{
    text::lemma_find_char(whole, ch);
}

/// What was joined by a separator that no part holds is split into the same
/// parts.
pub proof fn lemma_split_join(parts: Seq<Seq<char>>, separator: Seq<char>, ch: char)
    requires
        parts.len() > 0,
        separator == seq![ch],
        forall|i: int| 0 <= i < parts.len() ==> text::without(#[trigger] parts[i], ch),
    ensures
        text::split(text::join(parts, separator), ch) == parts,
    decreases parts.len(),
{
    let whole = text::join(parts, separator);
    if parts.len() == 1 {
        lemma_find_nowhere(parts[0], ch);
        assert(text::split(whole, ch) =~= parts);
    } else {
        let rest = parts.drop_first();
        assert forall|i: int| 0 <= i < rest.len() implies text::without(#[trigger] rest[i], ch) by {
            assert(rest[i] == parts[i + 1]);
        }
        lemma_join_first(parts, separator);
        lemma_split_join(rest, separator, ch);
        let tail = text::join(rest, separator);
        assert(whole =~= parts[0] + seq![ch] + tail);
        assert(text::without(parts[0], ch));
        lemma_find_behind(parts[0], ch, tail);
        assert(whole.take(parts[0].len() as int) =~= parts[0]);
        assert(whole.skip(parts[0].len() as int + 1) =~= tail);
        assert(text::split(whole, ch) =~= parts);
    }
}

/// Joining can also be done from the front.
proof fn lemma_join_first(parts: Seq<Seq<char>>, separator: Seq<char>)
    requires
        parts.len() >= 2,
    ensures
        text::join(parts, separator) == parts[0] + separator + text::join(
            parts.drop_first(),
            separator,
        ),
    decreases parts.len(),
{
    let front = parts.drop_last();
    let rest = parts.drop_first();
    if parts.len() == 2 {
        assert(text::join(front, separator) == parts[0]);
        assert(text::join(rest, separator) == parts[1]);
    } else {
        lemma_join_first(front, separator);
        assert(front.drop_first() =~= rest.drop_last());
        assert(rest.last() == parts.last());
        assert(text::join(parts, separator) =~= parts[0] + separator + text::join(rest, separator));
    }
}

proof fn lemma_join_add(left: Seq<Seq<char>>, right: Seq<Seq<char>>, separator: Seq<char>)
    requires
        left.len() > 0,
        right.len() > 0,
    ensures
        text::join(left + right, separator) == text::join(left, separator) + separator
            + text::join(right, separator),
    decreases right.len(),
{
    let all = left + right;
    assert(all.last() == right.last());
    if right.len() == 1 {
        assert(all.drop_last() =~= left);
    } else {
        assert(all.drop_last() =~= left + right.drop_last());
        lemma_join_add(left, right.drop_last(), separator);
        assert(text::join(all, separator) =~= text::join(left, separator) + separator
            + text::join(right, separator));
    }
}

/// A number is read as it was written.
pub proof fn lemma_decimal_reads_back(n: nat, max: nat)
    requires
        n <= max,
    ensures
        text::parse_number(text::decimal(n), max) == Some(n),
        text::all_digits(text::decimal(n)),
{
    lemma_decimal_value(n);
    let digits = text::decimal(n);
    assert(text::is_digit(digits[0]));
}

proof fn lemma_digit(digit: nat, ch: char)
    requires
        digit < 10,
        ch == text::digit_char(digit),
    ensures
        text::is_digit(ch),
        text::digit_value(ch) == digit,
{
}

proof fn lemma_decimal_value(n: nat)
    ensures
        text::decimal(n).len() > 0,
        text::all_digits(text::decimal(n)),
        text::digits_value(text::decimal(n)) == n,
    decreases n,
{
    let digits = text::decimal(n);
    lemma_digit(n % 10, text::digit_char(n % 10));
    if n < 10 {
        assert(digits.drop_last() =~= Seq::<char>::empty());
        assert(text::digits_value(Seq::<char>::empty()) == 0);
    } else {
        lemma_decimal_value(n / 10);
        assert(digits.drop_last() =~= text::decimal(n / 10));
        assert forall|i: int| 0 <= i < digits.len() implies text::is_digit(#[trigger] digits[i]) by {
            if i < digits.len() - 1 {
                assert(digits[i] == text::decimal(n / 10)[i]);
            }
        }
    }
}

/// The parts of the codes that make plain text `style`.
pub open spec fn style_parts(style: TextStyle) -> Seq<Seq<char>> {
    let bold = if style.bold {
        seq!["1"@]
    } else {
        Seq::empty()
    };
    let dim = if style.dim {
        seq!["2"@]
    } else {
        Seq::empty()
    };
    let italic = if style.italic {
        seq!["3"@]
    } else {
        Seq::empty()
    };
    let background = match style.background {
        Some(color) => background_parts(color),
        None => Seq::empty(),
    };
    bold + dim + italic + background
}

/// The parts of the codes of a background.
pub open spec fn background_parts(color: AnsiColor) -> Seq<Seq<char>> {
    match color {
        AnsiColor::Indexed(index) => seq!["48"@, "5"@, text::decimal(index as nat)],
        AnsiColor::Rgb(r, g, b) => seq![
            "48"@,
            "2"@,
            text::decimal(r as nat),
            text::decimal(g as nat),
            text::decimal(b as nat),
        ],
    }
}

proof fn lemma_flags()
    ensures
        "1"@ == text::decimal(1),
        "2"@ == text::decimal(2),
        "3"@ == text::decimal(3),
        "5"@ == text::decimal(5),
        "48"@ == text::decimal(48),
        "0"@ == text::decimal(0),
        ";"@ == seq![';'],
{
    reveal_strlit("0");
    reveal_strlit("1");
    reveal_strlit("2");
    reveal_strlit("3");
    reveal_strlit("5");
    reveal_strlit("48");
    reveal_strlit(";");
    assert("0"@ =~= text::decimal(0));
    assert("1"@ =~= text::decimal(1));
    assert("2"@ =~= text::decimal(2));
    assert("3"@ =~= text::decimal(3));
    assert("5"@ =~= text::decimal(5));
    assert(text::decimal(4) =~= seq!['4']);
    assert("48"@ =~= text::decimal(48));
    assert(";"@ =~= seq![';']);
}

proof fn lemma_background_join(color: AnsiColor)
    ensures
        text::join(background_parts(color), ";"@) == ansi::background_codes(color),
{
    let parts = background_parts(color);
    reveal_strlit("48;5;");
    reveal_strlit("48;2;");
    reveal_strlit("48");
    reveal_strlit("5");
    reveal_strlit("2");
    reveal_strlit(";");
    let one = parts.take(1);
    let two = parts.take(2);
    let three = parts.take(3);
    assert(text::join(one, ";"@) == "48"@);
    assert(two.drop_last() =~= one);
    assert(text::join(two, ";"@) == "48"@ + ";"@ + parts[1]);
    assert(three.drop_last() =~= two);
    assert(text::join(three, ";"@) == text::join(two, ";"@) + ";"@ + parts[2]);
    match color {
        AnsiColor::Indexed(index) => {
            assert(parts =~= three);
            assert(text::join(parts, ";"@) =~= ansi::background_codes(color));
        },
        AnsiColor::Rgb(r, g, b) => {
            let four = parts.take(4);
            assert(four.drop_last() =~= three);
            assert(text::join(four, ";"@) == text::join(three, ";"@) + ";"@ + parts[3]);
            assert(parts.drop_last() =~= four);
            assert(text::join(parts, ";"@) =~= ansi::background_codes(color));
        },
    }
}

/// The codes of the flags of `style`.
pub open spec fn flag_parts(style: TextStyle) -> Seq<Seq<char>> {
    style_parts(TextStyle { background: None, ..style })
}

proof fn lemma_style_join(style: TextStyle)
    requires
        style != ansi::plain_style(),
    ensures
        text::join(ansi::style_codes(style), ";"@) == text::join(style_parts(style), ";"@),
        style_parts(style).len() > 0,
{
    let flags = flag_parts(style);
    match style.background {
        None => {
            assert(ansi::style_codes(style) =~= style_parts(style));
        },
        Some(color) => {
            lemma_background_join(color);
            let codes = seq![ansi::background_codes(color)];
            assert(text::join(codes, ";"@) == ansi::background_codes(color));
            assert(ansi::style_codes(style) =~= flags + codes);
            assert(style_parts(style) =~= flags + background_parts(color));
            if flags.len() == 0 {
                assert(ansi::style_codes(style) =~= codes);
                assert(style_parts(style) =~= background_parts(color));
            } else {
                lemma_join_add(flags, codes, ";"@);
                lemma_join_add(flags, background_parts(color), ";"@);
            }
        },
    }
}

proof fn lemma_digits_without(digits: Seq<char>, ch: char)
    requires
        text::all_digits(digits),
        !text::is_digit(ch),
    ensures
        text::without(digits, ch),
{
    assert forall|i: int| 0 <= i < digits.len() implies #[trigger] digits[i] != ch by {
        assert(text::is_digit(digits[i]));
    }
}

proof fn lemma_style_parts_are_numbers(style: TextStyle, i: int)
    requires
        0 <= i < style_parts(style).len(),
    ensures
        text::all_digits(style_parts(style)[i]),
{
    lemma_flags();
    lemma_decimal_value(1);
    lemma_decimal_value(2);
    lemma_decimal_value(3);
    lemma_decimal_value(5);
    lemma_decimal_value(48);
    let flags = flag_parts(style);
    let parts = style_parts(style);
    if i < flags.len() {
        assert(parts[i] == flags[i]);
        assert(flags[i] == "1"@ || flags[i] == "2"@ || flags[i] == "3"@);
    } else {
        match style.background {
            None => {},
            Some(color) => {
                assert(parts =~= flags + background_parts(color));
                assert(parts[i] == background_parts(color)[i - flags.len()]);
                match color {
                    AnsiColor::Indexed(index) => {
                        lemma_decimal_value(index as nat);
                    },
                    AnsiColor::Rgb(r, g, b) => {
                        lemma_decimal_value(r as nat);
                        lemma_decimal_value(g as nat);
                        lemma_decimal_value(b as nat);
                    },
                }
            },
        }
    }
}

proof fn lemma_join_without(parts: Seq<Seq<char>>, separator: Seq<char>, ch: char)
    requires
        text::without(separator, ch),
        forall|i: int| 0 <= i < parts.len() ==> text::without(#[trigger] parts[i], ch),
    ensures
        text::without(text::join(parts, separator), ch),
    decreases parts.len(),
{
    let whole = text::join(parts, separator);
    if parts.len() == 1 {
        assert(text::without(parts[0], ch));
    } else if parts.len() > 1 {
        let front = parts.drop_last();
        assert forall|i: int| 0 <= i < front.len() implies text::without(#[trigger] front[i], ch) by {
            assert(front[i] == parts[i]);
        }
        lemma_join_without(front, separator, ch);
        let head = text::join(front, separator);
        assert(text::without(parts[parts.len() - 1], ch));
        assert forall|i: int| 0 <= i < whole.len() implies #[trigger] whole[i] != ch by {
            if i < head.len() {
                assert(whole[i] == head[i]);
            } else if i < head.len() + separator.len() {
                assert(whole[i] == separator[i - head.len()]);
            } else {
                assert(whole[i] == parts.last()[i - head.len() - separator.len()]);
            }
        }
    }
}

proof fn lemma_flag_step(style: TextStyle, parts: Seq<Seq<char>>, i: int, code: nat)
    requires
        0 <= i < parts.len(),
        1 <= code <= 3,
        parts[i] == text::decimal(code),
    ensures
        ansi::after_parts(style, parts, i) == ansi::after_parts(
            if code == 1 {
                TextStyle { bold: true, ..style }
            } else if code == 2 {
                TextStyle { dim: true, ..style }
            } else {
                TextStyle { italic: true, ..style }
            },
            parts,
            i + 1,
        ),
{
    lemma_decimal_reads_back(code, 65535);
}

proof fn lemma_background_step(style: TextStyle, parts: Seq<Seq<char>>, i: int, color: AnsiColor)
    requires
        0 <= i,
        parts.len() == i + background_parts(color).len(),
        forall|j: int|
            0 <= j < background_parts(color).len() ==> parts[i + j] == #[trigger] background_parts(
                color,
            )[j],
    ensures
        ansi::after_parts(style, parts, i) == ansi::on_background(style, Some(color)),
{
    lemma_flags();
    lemma_decimal_reads_back(48, 65535);
    let own = background_parts(color);
    assert(parts[i] == own[0]);
    assert(parts[i + 1] == own[1]);
    assert(parts[i + 2] == own[2]);
    match color {
        AnsiColor::Indexed(index) => {
            lemma_decimal_reads_back(index as nat, 255);
            let (next, used) = ansi::after_code(style, parts, i, 48);
            assert(next == ansi::on_background(style, Some(color)) && used == 3);
            assert(ansi::after_parts(next, parts, i + 3) == next);
        },
        AnsiColor::Rgb(r, g, b) => {
            assert(parts[i + 3] == own[3]);
            assert(parts[i + 4] == own[4]);
            lemma_decimal_reads_back(r as nat, 255);
            lemma_decimal_reads_back(g as nat, 255);
            lemma_decimal_reads_back(b as nat, 255);
            assert("2"@ != "5"@) by {
                reveal_strlit("2");
                reveal_strlit("5");
                assert("2"@[0] != "5"@[0]);
            }
            let (next, used) = ansi::after_code(style, parts, i, 48);
            assert(next == ansi::on_background(style, Some(color)) && used == 5);
            assert(ansi::after_parts(next, parts, i + 5) == next);
        },
    }
}

/// The codes of a background set that background and change nothing else.
pub proof fn lemma_background_reads_back(style: TextStyle, color: AnsiColor)
    ensures
        ansi::after_codes(style, ansi::background_codes(color)) == ansi::on_background(
            style,
            Some(color),
        ),
{
    let parts = background_parts(color);
    let tinted = ansi::on_background(ansi::plain_style(), Some(color));
    lemma_flags();
    lemma_background_join(color);
    assert forall|i: int| 0 <= i < parts.len() implies text::without(#[trigger] parts[i], ';') by {
        assert(style_parts(tinted) =~= parts);
        lemma_style_parts_are_numbers(tinted, i);
        lemma_digits_without(parts[i], ';');
    }
    lemma_split_join(parts, ";"@, ';');
    lemma_background_step(style, parts, 0, color);
    reveal_strlit("48;5;");
    reveal_strlit("48;2;");
    assert(ansi::background_codes(color).len() > 0);
}

/// A style is read as it was written: the codes that are written for it make
/// plain text just that style.
pub proof fn lemma_style_reads_back(style: TextStyle)
    requires
        style != ansi::plain_style(),
    ensures
        ansi::after_codes(
            ansi::plain_style(),
            text::join(ansi::style_codes(style), ";"@),
        ) == style,
        text::without(text::join(ansi::style_codes(style), ";"@), 'm'),
{
    lemma_flags();
    lemma_style_join(style);
    let parts = style_parts(style);
    let flags = flag_parts(style);
    assert forall|i: int| 0 <= i < parts.len() implies text::without(#[trigger] parts[i], ';') && text::without(
        parts[i],
        'm',
    ) by {
        lemma_style_parts_are_numbers(style, i);
        lemma_digits_without(parts[i], ';');
        lemma_digits_without(parts[i], 'm');
    }
    lemma_split_join(parts, ";"@, ';');
    lemma_join_without(parts, ";"@, 'm');
    let codes = text::join(parts, ";"@);
    assert(codes.len() > 0) by {
        if codes.len() == 0 {
            assert(text::split(codes, ';') == seq![codes]);
            assert(parts[0] == codes);
            if flags.len() > 0 {
                assert(parts[0] == flags[0]);
            }
            lemma_decimal_value(1);
            lemma_decimal_value(2);
            lemma_decimal_value(3);
            lemma_decimal_value(48);
        }
    }
    let start = ansi::plain_style();
    let at_dim: int = if style.bold {
        1
    } else {
        0
    };
    let at_italic: int = at_dim + if style.dim {
        1int
    } else {
        0int
    };
    let with_bold = TextStyle { bold: style.bold, ..start };
    let with_dim = TextStyle { dim: style.dim, ..with_bold };
    let with_italic = TextStyle { italic: style.italic, ..with_dim };
    if style.bold {
        lemma_flag_step(start, parts, 0, 1);
    }
    if style.dim {
        lemma_flag_step(with_bold, parts, at_dim, 2);
    }
    if style.italic {
        lemma_flag_step(with_dim, parts, at_italic, 3);
    }
    assert(ansi::after_parts(start, parts, 0) == ansi::after_parts(
        with_italic,
        parts,
        flags.len() as int,
    ));
    match style.background {
        None => {},
        Some(color) => {
            assert(parts =~= flags + background_parts(color));
            lemma_background_step(with_italic, parts, flags.len() as int, color);
        },
    }
}

// ---------------------------------------------------------------------------
// Lines
// ---------------------------------------------------------------------------

/// What is seen of `text`, which starts in `style`: its characters, each in
/// its style.
pub open spec fn looks(text: Seq<char>, style: TextStyle) -> Seq<PaintedChar>
    decreases text.len(),
{
    if text.len() == 0 {
        Seq::empty()
    } else if ansi::starts_escape(text) {
        looks(
            ansi::after_escape(text),
            ansi::after_codes(style, ansi::escape_codes(text)),
        )
    } else {
        seq![PaintedChar { ch: text[0], style }] + looks(text.drop_first(), style)
    }
}

/// What is seen of cells.
pub open spec fn seen(cells: Seq<CellView>) -> Seq<PaintedChar> {
    cells.map_values(|cell: CellView| PaintedChar { ch: cell.ch, style: cell.style })
}

/// The characters of painted text.
pub open spec fn painted_chars(painted: Seq<PaintedChar>) -> Seq<char> {
    painted.map_values(|one: PaintedChar| one.ch)
}

proof fn lemma_looks_step(whole: Seq<char>, ch: char, style: TextStyle, offset: nat)
    requires
        whole.len() > 0,
        whole[0] == ch,
        !ansi::starts_escape(whole),
    ensures
        looks(whole, style) == seq![PaintedChar { ch, style }] + looks(whole.drop_first(), style),
        seen(ansi::cells_from(whole, style, offset)) == seq![PaintedChar { ch, style }] + seen(
            ansi::cells_from(whole.drop_first(), style, offset + text::utf8_len(ch)),
        ),
{
    let end = offset + text::utf8_len(ch);
    let rest = ansi::cells_from(whole.drop_first(), style, end);
    let cell = CellView { ch, style, start: offset, end };
    assert(ansi::cells_from(whole, style, offset) == seq![cell] + rest);
    assert(seen(seq![cell] + rest) =~= seq![PaintedChar { ch, style }] + seen(rest));
}

/// What is seen of the cells of a text is what is seen of the text.
pub proof fn lemma_looks(whole: Seq<char>, style: TextStyle, offset: nat)
    ensures
        seen(ansi::cells_from(whole, style, offset)) == looks(whole, style),
    decreases whole.len(),
{
    if whole.len() == 0 {
        assert(seen(ansi::cells_from(whole, style, offset)) =~= looks(whole, style));
    } else if ansi::starts_escape(whole) {
        lemma_looks(
            ansi::after_escape(whole),
            ansi::after_codes(style, ansi::escape_codes(whole)),
            offset,
        );
    } else {
        lemma_looks_step(whole, whole[0], style, offset);
        lemma_looks(whole.drop_first(), style, offset + text::utf8_len(whole[0]));
    }
}

/// An escape sequence is not seen, and changes the style of what is behind it.
pub proof fn lemma_escape_reads_back(codes: Seq<char>, rest: Seq<char>, style: TextStyle)
    requires
        text::without(codes, 'm'),
    ensures
        ({
            let whole = "\u{1b}["@ + codes + "m"@ + rest;
            &&& looks(whole, style) == looks(rest, ansi::after_codes(style, codes))
            &&& ansi::escapes_are_sequences(whole) == ansi::escapes_are_sequences(rest)
        }),
{
    reveal_strlit("\u{1b}[");
    reveal_strlit("m");
    let whole = "\u{1b}["@ + codes + "m"@ + rest;
    assert(whole[0] == ESCAPE && whole[1] == '[');
    assert(whole.skip(2) =~= codes + seq!['m'] + rest);
    lemma_find_behind(codes, 'm', rest);
    assert(ansi::escape_codes(whole) =~= codes);
    assert(ansi::after_escape(whole) =~= rest);
}

/// One code alone does what the code does.
pub proof fn lemma_code(style: TextStyle, code: nat)
    requires
        code <= 65535,
    ensures
        ansi::after_codes(style, text::decimal(code)) == ansi::after_code(
            style,
            seq![text::decimal(code)],
            0,
            code,
        ).0,
{
    let digits = text::decimal(code);
    lemma_decimal_reads_back(code, 65535);
    lemma_decimal_value(code);
    lemma_digits_without(digits, ';');
    lemma_find_nowhere(digits, ';');
    let parts = seq![digits];
    assert(text::split(digits, ';') =~= parts);
    let after = ansi::after_code(style, parts, 0, code);
    assert(ansi::after_parts(after.0, parts, after.1 as int) == after.0);
}

/// Behind a reset, text is plain.
pub proof fn lemma_reset_reads_back(rest: Seq<char>, style: TextStyle)
    ensures
        looks("\u{1b}[0m"@ + rest, style) == looks(rest, ansi::plain_style()),
        ansi::escapes_are_sequences("\u{1b}[0m"@ + rest) == ansi::escapes_are_sequences(rest),
{
    lemma_flags();
    reveal_strlit("\u{1b}[");
    reveal_strlit("m");
    reveal_strlit("0");
    reveal_strlit("\u{1b}[0m");
    assert("\u{1b}[0m"@ + rest =~= "\u{1b}["@ + "0"@ + "m"@ + rest);
    assert(text::without("0"@, 'm'));
    lemma_escape_reads_back("0"@, rest, style);
    assert(ansi::after_codes(style, "0"@) == ansi::plain_style()) by {
        lemma_decimal_reads_back(0, 65535);
        assert(text::without("0"@, ';'));
        lemma_find_nowhere("0"@, ';');
        assert(text::split("0"@, ';') =~= seq!["0"@]);
        let parts = seq!["0"@];
        assert(ansi::after_parts(ansi::plain_style(), parts, 1) == ansi::plain_style());
    }
}

/// Behind the escape sequence of a style, text is in that style.
pub proof fn lemma_style_escape_reads_back(style: TextStyle, rest: Seq<char>)
    ensures
        looks(ansi::style_escape(style) + rest, ansi::plain_style()) == looks(rest, style),
        ansi::escapes_are_sequences(ansi::style_escape(style) + rest)
            == ansi::escapes_are_sequences(rest),
{
    if style == ansi::plain_style() {
        assert(ansi::style_codes(style) =~= Seq::<Seq<char>>::empty());
        assert(ansi::style_escape(style) + rest =~= rest);
    } else {
        lemma_style_reads_back(style);
        lemma_style_join(style);
        assert(ansi::style_codes(style).len() > 0);
        lemma_escape_reads_back(
            text::join(ansi::style_codes(style), ";"@),
            rest,
            ansi::plain_style(),
        );
    }
}

/// A character that starts no escape sequence is seen as it is.
pub proof fn lemma_char_reads_back(ch: char, rest: Seq<char>, style: TextStyle)
    requires
        ch != ESCAPE,
    ensures
        looks(seq![ch] + rest, style) == seq![PaintedChar { ch, style }] + looks(rest, style),
        ansi::escapes_are_sequences(seq![ch] + rest) == ansi::escapes_are_sequences(rest),
{
    let whole = seq![ch] + rest;
    assert(whole[0] == ch);
    assert(whole.drop_first() =~= rest);
    lemma_looks_step(whole, ch, style, 0);
}

/// Whether no character of `painted` starts an escape sequence.
pub open spec fn no_escapes(painted: Seq<PaintedChar>) -> bool {
    forall|i: int| 0 <= i < painted.len() ==> (#[trigger] painted[i]).ch != ESCAPE
}

proof fn lemma_written_step_reads_back(
    one: PaintedChar,
    tail: Seq<char>,
    current: TextStyle,
    change: Seq<char>,
)
    requires
        one.ch != ESCAPE,
        change == if one.style == current {
            Seq::empty()
        } else {
            "\u{1b}[0m"@ + ansi::style_escape(one.style)
        },
    ensures
        looks(change + seq![one.ch] + tail, current) == seq![one] + looks(tail, one.style),
        ansi::escapes_are_sequences(change + seq![one.ch] + tail) == ansi::escapes_are_sequences(
            tail,
        ),
{
    let shown = seq![one.ch] + tail;
    lemma_char_reads_back(one.ch, tail, one.style);
    if one.style == current {
        assert(change + seq![one.ch] + tail =~= shown);
    } else {
        let styled = ansi::style_escape(one.style) + shown;
        assert(change + seq![one.ch] + tail =~= "\u{1b}[0m"@ + styled);
        lemma_reset_reads_back(styled, current);
        lemma_style_escape_reads_back(one.style, shown);
    }
}

/// Painted text is read as it was written: each character in its style, and
/// plain text behind it.
pub proof fn lemma_written_reads_back(
    painted: Seq<PaintedChar>,
    current: TextStyle,
    rest: Seq<char>,
)
    requires
        no_escapes(painted),
    ensures
        looks(paint::written(painted, current) + rest, current) == painted + looks(
            rest,
            ansi::plain_style(),
        ),
        ansi::escapes_are_sequences(paint::written(painted, current) + rest)
            == ansi::escapes_are_sequences(rest),
    decreases painted.len(),
{
    if painted.len() == 0 {
        if current == ansi::plain_style() {
            assert(paint::written(painted, current) + rest =~= rest);
        } else {
            lemma_reset_reads_back(rest, current);
        }
        assert(painted + looks(rest, ansi::plain_style()) =~= looks(rest, ansi::plain_style()));
    } else {
        let one = painted[0];
        let others = painted.drop_first();
        assert forall|i: int| 0 <= i < others.len() implies (#[trigger] others[i]).ch != ESCAPE by {
            assert(others[i] == painted[i + 1]);
        }
        lemma_written_reads_back(others, one.style, rest);
        let change = if one.style == current {
            Seq::empty()
        } else {
            "\u{1b}[0m"@ + ansi::style_escape(one.style)
        };
        let tail = paint::written(others, one.style) + rest;
        assert(paint::written(painted, current) + rest =~= change + seq![one.ch] + tail);
        lemma_written_step_reads_back(one, tail, current, change);
        assert(seq![one] + (others + looks(rest, ansi::plain_style())) =~= painted + looks(
            rest,
            ansi::plain_style(),
        ));
    }
}

proof fn lemma_spaces_read_back(n: nat, style: TextStyle, rest: Seq<char>)
    ensures
        looks(text::spaces(n) + rest, style) == Seq::new(
            n,
            |i: int| PaintedChar { ch: ' ', style },
        ) + looks(rest, style),
        ansi::escapes_are_sequences(text::spaces(n) + rest) == ansi::escapes_are_sequences(rest),
    decreases n,
{
    let blanks = Seq::new(n, |i: int| PaintedChar { ch: ' ', style });
    if n == 0 {
        assert(text::spaces(n) + rest =~= rest);
        assert(blanks + looks(rest, style) =~= looks(rest, style));
    } else {
        let before = (n - 1) as nat;
        let fewer = Seq::new(before, |i: int| PaintedChar { ch: ' ', style });
        let tail = text::spaces(before) + rest;
        assert(text::spaces(n) + rest =~= seq![' '] + tail);
        lemma_char_reads_back(' ', tail, style);
        lemma_spaces_read_back(before, style, rest);
        assert(seq![PaintedChar { ch: ' ', style }] + (fewer + looks(rest, style)) =~= blanks
            + looks(rest, style));
    }
}

/// The blanks that carry the background of a line on to the right edge.
pub open spec fn fill_chars(painting: Painting, cells: Seq<CellView>) -> Seq<PaintedChar> {
    match paint::trailing(cells) {
        Some((color, start)) if start >= painting.content_start && painting.used(cells)
            < painting.room(cells) => Seq::new(
            (painting.room(cells) - painting.used(cells)) as nat,
            |i: int|
                PaintedChar {
                    ch: ' ',
                    style: ansi::on_background(ansi::plain_style(), Some(color)),
                },
        ),
        _ => Seq::empty(),
    }
}

/// The mark of a line that goes on behind the right edge.
pub open spec fn overflow_mark(painting: Painting, cells: Seq<CellView>) -> Seq<PaintedChar> {
    if painting.overflows(cells) {
        seq![PaintedChar { ch: '»', style: ansi::plain_style() }]
    } else {
        Seq::empty()
    }
}

proof fn lemma_fill_reads_back(painting: Painting, cells: Seq<CellView>, rest: Seq<char>)
    ensures
        looks(painting.fill(cells) + rest, ansi::plain_style()) == fill_chars(painting, cells)
            + looks(rest, ansi::plain_style()),
        ansi::escapes_are_sequences(painting.fill(cells) + rest) == ansi::escapes_are_sequences(
            rest,
        ),
{
    let plain = ansi::plain_style();
    match paint::trailing(cells) {
        Some((color, start)) if start >= painting.content_start && painting.used(cells)
            < painting.room(cells) => {
            let style = ansi::on_background(plain, Some(color));
            let n = (painting.room(cells) - painting.used(cells)) as nat;
            let ended = "\u{1b}[0m"@ + rest;
            let blanks = text::spaces(n) + ended;
            assert(painting.fill(cells) + rest =~= ansi::style_escape(style) + blanks);
            lemma_style_escape_reads_back(style, blanks);
            lemma_spaces_read_back(n, style, ended);
            lemma_reset_reads_back(rest, style);
        },
        _ => {
            assert(painting.fill(cells) + rest =~= rest);
            assert(fill_chars(painting, cells) + looks(rest, plain) =~= looks(rest, plain));
        },
    }
}

/// What is seen of a painted line: the cells that are neither scrolled off to
/// the left nor cut off on the right, then blanks up to the right edge where
/// the line ends in a background of its own, then a mark where the line goes
/// on. Left out are lines that show an escape character.
pub proof fn lemma_painted_line(painting: Painting, cells: Seq<CellView>)
    requires
        painting.width > 0,
        text::without(ansi::cell_chars(cells), ESCAPE),
    ensures
        looks(painting.line(cells), ansi::plain_style()) == painting.painted(cells) + fill_chars(
            painting,
            cells,
        ) + overflow_mark(painting, cells),
        ansi::escapes_are_sequences(painting.line(cells)),
{
    let plain = ansi::plain_style();
    let painted = painting.painted(cells);
    let mark = if painting.overflows(cells) {
        seq!['»']
    } else {
        Seq::empty()
    };
    lemma_window(painting, cells);
    assert forall|i: int| 0 <= i < painted.len() implies (#[trigger] painted[i]).ch != ESCAPE by {
        let at = painting.first(cells) + i;
        assert(painted[i].ch == cells[at].ch);
        assert(ansi::cell_chars(cells)[at] == cells[at].ch);
    }
    assert(painting.line(cells) =~= paint::written(painted, plain) + (painting.fill(cells) + mark));
    lemma_written_reads_back(painted, plain, painting.fill(cells) + mark);
    lemma_fill_reads_back(painting, cells, mark);
    let empty = Seq::<char>::empty();
    assert(looks(empty, plain) =~= Seq::<PaintedChar>::empty());
    if painting.overflows(cells) {
        lemma_char_reads_back('»', empty, plain);
        assert(mark =~= seq!['»'] + empty);
        assert(looks(mark, plain) =~= overflow_mark(painting, cells));
    } else {
        assert(looks(mark, plain) =~= overflow_mark(painting, cells));
    }
    assert(looks(painting.line(cells), plain) =~= painted + fill_chars(painting, cells)
        + overflow_mark(painting, cells));
}

proof fn lemma_window(painting: Painting, cells: Seq<CellView>)
    ensures
        painting.first(cells) + painting.count(cells) <= cells.len(),
        painted_chars(painting.painted(cells)) == paint::clip(
            ansi::cell_chars(cells).skip(painting.first(cells) as int),
            painting.room(cells),
        ),
        paint::columns(painted_chars(painting.painted(cells))) == painting.used(cells),
        painting.used(cells) <= painting.room(cells),
{
    let chars = ansi::cell_chars(cells);
    let first = painting.first(cells);
    width::lemma_clip(chars, painting.start_col, 0);
    let rest = chars.skip(first as int);
    width::lemma_clip(rest, painting.room(cells), 0);
    let kept = paint::clip(rest, painting.room(cells));
    assert(painted_chars(painting.painted(cells)) =~= kept) by {
        assert forall|i: int| 0 <= i < kept.len() implies painted_chars(
            painting.painted(cells),
        )[i] == kept[i] by {
            assert(kept[i] == rest.take(kept.len() as int)[i]);
            assert(rest[i] == chars[first + i]);
        }
    }
}

/// A painted line stays on the screen: what it shows of the line, together
/// with the blanks behind it, takes no more columns than the screen has, one
/// fewer where the mark of a line that goes on follows, and exactly those where
/// a background is carried on. What it shows is the text of the line from the
/// column on that it is scrolled to.
pub proof fn lemma_painted_line_stays_on_screen(painting: Painting, cells: Seq<CellView>)
    requires
        painting.width > 0,
    ensures
        painted_chars(painting.painted(cells)) == paint::clip(
            ansi::cell_chars(cells).skip(painting.first(cells) as int),
            painting.room(cells),
        ),
        ({
            let shown = painted_chars(painting.painted(cells)) + painted_chars(
                fill_chars(painting, cells),
            );
            &&& paint::columns(shown) <= painting.room(cells)
            &&& fill_chars(painting, cells).len() > 0 ==> paint::columns(shown) == painting.room(
                cells,
            )
        }),
        painting.room(cells) == if painting.overflows(cells) {
            painting.width - 1
        } else {
            painting.width as int
        },
{
    lemma_window(painting, cells);
    let left = painted_chars(painting.painted(cells));
    let right = painted_chars(fill_chars(painting, cells));
    width::lemma_columns_add(left, right, 0);
    if fill_chars(painting, cells).len() > 0 {
        let n = (painting.room(cells) - painting.used(cells)) as nat;
        assert(right =~= text::spaces(n));
        width::lemma_spaces_columns(n, 0);
    } else {
        assert(right =~= Seq::<char>::empty());
        assert(paint::columns(right) == 0);
    }
}

// ---------------------------------------------------------------------------
// Lines without styles
// ---------------------------------------------------------------------------

proof fn lemma_plain_cells(line: Seq<char>, offset: nat)
    requires
        text::without(line, ESCAPE),
    ensures
        ansi::cell_chars(ansi::cells_from(line, ansi::plain_style(), offset)) == line,
        forall|i: int|
            0 <= i < line.len() ==> (#[trigger] ansi::cells_from(
                line,
                ansi::plain_style(),
                offset,
            )[i]).style == ansi::plain_style(),
    decreases line.len(),
{
    let plain = ansi::plain_style();
    let cells = ansi::cells_from(line, plain, offset);
    if line.len() == 0 {
        assert(ansi::cell_chars(cells) =~= line);
    } else {
        let rest = line.drop_first();
        assert forall|i: int| 0 <= i < rest.len() implies #[trigger] rest[i] != ESCAPE by {
            assert(rest[i] == line[i + 1]);
        }
        assert(line[0] != ESCAPE);
        let end = offset + text::utf8_len(line[0]);
        lemma_plain_cells(rest, end);
        lemma_plain_step(line, line[0], offset);
        assert(ansi::cell_chars(cells) =~= line);
        assert forall|i: int| 0 <= i < line.len() implies (#[trigger] cells[i]).style == plain by {
            if i > 0 {
                assert(cells[i] == ansi::cells_from(rest, plain, end)[i - 1]);
            }
        }
    }
}

proof fn lemma_plain_step(line: Seq<char>, ch: char, offset: nat)
    requires
        line.len() > 0,
        line[0] == ch,
        ch != ESCAPE,
    ensures
        ({
            let plain = ansi::plain_style();
            let end = offset + text::utf8_len(ch);
            let rest = ansi::cells_from(line.drop_first(), plain, end);
            let cells = ansi::cells_from(line, plain, offset);
            &&& cells == seq![CellView { ch, style: plain, start: offset, end }] + rest
            &&& ansi::cell_chars(cells) == seq![ch] + ansi::cell_chars(rest)
        }),
{
    let plain = ansi::plain_style();
    let end = offset + text::utf8_len(ch);
    let cell = CellView { ch, style: plain, start: offset, end };
    let rest = ansi::cells_from(line.drop_first(), plain, end);
    let cells = ansi::cells_from(line, plain, offset);
    assert(cells == seq![cell] + rest);
    assert(ansi::cell_chars(cells) =~= seq![ch] + ansi::cell_chars(rest));
}

proof fn lemma_written_plain(painted: Seq<PaintedChar>)
    requires
        forall|i: int|
            0 <= i < painted.len() ==> (#[trigger] painted[i]).style == ansi::plain_style(),
    ensures
        paint::written(painted, ansi::plain_style()) == painted_chars(painted),
    decreases painted.len(),
{
    let plain = ansi::plain_style();
    if painted.len() > 0 {
        let others = painted.drop_first();
        assert forall|i: int| 0 <= i < others.len() implies (#[trigger] others[i]).style
            == plain by {
            assert(others[i] == painted[i + 1]);
        }
        lemma_written_plain(others);
        assert(painted[0].style == plain);
        assert(painted_chars(painted) =~= seq![painted[0].ch] + painted_chars(others));
        assert(paint::written(painted, plain) =~= seq![painted[0].ch] + paint::written(
            others,
            plain,
        ));
    } else {
        assert(painted_chars(painted) =~= Seq::<char>::empty());
    }
}

/// A line without escape characters, on which nothing is highlighted, is put on
/// the screen as it is: what is left of it behind the columns that are scrolled
/// off, cut to the screen. Where it goes on behind the right edge, a mark
/// stands in the last column.
pub proof fn lemma_plain_line_is_cut(painting: Painting, line: Seq<char>)
    requires
        painting.width > 0,
        painting.search_bg is None,
        text::without(line, ESCAPE),
    ensures
        ({
            let behind = line.skip(paint::clip(line, painting.start_col).len() as int);
            painting.line(ansi::cells_of(line)) == if paint::columns(line) > painting.start_col
                + painting.width {
                paint::clip(behind, (painting.width - 1) as nat) + seq!['»']
            } else {
                paint::clip(behind, painting.width)
            }
        }),
{
    let cells = ansi::cells_of(line);
    let painted = painting.painted(cells);
    lemma_plain_cells(line, 0);
    lemma_window(painting, cells);
    assert(cells.len() == ansi::cell_chars(cells).len());
    assert forall|i: int| 0 <= i < painted.len() implies (#[trigger] painted[i]).style
        == ansi::plain_style() by {
        let at = painting.first(cells) + i;
        assert(painted[i].style == cells[at].style);
    }
    lemma_written_plain(painted);
    if cells.len() > 0 {
        assert(cells[cells.len() - 1].style == ansi::plain_style());
    }
    assert(paint::trailing(cells) is None);
    let shown = paint::written(painted, ansi::plain_style());
    assert(shown + painting.fill(cells) =~= shown);
    assert(shown + painting.fill(cells) + Seq::<char>::empty() =~= shown);
}

} // verus!
