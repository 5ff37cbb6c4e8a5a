//! What holds of all texts.

use crate::text;
use vstd::prelude::*;

verus! {

broadcast use vstd::seq::group_seq_axioms;

// ---------------------------------------------------------------------------
// Lines
// ---------------------------------------------------------------------------

proof fn lemma_first_newline(line: Seq<char>, rest: Seq<char>)
    requires
        text::without(line, '\n'),
    ensures
        text::find_char(line + seq!['\n'] + rest, '\n') == line.len(),
    decreases line.len(),
{
    let whole = line + seq!['\n'] + rest;
    if line.len() == 0 {
        assert(whole[0] == '\n');
    } else {
        let fewer = line.drop_first();
        assert forall|i: int| 0 <= i < fewer.len() implies #[trigger] fewer[i] != '\n' by {
            assert(fewer[i] == line[i + 1]);
        }
        assert(line[0] != '\n');
        assert(whole[0] == line[0]);
        assert(whole.drop_first() =~= fewer + seq!['\n'] + rest);
        lemma_first_newline(fewer, rest);
    }
}

proof fn lemma_no_newline(line: Seq<char>)
    requires
        text::without(line, '\n'),
    ensures
        text::find_char(line, '\n') == line.len(),
{
    text::lemma_find_char(line, '\n');
    if text::find_char(line, '\n') < line.len() {
        assert(line[text::find_char(line, '\n') as int] == '\n');
    }
}

/// A newline ends a line, and so does a carriage return in front of it; what
/// follows is the rest of the lines. A text that ends without a newline ends in
/// a line all the same, and an empty text has no lines.
pub proof fn lemma_newlines_end_lines(line: Seq<char>, rest: Seq<char>)
    requires
        text::without(line, '\n'),
    ensures
        line.len() == 0 || line.last() != '\r' ==> text::lines(line + seq!['\n'] + rest) == seq![
            line,
        ] + text::lines(rest),
        text::lines(line + seq!['\r', '\n'] + rest) == seq![line] + text::lines(rest),
        line.len() > 0 ==> text::lines(line) == seq![line],
        text::lines(Seq::empty()) == Seq::<Seq<char>>::empty(),
{
    let ended = line + seq!['\n'] + rest;
    lemma_first_newline(line, rest);
    assert(ended.take(line.len() as int) =~= line);
    assert(ended.skip(line.len() as int + 1) =~= rest);
    let returned = line.push('\r');
    assert forall|i: int| 0 <= i < returned.len() implies #[trigger] returned[i] != '\n' by {
        if i < line.len() {
            assert(returned[i] == line[i]);
        }
    }
    let whole = line + seq!['\r', '\n'] + rest;
    assert(whole =~= returned + seq!['\n'] + rest);
    lemma_first_newline(returned, rest);
    assert(whole.take(returned.len() as int) =~= returned);
    assert(whole.skip(returned.len() as int + 1) =~= rest);
    assert(returned.drop_last() =~= line);
    if line.len() > 0 {
        lemma_no_newline(line);
    }
    assert(text::lines(Seq::<char>::empty()) =~= Seq::<Seq<char>>::empty());
}

// ---------------------------------------------------------------------------
// Parts of a text
// ---------------------------------------------------------------------------

/// What stands between two texts is contained in the whole.
pub proof fn lemma_middle_is_contained(before: Seq<char>, part: Seq<char>, behind: Seq<char>)
    ensures
        text::contains(before + part + behind, part),
{
    let whole = before + part + behind;
    let at = before.len() as int;
    assert(whole.subrange(at, at + part.len()) =~= part);
    assert(text::occurs_at(whole, at, part));
}

/// A text that contains a part is made of that part, what stands before it and
/// what stands behind it.
pub proof fn lemma_contained_is_middle(whole: Seq<char>, part: Seq<char>) -> (around: (
    Seq<char>,
    Seq<char>,
))
    requires
        text::contains(whole, part),
    ensures
        whole == around.0 + part + around.1,
{
    let at = choose|at: int| text::occurs_at(whole, at, part);
    let around = (whole.take(at), whole.skip(at + part.len()));
    assert(whole =~= around.0 + whole.subrange(at, at + part.len()) + around.1);
    around
}

/// What is cut off the end of a text is white space, and all of it: what is
/// left is empty or ends in something else.
pub proof fn lemma_trimmed_end(whole: Seq<char>)
    ensures
        text::trim_end(whole).len() <= whole.len(),
        text::trim_end(whole) == whole.take(text::trim_end(whole).len() as int),
        forall|i: int|
            text::trim_end(whole).len() <= i < whole.len() ==> text::is_white_space(
                #[trigger] whole[i],
            ),
        text::trim_end(whole).len() > 0 ==> !text::is_white_space(text::trim_end(whole).last()),
    decreases whole.len(),
{
    if whole.len() > 0 && text::is_white_space(whole.last()) {
        let fewer = whole.drop_last();
        lemma_trimmed_end(fewer);
        assert(whole.take(text::trim_end(whole).len() as int) =~= fewer.take(
            text::trim_end(fewer).len() as int,
        ));
        assert forall|i: int| text::trim_end(whole).len() <= i < whole.len() implies
            text::is_white_space(#[trigger] whole[i]) by {
            if i < fewer.len() {
                assert(fewer[i] == whole[i]);
            }
        }
    } else {
        assert(whole.take(whole.len() as int) =~= whole);
    }
}

/// Blanks, tabs and the ends of lines are white space; what can be seen of
/// ASCII is not.
pub proof fn lemma_white_space(ch: char)
    ensures
        ch == ' ' || ch == '\t' || ch == '\n' || ch == '\r' ==> text::is_white_space(ch),
        '!' <= ch <= '~' ==> !text::is_white_space(ch),
{
}

/// A number that is written is at the right end of its field, behind blanks
/// alone; where the field is too narrow it is whole all the same.
pub proof fn lemma_right_aligned(line: Seq<char>, width: nat)
    ensures
        text::pad_left(line, width).len() == if line.len() >= width {
            line.len()
        } else {
            width
        },
        text::pad_left(line, width).skip(text::pad_left(line, width).len() - line.len()) == line,
        forall|i: int|
            0 <= i < text::pad_left(line, width).len() - line.len() ==> #[trigger] text::pad_left(
                line,
                width,
            )[i] == ' ',
{
    let padded = text::pad_left(line, width);
    assert(padded.skip(padded.len() - line.len()) =~= line);
}

/// Joined texts stand one behind the other, with the separator between each
/// two and nothing else.
pub proof fn lemma_joined(first: Seq<char>, rest: Seq<Seq<char>>, separator: Seq<char>)
    ensures
        text::join(Seq::empty(), separator) == Seq::<char>::empty(),
        text::join(seq![first], separator) == first,
        rest.len() > 0 ==> text::join(seq![first] + rest, separator) == first + separator
            + text::join(rest, separator),
    decreases rest.len(),
{
    let all = seq![first] + rest;
    assert(text::join(Seq::<Seq<char>>::empty(), separator) =~= Seq::<char>::empty());
    if rest.len() == 1 {
        assert(all.drop_last() =~= seq![first]);
    } else if rest.len() > 1 {
        assert(all.drop_last() =~= seq![first] + rest.drop_last());
        lemma_joined(first, rest.drop_last(), separator);
        assert(text::join(all, separator) =~= first + separator + text::join(rest, separator));
    }
}

// ---------------------------------------------------------------------------
// Numbers
// ---------------------------------------------------------------------------

proof fn lemma_digits_push(digits: Seq<char>, digit: char)
    ensures
        text::digits_value(digits.push(digit)) == text::digits_value(digits) * 10
            + text::digit_value(digit),
{
    assert(digits.push(digit).drop_last() =~= digits);
}

/// A digit at the end of a number makes it ten times as large and adds the digit,
/// as long as that is not too large; a number alone is its digit.
pub proof fn lemma_numbers_are_read(number: Seq<char>, digit: char, max: nat)
    requires
        '0' <= digit <= '9',
    ensures
        text::parse_number(number, max) matches Some(value) ==> text::parse_number(
            number.push(digit),
            max,
        ) == if value * 10 + (digit as u32 - '0' as u32) <= max {
            Some((value * 10 + (digit as u32 - '0' as u32)) as nat)
        } else {
            None
        },
        (digit as u32 - '0' as u32) <= max ==> text::parse_number(seq![digit], max) == Some(
            (digit as u32 - '0' as u32) as nat,
        ),
        text::parse_number(Seq::empty(), max) is None,
{
    let more = number.push(digit);
    if text::parse_number(number, max) is Some {
        let signed = number.len() > 0 && number[0] == '+';
        let digits = if signed {
            number.drop_first()
        } else {
            number
        };
        let all = if signed {
            more.drop_first()
        } else {
            more
        };
        assert(all =~= digits.push(digit));
        lemma_digits_push(digits, digit);
        assert forall|i: int| 0 <= i < all.len() implies text::is_digit(#[trigger] all[i]) by {
            if i < digits.len() {
                assert(all[i] == digits[i]);
            }
        }
    }
    let none = Seq::<char>::empty();
    let one = seq![digit];
    assert(one =~= none.push(digit));
    lemma_digits_push(none, digit);
    assert(text::digits_value(none) == 0);
}

/// What is no number is not read as one: a text with anything in it but digits,
/// behind a plus sign or none.
pub proof fn lemma_other_text_is_no_number(number: Seq<char>, i: int, max: nat)
    requires
        0 <= i < number.len(),
        !('0' <= number[i] <= '9'),
        i > 0 || number[0] != '+',
    ensures
        text::parse_number(number, max) is None,
{
    let digits = if number[0] == '+' {
        number.drop_first()
    } else {
        number
    };
    if number[0] == '+' {
        assert(digits[i - 1] == number[i]);
    } else {
        assert(digits[i] == number[i]);
    }
}

/// White space is what Unicode says it is.
pub proof fn lemma_all_white_space(ch: char)
    ensures
        text::is_white_space(ch) <==> ({
            let code = ch as u32;
            ||| 9 <= code <= 13
            ||| code == 32
            ||| code == 133
            ||| code == 160
            ||| code == 5760
            ||| 8192 <= code <= 8202
            ||| code == 8232
            ||| code == 8233
            ||| code == 8239
            ||| code == 8287
            ||| code == 12288
        }),
{
}

/// Splitting cuts a text at each separator: no part holds one, and joined by it
/// the parts are the text again.
pub proof fn lemma_split_parts(whole: Seq<char>, separator: char)
    ensures
        text::split(whole, separator).len() >= 1,
        text::join(text::split(whole, separator), seq![separator]) == whole,
        forall|i: int|
            0 <= i < text::split(whole, separator).len() ==> text::without(
                #[trigger] text::split(whole, separator)[i],
                separator,
            ),
    decreases whole.len(),
{
    let at = text::find_char(whole, separator);
    text::lemma_find_char(whole, separator);
    let parts = text::split(whole, separator);
    if at < whole.len() {
        let first = whole.take(at as int);
        let rest = whole.skip(at as int + 1);
        lemma_split_parts(rest, separator);
        let others = text::split(rest, separator);
        lemma_joined(first, others, seq![separator]);
        assert(whole =~= first + seq![separator] + rest);
        assert forall|i: int| 0 <= i < parts.len() implies text::without(
            #[trigger] parts[i],
            separator,
        ) by {
            if i == 0 {
                assert(parts[0] == first);
            } else {
                assert(parts[i] == others[i - 1]);
            }
        }
    } else {
        lemma_joined(whole, Seq::empty(), seq![separator]);
    }
}

} // verus!
