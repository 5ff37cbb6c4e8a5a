//! Parts of a line by the columns that they take.

use super::paint;
use crate::text;
use crate::text::char_bytes;
use crate::text::char_list;
use crate::text::text_bytes;
use crate::width;
use crate::width::char_width;
use vstd::prelude::*;

verus! {

broadcast use vstd::seq::group_seq_axioms;

/// The columns of the characters of `text` that end within its first `offset`
/// bytes.
pub open spec fn column_of_byte(text: Seq<char>, offset: nat) -> nat
    decreases text.len(),
{
    if text.len() == 0 || text::utf8_len(text[0]) > offset {
        0
    } else {
        width::char_columns(text[0], 0) + column_of_byte(
            text.drop_first(),
            (offset - text::utf8_len(text[0])) as nat,
        )
    }
}

/// The column at which byte `offset` of `text` stands.
pub fn plain_offset_to_column(text: &str, offset: usize) -> (column: usize)
    ensures
        column == column_of_byte(text@, offset as nat),
        column <= text::byte_len(text@),
{
    let total = text_bytes(text);
    let chars = char_list(text);
    let mut column: usize = 0;
    let mut end: usize = 0;
    let mut index: usize = 0;
    assert(chars@.skip(0) =~= text@);
    while index < chars.len()
        invariant
            index <= chars@.len(),
            chars@ == text@,
            total == text::byte_len(text@),
            end <= offset,
            column <= end,
            end + text::byte_len(chars@.skip(index as int)) == total,
            column_of_byte(text@, offset as nat) == column + column_of_byte(
                chars@.skip(index as int),
                (offset - end) as nat,
            ),
        decreases chars@.len() - index,
    {
        assert(chars@.skip(index as int).drop_first() =~= chars@.skip(index + 1));
        let ch = chars[index];
        let bytes = char_bytes(ch);
        if end + bytes > offset {
            return column;
        }
        column += char_width(ch, 0);
        end += bytes;
        index += 1;
    }
    column
}

/// The column of a byte at which a character starts is that behind the
/// characters before it.
pub proof fn lemma_column_of_byte(text: Seq<char>, at: int)
    requires
        0 <= at <= text.len(),
    ensures
        column_of_byte(text, text::byte_len(text.take(at))) == paint::columns(text.take(at)),
    decreases text.len(),
{
    if at == 0 {
        assert(text.take(0) =~= Seq::<char>::empty());
        assert(text::byte_len(Seq::<char>::empty()) == 0);
        assert(paint::columns(Seq::<char>::empty()) == 0);
    } else {
        assert(text.take(at).drop_first() =~= text.drop_first().take(at - 1));
        lemma_column_of_byte(text.drop_first(), at - 1);
    }
}

/// The characters of `text`, which starts at `column`, that lie between the
/// columns `start` and `end`.
pub open spec fn column_range(text: Seq<char>, column: nat, start: nat, end: nat) -> Seq<char>
    decreases text.len(),
{
    if text.len() == 0 {
        Seq::empty()
    } else {
        let next = column + width::char_columns(text[0], 0);
        let head = if start <= column && next <= end {
            seq![text[0]]
        } else {
            Seq::empty()
        };
        if next >= end {
            head
        } else {
            head + column_range(text.drop_first(), next, start, end)
        }
    }
}

/// The characters of `text` between two columns.
pub fn extract_column_range(text: &str, start_col: usize, end_col: usize) -> (result: String)
    ensures
        result@ == column_range(text@, 0, start_col as nat, end_col as nat),
{
    let total = text_bytes(text);
    let chars = char_list(text);
    let mut result = String::new();
    let mut column: usize = 0;
    let mut index: usize = 0;
    assert(chars@.skip(0) =~= text@);
    while index < chars.len()
        invariant
            index <= chars@.len(),
            chars@ == text@,
            total == text::byte_len(text@),
            column + text::byte_len(chars@.skip(index as int)) <= total,
            column_range(text@, 0, start_col as nat, end_col as nat) == result@ + column_range(
                chars@.skip(index as int),
                column as nat,
                start_col as nat,
                end_col as nat,
            ),
        decreases chars@.len() - index,
    {
        let ghost rest = chars@.skip(index as int);
        let ghost before = result@;
        let ghost at = column as nat;
        assert(rest.drop_first() =~= chars@.skip(index + 1));
        let ch = chars[index];
        let next: usize = column + char_width(ch, 0);
        if column >= start_col && next <= end_col {
            result.push(ch);
        }
        if next >= end_col {
            assert(result@ =~= before + column_range(
                rest,
                at,
                start_col as nat,
                end_col as nat,
            ));
            return result;
        }
        column = next;
        index += 1;
        assert(before + column_range(rest, at, start_col as nat, end_col as nat) =~= result@
            + column_range(
            chars@.skip(index as int),
            column as nat,
            start_col as nat,
            end_col as nat,
        ));
    }
    result
}

proof fn lemma_cons_columns(ch: char, rest: Seq<char>)
    ensures
        paint::columns(seq![ch] + rest) == width::char_columns(ch, 0) + paint::columns(rest),
{
    assert((seq![ch] + rest).drop_first() =~= rest);
}

/// What lies between two columns takes no more than the columns between them.
pub proof fn lemma_column_range_fits(text: Seq<char>, column: nat, start: nat, end: nat)
    requires
        start <= end,
    ensures
        paint::columns(column_range(text, column, start, end)) <= end - start,
        column >= start && column <= end ==> paint::columns(
            column_range(text, column, start, end),
        ) <= end - column,
    decreases text.len(),
{
    let range = column_range(text, column, start, end);
    assert(paint::columns(Seq::<char>::empty()) == 0);
    if text.len() > 0 {
        let next = column + width::char_columns(text[0], 0);
        let rest = text.drop_first();
        if start <= column && next <= end {
            if next >= end {
                assert(range =~= seq![text[0]] + Seq::<char>::empty());
                lemma_cons_columns(text[0], Seq::empty());
            } else {
                lemma_column_range_fits(rest, next, start, end);
                lemma_cons_columns(text[0], column_range(rest, next, start, end));
            }
        } else if next < end {
            lemma_column_range_fits(rest, next, start, end);
            assert(range =~= column_range(rest, next, start, end));
        }
    }
}

} // verus!
