//! Text as a sequence of characters: building it, cutting it into lines and
//! parts, and reading and writing numbers in it.

use vstd::prelude::*;
use vstd::utf8::encode_scalar;
use vstd::utf8::encode_utf8;

verus! {

broadcast use vstd::seq::group_seq_axioms;

/// `String::push` appends one character.
pub assume_specification[ String::push ](s: &mut String, ch: char)
    ensures
        final(s)@ == old(s)@.push(ch),
;

/// `String::push_str` appends a text.
pub assume_specification[ String::push_str ](s: &mut String, other: &str)
    ensures
        final(s)@ == old(s)@ + other@,
;

/// `String::pop` takes the last character off, if there is one.
pub assume_specification[ String::pop ](s: &mut String) -> (last: Option<char>)
    ensures
        old(s)@.len() == 0 ==> last is None && final(s)@ == old(s)@,
        old(s)@.len() > 0 ==> last == Some(old(s)@.last()) && final(s)@ == old(s)@.drop_last(),
;

/// The texts of a list of strings.
pub open spec fn texts(list: Seq<String>) -> Seq<Seq<char>> {
    list.map_values(|s: String| s@)
}

/// Copies a list of texts.
pub fn copy_texts(list: &Vec<String>) -> (copy: Vec<String>)
    ensures
        texts(copy@) == texts(list@),
{
    let mut copy: Vec<String> = Vec::new();
    let mut index: usize = 0;
    assert(texts(copy@) =~= texts(list@).take(0));
    while index < list.len()
        invariant
            index <= list@.len(),
            texts(copy@) == texts(list@).take(index as int),
        decreases list@.len() - index,
    {
        let ghost before = texts(copy@);
        copy.push(list[index].clone());
        assert(texts(copy@) =~= before.push(list@[index as int]@));
        index += 1;
        assert(texts(copy@) =~= texts(list@).take(index as int));
    }
    assert(texts(copy@) =~= texts(list@));
    copy
}

// ---------------------------------------------------------------------------
// Characters and bytes
// ---------------------------------------------------------------------------

/// The number of bytes that `ch` takes in UTF-8.
pub open spec fn utf8_len(ch: char) -> nat {
    if ch <= '\u{7f}' {
        1
    } else if ch <= '\u{7ff}' {
        2
    } else if ch <= '\u{ffff}' {
        3
    } else {
        4
    }
}

/// The number of bytes that `text` takes in UTF-8.
pub open spec fn byte_len(text: Seq<char>) -> nat
    decreases text.len(),
{
    if text.len() == 0 {
        0
    } else {
        utf8_len(text[0]) + byte_len(text.drop_first())
    }
}

/// `utf8_len` is the length of a character's UTF-8 encoding.
proof fn lemma_utf8_len_is_encoded_len(ch: char)
    ensures
        encode_scalar(ch as u32).len() == utf8_len(ch),
{
    vstd::utf8::char_is_scalar(ch);
}

/// `byte_len` is the length of the UTF-8 encoding.
pub proof fn lemma_byte_len_is_encoded_len(text: Seq<char>)
    ensures
        byte_len(text) == encode_utf8(text).len(),
    decreases text.len(),
{
    if text.len() > 0 {
        lemma_utf8_len_is_encoded_len(text[0]);
        lemma_byte_len_is_encoded_len(text.drop_first());
    }
}

/// The bytes of a character and of what follows it add up.
pub proof fn lemma_byte_len_cons(ch: char, rest: Seq<char>)
    ensures
        byte_len(seq![ch] + rest) == utf8_len(ch) + byte_len(rest),
{
    assert((seq![ch] + rest).drop_first() =~= rest);
}

/// The bytes of two texts in a row add up.
pub proof fn lemma_byte_len_add(left: Seq<char>, right: Seq<char>)
    ensures
        byte_len(left + right) == byte_len(left) + byte_len(right),
    decreases left.len(),
{
    if left.len() == 0 {
        assert(left + right =~= right);
    } else {
        assert((left + right).drop_first() =~= left.drop_first() + right);
        lemma_byte_len_add(left.drop_first(), right);
    }
}

/// A text is as long in bytes as what stands before a position and what
/// stands from it on.
pub proof fn lemma_byte_len_split(text: Seq<char>, at: int)
    requires
        0 <= at <= text.len(),
    ensures
        byte_len(text) == byte_len(text.take(at)) + byte_len(text.skip(at)),
{
    assert(text =~= text.take(at) + text.skip(at));
    lemma_byte_len_add(text.take(at), text.skip(at));
}

/// A text has no more characters than bytes.
pub proof fn lemma_byte_len_at_least_len(text: Seq<char>)
    ensures
        text.len() <= byte_len(text),
    decreases text.len(),
{
    if text.len() > 0 {
        lemma_byte_len_at_least_len(text.drop_first());
    }
}

/// The characters of `text` in order.
pub fn char_list(text: &str) -> (chars: Vec<char>)
    ensures
        chars@ == text@,
{
    let mut chars: Vec<char> = Vec::new();
    for ch in it: text.chars()
        invariant
            chars@ == it.seq().take(it.index() as int),
            it.seq() == text@,
    {
        chars.push(ch);
    }
    chars
}

/// The number of bytes of `ch` in UTF-8.
pub fn char_bytes(ch: char) -> (n: usize)
    ensures
        n == utf8_len(ch),
{
    if ch <= '\u{7f}' {
        1
    } else if ch <= '\u{7ff}' {
        2
    } else if ch <= '\u{ffff}' {
        3
    } else {
        4
    }
}

/// The number of bytes of `text`.
pub fn text_bytes(text: &str) -> (n: usize)
    ensures
        n == byte_len(text@),
{
    proof {
        lemma_byte_len_is_encoded_len(text@);
    }
    text.as_bytes().len()
}

/// Whether the two texts are the same.
pub fn same_text(left: &str, right: &str) -> (same: bool)
    ensures
        same == (left@ == right@),
{
    let left_chars = char_list(left);
    let right_chars = char_list(right);
    if left_chars.len() != right_chars.len() {
        return false;
    }
    let mut i: usize = 0;
    while i < left_chars.len()
        invariant
            i <= left_chars@.len(),
            left_chars@.len() == right_chars@.len(),
            left_chars@ == left@,
            right_chars@ == right@,
            forall|j: int| 0 <= j < i ==> left_chars@[j] == right_chars@[j],
        decreases left_chars@.len() - i,
    {
        if left_chars[i] != right_chars[i] {
            return false;
        }
        i += 1;
    }
    assert(left@ =~= right@);
    true
}

/// The characters from position `from` up to position `to`.
pub fn slice_text(chars: &Vec<char>, from: usize, to: usize) -> (text: String)
    requires
        from <= to <= chars@.len(),
    ensures
        text@ == chars@.subrange(from as int, to as int),
{
    let mut text = String::new();
    let mut i: usize = from;
    while i < to
        invariant
            from <= i <= to <= chars@.len(),
            text@ == chars@.subrange(from as int, i as int),
        decreases to - i,
    {
        text.push(chars[i]);
        i += 1;
    }
    text
}

// ---------------------------------------------------------------------------
// Padding and joining
// ---------------------------------------------------------------------------

/// A run of `n` spaces.
pub open spec fn spaces(n: nat) -> Seq<char> {
    Seq::new(n, |i: int| ' ')
}

/// Appends `n` spaces to `text`.
pub fn push_spaces(text: &mut String, n: usize)
    ensures
        final(text)@ == old(text)@ + spaces(n as nat),
{
    let ghost start = text@;
    let mut i: usize = 0;
    while i < n
        invariant
            i <= n,
            text@ == start + spaces(i as nat),
        decreases n - i,
    {
        text.push(' ');
        i += 1;
        assert(text@ =~= start + spaces(i as nat));
    }
}

/// `text` moved to the right end of a field of `width` characters.
pub open spec fn pad_left(text: Seq<char>, width: nat) -> Seq<char> {
    if text.len() < width {
        spaces((width - text.len()) as nat) + text
    } else {
        text
    }
}

/// The parts one behind the other, with `separator` between them.
pub open spec fn join(parts: Seq<Seq<char>>, separator: Seq<char>) -> Seq<char>
    decreases parts.len(),
{
    if parts.len() == 0 {
        Seq::empty()
    } else if parts.len() == 1 {
        parts[0]
    } else {
        join(parts.drop_last(), separator) + separator + parts.last()
    }
}

/// Joins `parts` with `separator` between them.
pub fn join_texts(parts: &Vec<String>, separator: &str) -> (text: String)
    ensures
        text@ == join(texts(parts@), separator@),
{
    let mut text = String::new();
    let mut i: usize = 0;
    while i < parts.len()
        invariant
            i <= parts@.len(),
            text@ == join(texts(parts@).take(i as int), separator@),
        decreases parts@.len() - i,
    {
        let ghost before = texts(parts@).take(i as int);
        let ghost after = texts(parts@).take(i + 1);
        assert(after.drop_last() =~= before);
        if i > 0 {
            text.push_str(separator);
        }
        text.push_str(parts[i].as_str());
        i += 1;
        assert(text@ =~= join(after, separator@));
    }
    assert(texts(parts@).take(i as int) =~= texts(parts@));
    text
}

// ---------------------------------------------------------------------------
// Numbers
// ---------------------------------------------------------------------------

/// The character of a decimal digit.
pub open spec fn digit_char(digit: nat) -> char {
    (48 + digit) as char
}

/// `n` in decimal.
pub open spec fn decimal(n: nat) -> Seq<char>
    decreases n,
{
    if n < 10 {
        seq![digit_char(n)]
    } else {
        decimal(n / 10).push(digit_char(n % 10))
    }
}

/// Appends `n` in decimal.
pub fn push_decimal(text: &mut String, n: usize)
    ensures
        final(text)@ == old(text)@ + decimal(n as nat),
    decreases n,
{
    let ghost start = text@;
    if n >= 10 {
        push_decimal(text, n / 10);
    }
    text.push((48u8 + (n % 10) as u8) as char);
    assert(text@ =~= start + decimal(n as nat));
}

/// `n` in decimal.
pub fn decimal_string(n: usize) -> (text: String)
    ensures
        text@ == decimal(n as nat),
{
    let mut text = String::new();
    push_decimal(&mut text, n);
    text
}

/// Whether `ch` is a decimal digit.
pub open spec fn is_digit(ch: char) -> bool {
    '0' <= ch <= '9'
}

/// The value of a decimal digit.
pub open spec fn digit_value(ch: char) -> nat {
    (ch as u32 - 48) as nat
}

/// Whether `text` is made of decimal digits alone.
pub open spec fn all_digits(text: Seq<char>) -> bool {
    forall|i: int| 0 <= i < text.len() ==> is_digit(#[trigger] text[i])
}

/// The number that a run of decimal digits writes.
pub open spec fn digits_value(text: Seq<char>) -> nat
    decreases text.len(),
{
    if text.len() == 0 {
        0
    } else {
        digits_value(text.drop_last()) * 10 + digit_value(text.last())
    }
}

/// The number that `text` writes: decimal digits, at least one, after a plus
/// sign or none; nothing else, and no number above `max`.
pub open spec fn parse_number(text: Seq<char>, max: nat) -> Option<nat> {
    let digits = if text.len() > 0 && text[0] == '+' {
        text.drop_first()
    } else {
        text
    };
    if digits.len() > 0 && all_digits(digits) && digits_value(digits) <= max {
        Some(digits_value(digits))
    } else {
        None
    }
}

/// A prefix of a run of digits writes no larger number.
pub proof fn lemma_digits_value_prefix(text: Seq<char>, n: int)
    requires
        0 <= n <= text.len(),
    ensures
        digits_value(text.take(n)) <= digits_value(text),
    decreases text.len(),
{
    if n < text.len() {
        assert(text.take(n) =~= text.drop_last().take(n));
        lemma_digits_value_prefix(text.drop_last(), n);
    } else {
        assert(text.take(n) =~= text);
    }
}

/// Reads the number that the characters from `from` up to `to` write.
pub fn read_number(chars: &Vec<char>, from: usize, to: usize, max: usize) -> (number: Option<usize>)
    requires
        from <= to <= chars@.len(),
    ensures
        match number {
            Some(n) => parse_number(chars@.subrange(from as int, to as int), max as nat) == Some(
                n as nat,
            ),
            None => parse_number(chars@.subrange(from as int, to as int), max as nat) is None,
        },
{
    let ghost text = chars@.subrange(from as int, to as int);
    let first: usize = if from < to && chars[from] == '+' {
        from + 1
    } else {
        from
    };
    let ghost digits = chars@.subrange(first as int, to as int);
    assert(digits =~= if text.len() > 0 && text[0] == '+' {
        text.drop_first()
    } else {
        text
    });
    if first == to {
        return None;
    }
    let mut value: usize = 0;
    let mut i: usize = first;
    while i < to
        invariant
            first <= i <= to <= chars@.len(),
            digits == chars@.subrange(first as int, to as int),
            all_digits(digits.take(i - first)),
            value == digits_value(digits.take(i - first)),
            value <= max,
            first < to,
            from <= to,
            text == chars@.subrange(from as int, to as int),
            digits == if text.len() > 0 && text[0] == '+' {
                text.drop_first()
            } else {
                text
            },
        decreases to - i,
    {
        let ch = chars[i];
        assert(ch == digits[i - first]);
        if ch < '0' || ch > '9' {
            assert(!is_digit(digits[i - first]));
            return None;
        }
        let digit: usize = (ch as u32 - 48) as usize;
        let ghost next = digits.take(i - first + 1);
        assert(next.drop_last() =~= digits.take(i - first));
        assert(digits_value(next) == value * 10 + digit);
        proof {
            lemma_digits_value_prefix(digits, i - first + 1);
        }
        if digit > max || value > max / 10 || value * 10 > max - digit {
            return None;
        }
        value = value * 10 + digit;
        i += 1;
    }
    assert(digits.take(to - first) =~= digits);
    Some(value)
}

// ---------------------------------------------------------------------------
// Parts and lines
// ---------------------------------------------------------------------------

/// The position of the first `ch` in `text`, or its length.
pub open spec fn find_char(text: Seq<char>, ch: char) -> nat
    decreases text.len(),
{
    if text.len() == 0 || text[0] == ch {
        0
    } else {
        1 + find_char(text.drop_first(), ch)
    }
}

/// `find_char` is the first position at which `ch` stands.
pub proof fn lemma_find_char(text: Seq<char>, ch: char)
    ensures
        find_char(text, ch) <= text.len(),
        find_char(text, ch) < text.len() ==> text[find_char(text, ch) as int] == ch,
        forall|i: int| 0 <= i < find_char(text, ch) ==> text[i] != ch,
    decreases text.len(),
{
    if text.len() > 0 && text[0] != ch {
        let rest = text.drop_first();
        lemma_find_char(rest, ch);
        assert forall|i: int| 0 <= i < find_char(text, ch) implies text[i] != ch by {
            if i > 0 {
                assert(text[i] == rest[i - 1]);
            }
        }
    }
}

/// The position of the first `ch` from `from` on, or the number of characters.
pub fn find_from(chars: &Vec<char>, from: usize, ch: char) -> (at: usize)
    requires
        from <= chars@.len(),
    ensures
        at == from + find_char(chars@.skip(from as int), ch),
        from <= at <= chars@.len(),
        at < chars@.len() ==> chars@[at as int] == ch,
{
    let mut i: usize = from;
    proof {
        lemma_find_char(chars@.skip(from as int), ch);
    }
    while i < chars.len() && chars[i] != ch
        invariant
            from <= i <= chars@.len(),
            find_char(chars@.skip(from as int), ch) == i - from + find_char(
                chars@.skip(i as int),
                ch,
            ),
        decreases chars@.len() - i,
    {
        assert(chars@.skip(i as int).drop_first() =~= chars@.skip(i + 1));
        i += 1;
    }
    i
}

/// The parts of `text` between the separators, at least one.
pub open spec fn split(text: Seq<char>, separator: char) -> Seq<Seq<char>>
    decreases text.len(),
{
    let at = find_char(text, separator);
    if at >= text.len() {
        seq![text]
    } else {
        seq![text.take(at as int)] + split(text.skip(at as int + 1), separator)
    }
}

/// Splits `text` at each `separator`.
pub fn split_text(text: &str, separator: char) -> (parts: Vec<String>)
    ensures
        texts(parts@) == split(text@, separator),
{
    let chars = char_list(text);
    let mut parts: Vec<String> = Vec::new();
    let mut from: usize = 0;
    assert(text@.skip(0) =~= text@);
    assert(texts(parts@) =~= Seq::<Seq<char>>::empty());
    loop
        invariant
            from <= chars@.len(),
            chars@ == text@,
            split(text@, separator) =~= texts(parts@) + split(text@.skip(from as int), separator),
        decreases chars@.len() - from,
    {
        let at = find_from(&chars, from, separator);
        let part = slice_text(&chars, from, at);
        let ghost rest = text@.skip(from as int);
        let ghost before = texts(parts@);
        assert(rest.take(at - from) =~= part@);
        parts.push(part);
        assert(texts(parts@) =~= before.push(part@));
        if at == chars.len() {
            assert(rest =~= part@);
            assert(split(rest, separator) =~= seq![part@]);
            assert(texts(parts@) =~= split(text@, separator));
            return parts;
        }
        assert(rest.skip(at - from + 1) =~= text@.skip(at + 1));
        from = at + 1;
    }
}

/// `line` without a carriage return at its end.
pub open spec fn strip_carriage_return(line: Seq<char>) -> Seq<char> {
    if line.len() > 0 && line.last() == '\r' {
        line.drop_last()
    } else {
        line
    }
}

/// The lines of `text`. A line ends with a newline, or with a carriage return
/// and a newline, which are not part of it; the last line may do without.
pub open spec fn lines(text: Seq<char>) -> Seq<Seq<char>>
    decreases text.len(),
{
    if text.len() == 0 {
        Seq::empty()
    } else {
        let at = find_char(text, '\n');
        if at >= text.len() {
            seq![text]
        } else {
            seq![strip_carriage_return(text.take(at as int))] + lines(text.skip(at as int + 1))
        }
    }
}

/// Cuts `text` into its lines.
pub fn split_lines(text: &str) -> (list: Vec<String>)
    ensures
        texts(list@) == lines(text@),
{
    let chars = char_list(text);
    let mut list: Vec<String> = Vec::new();
    let mut from: usize = 0;
    assert(text@.skip(0) =~= text@);
    assert(texts(list@) =~= Seq::<Seq<char>>::empty());
    while from < chars.len()
        invariant
            from <= chars@.len(),
            chars@ == text@,
            lines(text@) =~= texts(list@) + lines(text@.skip(from as int)),
        decreases chars@.len() - from,
    {
        let at = find_from(&chars, from, '\n');
        let ghost rest = text@.skip(from as int);
        let ghost before = texts(list@);
        assert(rest.take(at - from) =~= text@.subrange(from as int, at as int));
        if at == chars.len() {
            let line = slice_text(&chars, from, at);
            assert(line@ =~= rest);
            list.push(line);
            assert(texts(list@) =~= before.push(line@));
            assert(text@.skip(at as int) =~= Seq::<char>::empty());
            from = at;
        } else {
            let end: usize = if at > from && chars[at - 1] == '\r' {
                at - 1
            } else {
                at
            };
            let line = slice_text(&chars, from, end);
            assert(line@ =~= strip_carriage_return(rest.take(at - from)));
            list.push(line);
            assert(texts(list@) =~= before.push(line@));
            assert(rest.skip(at - from + 1) =~= text@.skip(at + 1));
            from = at + 1;
        }
    }
    assert(text@.skip(from as int) =~= Seq::<char>::empty());
    list
}

// ---------------------------------------------------------------------------
// Substrings
// ---------------------------------------------------------------------------

/// Whether `part` stands in `text` from position `at` on.
pub open spec fn occurs_at(text: Seq<char>, at: int, part: Seq<char>) -> bool {
    &&& 0 <= at
    &&& at + part.len() <= text.len()
    &&& text.subrange(at, at + part.len()) == part
}

/// Whether `part` stands somewhere in `text`.
pub open spec fn contains(text: Seq<char>, part: Seq<char>) -> bool {
    exists|at: int| occurs_at(text, at, part)
}

/// Whether `ch` does not occur in `text`.
pub open spec fn without(text: Seq<char>, ch: char) -> bool {
    forall|i: int| 0 <= i < text.len() ==> #[trigger] text[i] != ch
}

/// Whether `part` stands in `chars` from position `at` on.
pub fn occurs(chars: &Vec<char>, at: usize, part: &Vec<char>) -> (found: bool)
    requires
        at <= chars@.len(),
    ensures
        found == occurs_at(chars@, at as int, part@),
{
    if part.len() > chars.len() - at {
        return false;
    }
    let mut i: usize = 0;
    while i < part.len()
        invariant
            i <= part@.len(),
            at + part@.len() <= chars.len(),
            forall|j: int| 0 <= j < i ==> chars@[at + j] == part@[j],
        decreases part@.len() - i,
    {
        if chars[at + i] != part[i] {
            assert(chars@.subrange(at as int, at + part@.len())[i as int] != part@[i as int]);
            return false;
        }
        i += 1;
    }
    assert(chars@.subrange(at as int, at + part@.len()) =~= part@);
    true
}

/// Whether `part` stands somewhere in `text`.
pub fn contains_text(text: &str, part: &str) -> (found: bool)
    ensures
        found == contains(text@, part@),
{
    let chars = char_list(text);
    let part_chars = char_list(part);
    let mut at: usize = 0;
    while at < chars.len()
        invariant
            at <= chars@.len(),
            chars@ == text@,
            part_chars@ == part@,
            forall|j: int| 0 <= j < at ==> !occurs_at(text@, j, part@),
        decreases chars@.len() - at,
    {
        if occurs(&chars, at, &part_chars) {
            return true;
        }
        at += 1;
    }
    occurs(&chars, at, &part_chars)
}

/// Whether `ch` is white space: what Unicode gives the property `White_Space`.
pub open spec fn is_white_space(ch: char) -> bool {
    ||| '\u{9}' <= ch <= '\u{d}'
    ||| ch == ' '
    ||| ch == '\u{85}'
    ||| ch == '\u{a0}'
    ||| ch == '\u{1680}'
    ||| '\u{2000}' <= ch <= '\u{200a}'
    ||| ch == '\u{2028}'
    ||| ch == '\u{2029}'
    ||| ch == '\u{202f}'
    ||| ch == '\u{205f}'
    ||| ch == '\u{3000}'
}

/// Whether `ch` is white space.
pub fn white_space(ch: char) -> (white: bool)
    ensures
        white == is_white_space(ch),
{
    ('\u{9}' <= ch && ch <= '\u{d}') || ch == ' ' || ch == '\u{85}' || ch == '\u{a0}' || ch
        == '\u{1680}' || ('\u{2000}' <= ch && ch <= '\u{200a}') || ch == '\u{2028}' || ch
        == '\u{2029}' || ch == '\u{202f}' || ch == '\u{205f}' || ch == '\u{3000}'
}

/// `text` without the white space at its end.
pub open spec fn trim_end(text: Seq<char>) -> Seq<char>
    decreases text.len(),
{
    if text.len() > 0 && is_white_space(text.last()) {
        trim_end(text.drop_last())
    } else {
        text
    }
}

/// Takes the white space off the end of `text`.
pub fn trim_text_end(text: &str) -> (trimmed: String)
    ensures
        trimmed@ == trim_end(text@),
{
    let chars = char_list(text);
    let mut end: usize = chars.len();
    assert(chars@.take(end as int) =~= text@);
    while end > 0 && white_space(chars[end - 1])
        invariant
            end <= chars@.len(),
            trim_end(text@) == trim_end(chars@.take(end as int)),
        decreases end,
    {
        assert(chars@.take(end as int).drop_last() =~= chars@.take(end - 1));
        end -= 1;
    }
    assert(chars@.take(end as int) =~= chars@.subrange(0, end as int));
    slice_text(&chars, 0, end)
}

} // verus!
