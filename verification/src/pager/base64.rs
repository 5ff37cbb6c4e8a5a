//! Base64, in which terminals take text for the clipboard.

use vstd::prelude::*;

verus! {

broadcast use vstd::seq::group_seq_axioms;

/// The character of a digit.
pub open spec fn digit_char(digit: nat) -> char {
    if digit < 26 {
        (65 + digit) as char
    } else if digit < 52 {
        (71 + digit) as char
    } else if digit < 62 {
        (digit - 4) as char
    } else if digit == 62 {
        '+'
    } else {
        '/'
    }
}

/// Byte `i` of `data`, or zero behind its end.
pub open spec fn byte_or_zero(data: Seq<u8>, i: int) -> nat {
    if 0 <= i < data.len() {
        data[i] as nat
    } else {
        0
    }
}

/// The four characters of three bytes: six bits each, from the highest. Of a
/// shorter end, padding stands for the characters that hold none of it.
pub open spec fn group(data: Seq<u8>) -> Seq<char> {
    let a = byte_or_zero(data, 0);
    let b = byte_or_zero(data, 1);
    let c = byte_or_zero(data, 2);
    seq![
        digit_char(a / 4),
        digit_char((a % 4) * 16 + b / 16),
        if data.len() > 1 {
            digit_char((b % 16) * 4 + c / 64)
        } else {
            '='
        },
        if data.len() > 2 {
            digit_char(c % 64)
        } else {
            '='
        },
    ]
}

/// The Base64 of `data`.
pub open spec fn encoded(data: Seq<u8>) -> Seq<char>
    decreases data.len(),
{
    if data.len() == 0 {
        Seq::empty()
    } else if data.len() <= 3 {
        group(data)
    } else {
        group(data.take(3)) + encoded(data.skip(3))
    }
}

/// The character of a digit.
fn base64_char(digit: u8) -> (ch: char)
    requires
        digit < 64,
    ensures
        ch == digit_char(digit as nat),
{
    if digit <= 25 {
        (65 + digit) as char
    } else if digit <= 51 {
        (71 + digit) as char
    } else if digit <= 61 {
        (digit - 4) as char
    } else if digit == 62 {
        '+'
    } else {
        '/'
    }
}

/// Encodes `data` in Base64.
pub fn encode_base64(data: &[u8]) -> (result: String)
    ensures
        result@ == encoded(data@),
{
    let mut result = String::new();
    let mut i: usize = 0;
    assert(data@.skip(0) =~= data@);
    while i < data.len()
        invariant
            i <= data@.len(),
            encoded(data@) == result@ + encoded(data@.skip(i as int)),
        decreases data@.len() - i,
    {
        let ghost before = result@;
        let ghost rest = data@.skip(i as int);
        let left: usize = data.len() - i;
        let b0: u8 = data[i];
        let b1: u8 = if left > 1 {
            data[i + 1]
        } else {
            0
        };
        let b2: u8 = if left > 2 {
            data[i + 2]
        } else {
            0
        };
        result.push(base64_char(b0 / 4));
        result.push(base64_char((b0 % 4) * 16 + b1 / 16));
        if left > 1 {
            result.push(base64_char((b1 % 16) * 4 + b2 / 64));
        } else {
            result.push('=');
        }
        if left > 2 {
            result.push(base64_char(b2 % 64));
        } else {
            result.push('=');
        }
        if left > 3 {
            assert(rest.skip(3) =~= data@.skip(i + 3));
            assert(result@ =~= before + group(rest.take(3)));
            i += 3;
        } else {
            assert(result@ =~= before + group(rest));
            i = data.len();
            assert(data@.skip(i as int) =~= Seq::<u8>::empty());
        }
        assert(before + encoded(rest) =~= result@ + encoded(data@.skip(i as int)));
    }
    assert(data@.skip(i as int) =~= Seq::<u8>::empty());
    result
}

// ---------------------------------------------------------------------------
// Reading back
// ---------------------------------------------------------------------------

/// The digit of a character; no digit for any other character.
pub open spec fn char_digit(ch: char) -> nat {
    if 'A' <= ch <= 'Z' {
        (ch as u32 - 65) as nat
    } else if 'a' <= ch <= 'z' {
        (ch as u32 - 71) as nat
    } else if '0' <= ch <= '9' {
        (ch as u32 + 4) as nat
    } else if ch == '+' {
        62
    } else if ch == '/' {
        63
    } else {
        64
    }
}

/// The bytes of four characters.
pub open spec fn ungroup(chars: Seq<char>) -> Seq<nat> {
    let first = char_digit(chars[0]) * 4 + char_digit(chars[1]) / 16;
    let second = (char_digit(chars[1]) % 16) * 16 + char_digit(chars[2]) / 4;
    let third = (char_digit(chars[2]) % 4) * 64 + char_digit(chars[3]);
    if chars[2] == '=' {
        seq![first]
    } else if chars[3] == '=' {
        seq![first, second]
    } else {
        seq![first, second, third]
    }
}

/// The bytes that a Base64 text stands for.
pub open spec fn decoded(chars: Seq<char>) -> Seq<nat>
    decreases chars.len(),
{
    if chars.len() < 4 {
        Seq::empty()
    } else {
        ungroup(chars.take(4)) + decoded(chars.skip(4))
    }
}

/// `data` as numbers.
pub open spec fn bytes(data: Seq<u8>) -> Seq<nat> {
    data.map_values(|byte: u8| byte as nat)
}

proof fn lemma_digit_reads_back(digit: nat, ch: char)
    requires
        digit < 64,
        ch == digit_char(digit),
    ensures
        char_digit(ch) == digit,
        ch != '=',
{
}

proof fn lemma_group_reads_back(data: Seq<u8>)
    requires
        1 <= data.len() <= 3,
    ensures
        group(data).len() == 4,
        ungroup(group(data)) == bytes(data),
{
    let a = byte_or_zero(data, 0);
    let b = byte_or_zero(data, 1);
    let c = byte_or_zero(data, 2);
    lemma_digit_reads_back(a / 4, digit_char(a / 4));
    lemma_digit_reads_back((a % 4) * 16 + b / 16, digit_char((a % 4) * 16 + b / 16));
    lemma_digit_reads_back((b % 16) * 4 + c / 64, digit_char((b % 16) * 4 + c / 64));
    lemma_digit_reads_back(c % 64, digit_char(c % 64));
    assert(ungroup(group(data)) =~= bytes(data));
}

/// What was encoded is decoded to the same bytes.
pub proof fn lemma_base64_reads_back(data: Seq<u8>)
    ensures
        decoded(encoded(data)) == bytes(data),
    decreases data.len(),
{
    let chars = encoded(data);
    if data.len() == 0 {
        assert(decoded(chars) =~= bytes(data));
    } else if data.len() <= 3 {
        lemma_group_reads_back(data);
        assert(chars.take(4) =~= chars);
        assert(chars.skip(4) =~= Seq::<char>::empty());
        assert(decoded(chars.skip(4)) =~= Seq::<nat>::empty());
        assert(decoded(chars) =~= bytes(data));
    } else {
        let head = data.take(3);
        let tail = data.skip(3);
        lemma_group_reads_back(head);
        lemma_base64_reads_back(tail);
        assert(chars.take(4) =~= group(head));
        assert(chars.skip(4) =~= encoded(tail));
        assert(decoded(chars) =~= bytes(data));
    }
}

/// There are four characters for each three bytes, and four for what is left.
pub proof fn lemma_base64_length(data: Seq<u8>)
    ensures
        encoded(data).len() == 4 * ((data.len() + 2) / 3),
    decreases data.len(),
{
    if data.len() > 3 {
        lemma_base64_length(data.skip(3));
    }
}

} // verus!
