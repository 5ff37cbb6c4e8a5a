//! How many terminal columns text takes, and cutting text to columns.
//!
//! A tab has no width of its own. Functions that meet tabs take the width to
//! give them: the renderer counts a tab stop, the pager counts nothing.

use crate::text;
use crate::text::char_list;
use crate::text::push_spaces;
use crate::text::text_bytes;
use unicode_width::UnicodeWidthChar;
use vstd::prelude::*;

verus! {

broadcast use vstd::seq::group_seq_axioms;

/// The distance between two tab stops.
pub const TAB_STOP: usize = 8;

/// The width that the Unicode tables of `unicode-width` give a character from
/// U+00A0 on.
pub uninterp spec fn table_width(ch: char) -> usize;

/// Whether `ch` is a control character.
pub open spec fn is_control(ch: char) -> bool {
    ch <= '\u{1f}' || '\u{7f}' <= ch <= '\u{9f}'
}

/// The displayed width of `ch`: one column for printable ASCII, none stated
/// for control characters, and what the Unicode tables say for the rest.
pub open spec fn displayed_width(ch: char) -> Option<usize> {
    if is_control(ch) {
        None
    } else if ch <= '~' {
        Some(1)
    } else {
        Some(table_width(ch))
    }
}

/// Calls `UnicodeWidthChar::width` of `unicode-width`. Claimed of it: control
/// characters have no width, printable ASCII has width one, the rest has the
/// width that its tables give, which is at most two, but for U+17D8, which may
/// have three.
#[verifier::external_body]
fn unicode_char_width(ch: char) -> (width: Option<usize>)
    ensures
        is_control(ch) ==> width is None,
        ' ' <= ch <= '~' ==> width == Some(1usize),
        '\u{a0}' <= ch ==> width == Some(table_width(ch)),
        width matches Some(w) ==> w <= 2 || (w == 3 && ch == '\u{17d8}'),
{
    UnicodeWidthChar::width(ch)
}

/// The columns of one character, where a tab takes `tab` of them.
pub open spec fn char_columns(ch: char, tab: nat) -> nat {
    if ch == '\t' {
        tab
    } else {
        match displayed_width(ch) {
            Some(width) => width as nat,
            None => 0,
        }
    }
}

/// The columns of a text: those of its characters added up.
pub open spec fn columns(text: Seq<char>, tab: nat) -> nat
    decreases text.len(),
{
    if text.len() == 0 {
        0
    } else {
        char_columns(text[0], tab) + columns(text.drop_first(), tab)
    }
}

/// The longest beginning of `text` that takes at most `width` columns, as it
/// is found from the front: the first character that no longer fits ends it.
pub open spec fn clip(text: Seq<char>, width: nat, tab: nat) -> Seq<char>
    decreases text.len(),
{
    if text.len() == 0 || char_columns(text[0], tab) > width {
        Seq::empty()
    } else {
        seq![text[0]] + clip(
            text.drop_first(),
            (width - char_columns(text[0], tab)) as nat,
            tab,
        )
    }
}

/// Whether the columns of `text` can be counted even if it were all tabs.
pub open spec fn fits_columns(text: Seq<char>) -> bool {
    text.len() * TAB_STOP <= usize::MAX
}

/// Whether `text` holds no tab.
pub open spec fn no_tabs(text: Seq<char>) -> bool {
    forall|i: int| 0 <= i < text.len() ==> #[trigger] text[i] != '\t'
}

/// Whether `columns` of `text` can be counted with tabs of width `tab`.
pub open spec fn countable(text: Seq<char>, tab: nat) -> bool {
    tab == 0 || no_tabs(text) || (tab == TAB_STOP && fits_columns(text))
}

/// The columns of one character, where a tab takes `tab` of them.
pub fn char_width(ch: char, tab: usize) -> (width: usize)
    ensures
        width == char_columns(ch, tab as nat),
        ch != '\t' ==> width <= text::utf8_len(ch) <= 4,
{
    if ch == '\t' {
        tab
    } else {
        match unicode_char_width(ch) {
            Some(width) => width,
            None => 0,
        }
    }
}

/// The columns of `text`, where a tab takes `tab` of them.
pub fn text_columns(text: &str, tab: usize) -> (width: usize)
    requires
        countable(text@, tab as nat),
    ensures
        width == columns(text@, tab as nat),
        tab == 0 ==> width <= text::byte_len(text@),
{
    let total = text_bytes(text);
    let chars = char_list(text);
    let mut width: usize = 0;
    let mut i: usize = 0;
    assert(chars@.skip(0) =~= text@);
    while i < chars.len()
        invariant
            i <= chars@.len(),
            chars@ == text@,
            countable(text@, tab as nat),
            total == text::byte_len(text@),
            columns(text@, tab as nat) == width + columns(chars@.skip(i as int), tab as nat),
            tab == 0 || no_tabs(text@) ==> width + text::byte_len(chars@.skip(i as int)) <= total,
            tab == TAB_STOP ==> width <= i * TAB_STOP,
        decreases chars@.len() - i,
    {
        let ghost rest = chars@.skip(i as int);
        assert(rest.drop_first() =~= chars@.skip(i + 1));
        assert(chars@[i as int] == text@[i as int]);
        let ch_width = char_width(chars[i], tab);
        width += ch_width;
        i += 1;
    }
    width
}

/// The longest beginning of `text` that takes at most `width` columns.
pub fn clip_text(text: &str, width: usize, tab: usize) -> (clipped: String)
    requires
        countable(text@, tab as nat),
    ensures
        clipped@ == clip(text@, width as nat, tab as nat),
{
    let total = text_bytes(text);
    let chars = char_list(text);
    let mut clipped = String::new();
    let mut used: usize = 0;
    let mut i: usize = 0;
    assert(chars@.skip(0) =~= text@);
    while i < chars.len()
        invariant
            i <= chars@.len(),
            chars@ == text@,
            countable(text@, tab as nat),
            total == text::byte_len(text@),
            used <= width,
            clip(text@, width as nat, tab as nat) == clipped@ + clip(
                chars@.skip(i as int),
                (width - used) as nat,
                tab as nat,
            ),
            tab == 0 || no_tabs(text@) ==> used + text::byte_len(chars@.skip(i as int)) <= total,
            tab == TAB_STOP ==> used <= i * TAB_STOP,
        decreases chars@.len() - i,
    {
        let ghost rest = chars@.skip(i as int);
        assert(rest.drop_first() =~= chars@.skip(i + 1));
        assert(chars@[i as int] == text@[i as int]);
        let ch_width = char_width(chars[i], tab);
        if used + ch_width > width {
            assert(clip(rest, (width - used) as nat, tab as nat) =~= Seq::<char>::empty());
            return clipped;
        }
        let ghost before = clipped@;
        clipped.push(chars[i]);
        used += ch_width;
        i += 1;
        assert(before + clip(rest, (width - used + ch_width) as nat, tab as nat) =~= clipped@
            + clip(chars@.skip(i as int), (width - used) as nat, tab as nat));
    }
    clipped
}

/// `text`, which starts at `column`, with each tab replaced by the spaces up
/// to the next tab stop.
pub open spec fn expand_tabs_from(text: Seq<char>, column: nat) -> Seq<char>
    decreases text.len(),
{
    if text.len() == 0 {
        Seq::empty()
    } else if text[0] == '\t' {
        let n = (TAB_STOP - column % (TAB_STOP as nat)) as nat;
        text::spaces(n) + expand_tabs_from(text.drop_first(), column + n)
    } else {
        seq![text[0]] + expand_tabs_from(
            text.drop_first(),
            column + char_columns(text[0], TAB_STOP as nat),
        )
    }
}

/// Replaces each tab of `text` by the spaces up to the next tab stop.
pub fn expand_tabs(text: &str) -> (expanded: String)
    requires
        fits_columns(text@),
    ensures
        expanded@ == expand_tabs_from(text@, 0),
{
    let chars = char_list(text);
    let mut expanded = String::new();
    let mut column: usize = 0;
    let mut i: usize = 0;
    assert(chars@.skip(0) =~= text@);
    while i < chars.len()
        invariant
            i <= chars@.len(),
            chars@ == text@,
            fits_columns(text@),
            column <= i * TAB_STOP,
            expand_tabs_from(text@, 0) == expanded@ + expand_tabs_from(
                chars@.skip(i as int),
                column as nat,
            ),
        decreases chars@.len() - i,
    {
        let ghost rest = chars@.skip(i as int);
        let ghost before = expanded@;
        let ghost at = column as nat;
        assert(rest.drop_first() =~= chars@.skip(i + 1));
        let ch = chars[i];
        if ch == '\t' {
            let count: usize = TAB_STOP - (column % TAB_STOP);
            push_spaces(&mut expanded, count);
            column += count;
        } else {
            expanded.push(ch);
            column += char_width(ch, TAB_STOP);
        }
        i += 1;
        assert(before + expand_tabs_from(rest, at) =~= expanded@ + expand_tabs_from(
            chars@.skip(i as int),
            column as nat,
        ));
    }
    expanded
}

// ---------------------------------------------------------------------------
// Laws
// ---------------------------------------------------------------------------

/// The columns of two texts in a row add up.
pub proof fn lemma_columns_add(left: Seq<char>, right: Seq<char>, tab: nat)
    ensures
        columns(left + right, tab) == columns(left, tab) + columns(right, tab),
    decreases left.len(),
{
    if left.len() == 0 {
        assert(left + right =~= right);
    } else {
        assert((left + right).drop_first() =~= left.drop_first() + right);
        lemma_columns_add(left.drop_first(), right, tab);
    }
}

/// A space takes one column.
pub proof fn lemma_spaces_columns(n: nat, tab: nat)
    ensures
        columns(text::spaces(n), tab) == n,
    decreases n,
{
    if n > 0 {
        assert(text::spaces(n).drop_first() =~= text::spaces((n - 1) as nat));
        lemma_spaces_columns((n - 1) as nat, tab);
    }
}

/// A clipped text is a beginning of the text, takes no more than the width
/// asked for, and is the whole text exactly where the text fits.
pub proof fn lemma_clip(text: Seq<char>, width: nat, tab: nat)
    ensures
        clip(text, width, tab).len() <= text.len(),
        clip(text, width, tab) == text.take(clip(text, width, tab).len() as int),
        columns(clip(text, width, tab), tab) <= width,
        columns(text, tab) <= width <==> clip(text, width, tab) == text,
    decreases text.len(),
{
    let clipped = clip(text, width, tab);
    if text.len() == 0 {
        assert(clipped =~= text);
        assert(text.take(0) =~= text);
    } else if char_columns(text[0], tab) > width {
        assert(text.take(0) =~= Seq::<char>::empty());
        assert(clipped.len() != text.len());
    } else {
        let rest = text.drop_first();
        let room = (width - char_columns(text[0], tab)) as nat;
        lemma_clip(rest, room, tab);
        let tail = clip(rest, room, tab);
        assert(clipped.drop_first() =~= tail);
        assert(clipped =~= text.take(clipped.len() as int)) by {
            assert forall|i: int| 0 <= i < clipped.len() implies clipped[i] == text[i] by {
                if i > 0 {
                    assert(clipped[i] == tail[i - 1]);
                    assert(tail[i - 1] == rest.take(tail.len() as int)[i - 1]);
                }
            }
        }
        if tail == rest {
            assert(clipped =~= text);
        }
        if clipped == text {
            assert(tail =~= rest);
        }
    }
}

/// Nothing more fits behind a clipped text: the next character, if there is
/// one, would go over the width.
pub proof fn lemma_clip_is_longest(text: Seq<char>, width: nat, tab: nat)
    ensures
        clip(text, width, tab).len() < text.len() ==> columns(
            text.take(clip(text, width, tab).len() as int + 1),
            tab,
        ) > width,
    decreases text.len(),
{
    if text.len() > 0 {
        let clipped = clip(text, width, tab);
        if char_columns(text[0], tab) > width {
            assert(text.take(1).drop_first() =~= Seq::<char>::empty());
            assert(columns(Seq::<char>::empty(), tab) == 0);
            assert(columns(text.take(1), tab) == char_columns(text[0], tab));
        } else {
            let rest = text.drop_first();
            let room = (width - char_columns(text[0], tab)) as nat;
            let tail = clip(rest, room, tab);
            lemma_clip_is_longest(rest, room, tab);
            if clipped.len() < text.len() {
                assert(text.take(clipped.len() as int + 1).drop_first() =~= rest.take(
                    tail.len() as int + 1,
                ));
            }
        }
    }
}

/// Clipping a clipped text to the same width changes nothing.
pub proof fn lemma_clip_twice(text: Seq<char>, width: nat, tab: nat)
    ensures
        clip(clip(text, width, tab), width, tab) == clip(text, width, tab),
{
    lemma_clip(text, width, tab);
    lemma_clip(clip(text, width, tab), width, tab);
}

/// Expanded text holds no tab, and text without tabs is left as it is.
pub proof fn lemma_expand_tabs(text: Seq<char>, column: nat)
    ensures
        no_tabs(expand_tabs_from(text, column)),
        no_tabs(text) ==> expand_tabs_from(text, column) == text,
    decreases text.len(),
{
    if text.len() == 0 {
        assert(expand_tabs_from(text, column) =~= text);
    } else {
        let rest = text.drop_first();
        let next = if text[0] == '\t' {
            column + (TAB_STOP - column % (TAB_STOP as nat)) as nat
        } else {
            column + char_columns(text[0], TAB_STOP as nat)
        };
        lemma_expand_tabs(rest, next);
        let tail = expand_tabs_from(rest, next);
        let whole = expand_tabs_from(text, column);
        assert forall|i: int| 0 <= i < whole.len() implies #[trigger] whole[i] != '\t' by {
            let head = whole.len() - tail.len();
            if i >= head {
                assert(whole[i] == tail[i - head]);
            }
        }
        if no_tabs(text) {
            assert(no_tabs(rest)) by {
                assert forall|i: int| 0 <= i < rest.len() implies #[trigger] rest[i] != '\t' by {
                    assert(rest[i] == text[i + 1]);
                }
            }
            assert(whole =~= text);
        }
    }
}

/// Text without tabs takes the same columns whatever a tab is given.
pub proof fn lemma_columns_without_tabs(text: Seq<char>, tab: nat, other: nat)
    requires
        no_tabs(text),
    ensures
        columns(text, tab) == columns(text, other),
    decreases text.len(),
{
    if text.len() > 0 {
        let rest = text.drop_first();
        assert forall|i: int| 0 <= i < rest.len() implies #[trigger] rest[i] != '\t' by {
            assert(rest[i] == text[i + 1]);
        }
        lemma_columns_without_tabs(rest, tab, other);
    }
}

/// Text without tabs is clipped to the same beginning whatever a tab is given.
pub proof fn lemma_clip_without_tabs(text: Seq<char>, width: nat, tab: nat, other: nat)
    requires
        no_tabs(text),
    ensures
        clip(text, width, tab) == clip(text, width, other),
    decreases text.len(),
{
    if text.len() > 0 {
        let rest = text.drop_first();
        assert forall|i: int| 0 <= i < rest.len() implies #[trigger] rest[i] != '\t' by {
            assert(rest[i] == text[i + 1]);
        }
        if char_columns(text[0], tab) <= width {
            lemma_clip_without_tabs(
                rest,
                (width - char_columns(text[0], tab)) as nat,
                tab,
                other,
            );
        }
    }
}

/// Clipping adds no characters.
pub proof fn lemma_clip_without(text: Seq<char>, width: nat, tab: nat, ch: char)
    requires
        text::without(text, ch),
    ensures
        text::without(clip(text, width, tab), ch),
{
    lemma_clip(text, width, tab);
    let kept = clip(text, width, tab);
    assert forall|i: int| 0 <= i < kept.len() implies #[trigger] kept[i] != ch by {
        assert(kept[i] == text.take(kept.len() as int)[i]);
        assert(text[i] != ch);
    }
}

/// Expanding tabs adds no characters but spaces.
pub proof fn lemma_expand_tabs_without(text: Seq<char>, column: nat, ch: char)
    requires
        text::without(text, ch),
        ch != ' ',
    ensures
        text::without(expand_tabs_from(text, column), ch),
    decreases text.len(),
{
    if text.len() > 0 {
        let rest = text.drop_first();
        assert forall|i: int| 0 <= i < rest.len() implies #[trigger] rest[i] != ch by {
            assert(rest[i] == text[i + 1]);
        }
        assert(text[0] != ch);
        let next = if text[0] == '\t' {
            column + (TAB_STOP - column % (TAB_STOP as nat)) as nat
        } else {
            column + char_columns(text[0], TAB_STOP as nat)
        };
        lemma_expand_tabs_without(rest, next, ch);
        let tail = expand_tabs_from(rest, next);
        let whole = expand_tabs_from(text, column);
        assert forall|i: int| 0 <= i < whole.len() implies #[trigger] whole[i] != ch by {
            let head = whole.len() - tail.len();
            if i >= head {
                assert(whole[i] == tail[i - head]);
            }
        }
    }
}

/// A beginning of a countable text is countable.
pub proof fn lemma_countable_prefix(text: Seq<char>, n: int, tab: nat)
    requires
        0 <= n <= text.len(),
        countable(text, tab),
    ensures
        countable(text.take(n), tab),
{
    assert(text.take(n).len() * TAB_STOP <= text.len() * TAB_STOP) by (nonlinear_arith)
        requires
            text.take(n).len() <= text.len(),
    ;
    if no_tabs(text) {
        assert forall|i: int| 0 <= i < n implies #[trigger] text.take(n)[i] != '\t' by {
            assert(text.take(n)[i] == text[i]);
        }
    }
}

/// What follows a tab starts at a tab stop: the text before the tab and the
/// spaces that replace it together take a multiple of the tab stop.
pub proof fn lemma_tab_reaches_stop(column: nat)
    ensures
        (column + (TAB_STOP - column % (TAB_STOP as nat))) % (TAB_STOP as int) == 0,
        1 <= TAB_STOP - column % (TAB_STOP as nat) <= TAB_STOP,
{
}

/// Printable ASCII takes one column, a control character none, and a tab what it
/// is given.
pub proof fn lemma_char_columns(ch: char, tab: nat)
    ensures
        ' ' <= ch <= '~' ==> char_columns(ch, tab) == 1,
        ch <= '\u{1f}' && ch != '\t' ==> char_columns(ch, tab) == 0,
        '\u{7f}' <= ch <= '\u{9f}' ==> char_columns(ch, tab) == 0,
        char_columns('\t', tab) == tab,
        ch >= '\u{a0}' ==> char_columns(ch, tab) == table_width(ch),
{
}

/// Text of printable ASCII takes as many columns as it has characters.
pub proof fn lemma_ascii_columns(text: Seq<char>, tab: nat)
    requires
        forall|i: int| 0 <= i < text.len() ==> ' ' <= #[trigger] text[i] <= '~',
    ensures
        columns(text, tab) == text.len(),
    decreases text.len(),
{
    if text.len() > 0 {
        let rest = text.drop_first();
        assert forall|i: int| 0 <= i < rest.len() implies ' ' <= #[trigger] rest[i] <= '~' by {
            assert(rest[i] == text[i + 1]);
        }
        lemma_ascii_columns(rest, tab);
        assert(' ' <= text[0] <= '~');
    }
}

/// A tab is replaced by blanks up to the next multiple of eight columns; the text
/// before it stays as it is, and the text behind it goes on from there.
pub proof fn lemma_tab_is_blanks(before: Seq<char>, rest: Seq<char>, column: nat)
    requires
        no_tabs(before),
    ensures
        ({
            let at = column + columns(before, 8);
            let count = (8 - at % 8) as nat;
            &&& expand_tabs_from(before + seq!['\t'] + rest, column) == before + text::spaces(count)
                + expand_tabs_from(rest, at + count)
            &&& (at + count) % 8 == 0
        }),
    decreases before.len(),
{
    let whole = before + seq!['\t'] + rest;
    let at = column + columns(before, 8);
    let count = (8 - at % 8) as nat;
    let tail = expand_tabs_from(rest, at + count);
    if before.len() == 0 {
        assert(whole[0] == '\t');
        assert(whole.drop_first() =~= rest);
        assert(columns(before, 8) == 0);
        assert(before + text::spaces(count) + tail =~= text::spaces(count) + tail);
    } else {
        let fewer = before.drop_first();
        assert forall|i: int| 0 <= i < fewer.len() implies #[trigger] fewer[i] != '\t' by {
            assert(fewer[i] == before[i + 1]);
        }
        assert(before[0] != '\t');
        assert(whole[0] == before[0]);
        assert(whole.drop_first() =~= fewer + seq!['\t'] + rest);
        lemma_tab_is_blanks(fewer, rest, column + char_columns(before[0], 8));
        assert(seq![before[0]] + (fewer + text::spaces(count) + tail) =~= before + text::spaces(
            count,
        ) + tail);
    }
}

} // verus!
