//! What holds of every diff that is read, and of every part of it that is
//! filtered out.

use crate::pager::paint_laws;
use crate::text;
use crate::text_laws;
use crate::unified_diff;
use crate::unified_diff::HunkView;
use crate::unified_diff::ItemView;
use crate::unified_diff::ParseState;
use crate::unified_diff::RawRowView;
use crate::unified_diff::RowView;
use crate::unified_diff::RowsInProgress;
use vstd::prelude::*;

verus! {

broadcast use vstd::seq::group_seq_axioms;

// ---------------------------------------------------------------------------
// Lines of a diff
// ---------------------------------------------------------------------------

/// Whether a line opens a hunk.
pub open spec fn is_header(line: Seq<char>) -> bool {
    line.len() >= 2 && line[0] == '@' && line[1] == '@'
}

/// Whether a line belongs to the hunk that is open above it.
pub open spec fn is_body(line: Seq<char>) -> bool {
    line.len() >= 1 && (line[0] == ' ' || line[0] == '-' || line[0] == '+' || line[0] == '\\')
}

/// Whether all of `body` belong to the hunk that is open above them.
pub open spec fn all_body(body: Seq<Seq<char>>) -> bool {
    forall|i: int| 0 <= i < body.len() ==> is_body(#[trigger] body[i])
}

/// What the lines of `body` say that start with a blank or with `sign`: what
/// follows their first character.
pub open spec fn side(body: Seq<Seq<char>>, sign: char) -> Seq<Seq<char>>
    decreases body.len(),
{
    if body.len() == 0 {
        Seq::empty()
    } else {
        let before = side(body.drop_last(), sign);
        let line = body.last();
        if line[0] == ' ' || line[0] == sign {
            before.push(line.drop_first())
        } else {
            before
        }
    }
}

/// What the lines of `body` say that start with `sign`.
pub open spec fn signed(body: Seq<Seq<char>>, sign: char) -> Seq<Seq<char>>
    decreases body.len(),
{
    if body.len() == 0 {
        Seq::empty()
    } else {
        let before = signed(body.drop_last(), sign);
        let line = body.last();
        if line[0] == sign {
            before.push(line.drop_first())
        } else {
            before
        }
    }
}

/// The lines of `body` that start with a backslash.
pub open spec fn remarks(body: Seq<Seq<char>>) -> Seq<Seq<char>>
    decreases body.len(),
{
    if body.len() == 0 {
        Seq::empty()
    } else {
        let before = remarks(body.drop_last());
        if body.last()[0] == '\\' {
            before.push(body.last())
        } else {
            before
        }
    }
}

// ---------------------------------------------------------------------------
// Reading on from a state
// ---------------------------------------------------------------------------

spec fn run(state: ParseState, lines: Seq<Seq<char>>) -> ParseState
    decreases lines.len(),
{
    if lines.len() == 0 {
        state
    } else {
        run(state, lines.drop_last()).after(lines.last())
    }
}

spec fn behind(items: Seq<ItemView>, state: ParseState) -> ParseState {
    ParseState { items: items + state.items, ..state }
}

proof fn lemma_run_is_parse(lines: Seq<Seq<char>>)
    ensures
        run(unified_diff::parse_start(), lines) == unified_diff::parse_state(lines),
    decreases lines.len(),
{
    if lines.len() > 0 {
        lemma_run_is_parse(lines.drop_last());
    }
}

proof fn lemma_run_add(state: ParseState, left: Seq<Seq<char>>, right: Seq<Seq<char>>)
    ensures
        run(state, left + right) == run(run(state, left), right),
    decreases right.len(),
{
    if right.len() == 0 {
        assert(left + right =~= left);
    } else {
        assert((left + right).drop_last() =~= left + right.drop_last());
        lemma_run_add(state, left, right.drop_last());
    }
}

proof fn lemma_closed_behind(items: Seq<ItemView>, state: ParseState)
    ensures
        behind(items, state).closed() == behind(items, state.closed()),
{
    assert(behind(items, state).closed().items =~= behind(items, state.closed()).items);
}

proof fn lemma_after_behind(items: Seq<ItemView>, state: ParseState, line: Seq<char>)
    ensures
        behind(items, state).after(line) == behind(items, state.after(line)),
{
    lemma_closed_behind(items, state);
    assert(behind(items, state).after(line).items =~= behind(items, state.after(line)).items);
}

proof fn lemma_run_behind(items: Seq<ItemView>, state: ParseState, lines: Seq<Seq<char>>)
    ensures
        run(behind(items, state), lines) == behind(items, run(state, lines)),
    decreases lines.len(),
{
    if lines.len() > 0 {
        lemma_run_behind(items, state, lines.drop_last());
        lemma_after_behind(items, run(state, lines.drop_last()), lines.last());
    }
}

proof fn lemma_parsed_behind(items: Seq<ItemView>, rest: Seq<char>)
    ensures
        run(behind(items, unified_diff::parse_start()), text::lines(rest)).closed().items == items
            + unified_diff::parsed(rest),
{
    let start = unified_diff::parse_start();
    lemma_run_behind(items, start, text::lines(rest));
    lemma_closed_behind(items, run(start, text::lines(rest)));
    lemma_run_is_parse(text::lines(rest));
}

/// A line that opens no hunk and stands below none is read as it is, and the
/// lines below it are read as if it were not there.
pub proof fn lemma_line_outside_hunks(input: Seq<char>, line: Seq<char>, rest: Seq<char>)
    requires
        text::lines(input) == seq![line] + text::lines(rest),
        !is_header(line),
    ensures
        unified_diff::parsed(input) == seq![ItemView::Meta(line)] + unified_diff::parsed(rest),
{
    let start = unified_diff::parse_start();
    let one = seq![line];
    lemma_run_is_parse(text::lines(input));
    lemma_run_add(start, one, text::lines(rest));
    assert(one.drop_last() =~= Seq::<Seq<char>>::empty());
    assert(run(start, one.drop_last()) == start);
    assert(run(start, one).items =~= seq![ItemView::Meta(line)] + start.items);
    assert(run(start, one) == behind(seq![ItemView::Meta(line)], start));
    lemma_parsed_behind(seq![ItemView::Meta(line)], rest);
}

spec fn raw_rows(body: Seq<Seq<char>>) -> Seq<RawRowView> {
    body.map_values(
        |line: Seq<char>|
            if line[0] == ' ' {
                RawRowView::Context(line.drop_first())
            } else if line[0] == '-' {
                RawRowView::Delete(line.drop_first())
            } else if line[0] == '+' {
                RawRowView::Insert(line.drop_first())
            } else {
                RawRowView::Annotation(line)
            },
    )
}

proof fn lemma_open_hunk(header: Seq<char>, body: Seq<Seq<char>>)
    requires
        is_header(header),
        all_body(body),
    ensures
        run(unified_diff::parse_start(), seq![header] + body) == (ParseState {
            items: Seq::empty(),
            header: Some(header),
            raw: raw_rows(body),
        }),
    decreases body.len(),
{
    let start = unified_diff::parse_start();
    let lines = seq![header] + body;
    if body.len() == 0 {
        assert(lines.drop_last() =~= Seq::<Seq<char>>::empty());
        assert(run(start, lines.drop_last()) == start);
        assert(lines.last() == header);
        assert(raw_rows(body) =~= Seq::<RawRowView>::empty());
    } else {
        let fewer = body.drop_last();
        assert forall|i: int| 0 <= i < fewer.len() implies is_body(#[trigger] fewer[i]) by {
            assert(fewer[i] == body[i]);
        }
        assert(lines.drop_last() =~= seq![header] + fewer);
        assert(is_body(body[body.len() - 1]));
        assert(lines.last() == body.last());
        lemma_open_hunk(header, fewer);
        let row = raw_rows(body).last();
        assert(raw_rows(body) =~= raw_rows(fewer).push(row));
    }
}

proof fn lemma_raw_sides(body: Seq<Seq<char>>)
    requires
        all_body(body),
    ensures
        unified_diff::raw_old_side(raw_rows(body)) == side(body, '-'),
        unified_diff::raw_new_side(raw_rows(body)) == side(body, '+'),
        unified_diff::raw_annotations(raw_rows(body)) == remarks(body),
    decreases body.len(),
{
    if body.len() > 0 {
        let fewer = body.drop_last();
        assert forall|i: int| 0 <= i < fewer.len() implies is_body(#[trigger] fewer[i]) by {
            assert(fewer[i] == body[i]);
        }
        assert(is_body(body[body.len() - 1]));
        lemma_raw_sides(fewer);
        assert(raw_rows(body).drop_last() =~= raw_rows(fewer));
    }
}

/// The hunk that the first line of a diff opens.
pub open spec fn first_hunk(input: Seq<char>) -> HunkView {
    unified_diff::parsed(input)[0]->Hunk_0
}

proof fn lemma_first_hunk(
    input: Seq<char>,
    header: Seq<char>,
    body: Seq<Seq<char>>,
    rest: Seq<char>,
)
    requires
        text::lines(input) == seq![header] + body + text::lines(rest),
        is_header(header),
        all_body(body),
        text::lines(rest).len() > 0 ==> !is_body(text::lines(rest)[0]),
    ensures
        unified_diff::parsed(input) == seq![
            ItemView::Hunk(unified_diff::hunk_of(header, raw_rows(body))),
        ] + unified_diff::parsed(rest),
{
    let start = unified_diff::parse_start();
    let lines = seq![header] + body;
    let below = text::lines(rest);
    let hunk = ItemView::Hunk(unified_diff::hunk_of(header, raw_rows(body)));
    lemma_run_is_parse(text::lines(input));
    lemma_run_add(start, lines, below);
    lemma_open_hunk(header, body);
    let open = run(start, lines);
    assert(open.closed().items =~= seq![hunk] + start.items);
    assert(open.closed() == behind(seq![hunk], start));
    lemma_parsed_behind(seq![hunk], rest);
    if below.len() == 0 {
        assert(run(open, below) == open);
        assert(run(open.closed(), below) == open.closed());
        assert(open.closed().closed().items =~= open.closed().items);
    } else {
        let one = seq![below[0]];
        let others = below.skip(1);
        assert(below =~= one + others);
        lemma_run_add(open, one, others);
        lemma_run_add(open.closed(), one, others);
        assert(one.drop_last() =~= Seq::<Seq<char>>::empty());
        assert(run(open, one.drop_last()) == open);
        assert(run(open.closed(), one.drop_last()) == open.closed());
        assert(open.closed().closed() == open.closed());
        assert(open.after(below[0]) == open.closed().after(below[0]));
    }
}

/// A hunk is its header and all lines below it that start with a blank, a minus
/// sign, a plus sign or a backslash, however short they are. Its left side is
/// made of the lines with a blank or a minus sign, its right side of those with
/// a blank or a plus sign, without that character and in their order; lines
/// with a backslash are remarks. The lines below the hunk are read as if it were
/// not there.
pub proof fn lemma_hunk_is_header_and_body(
    input: Seq<char>,
    header: Seq<char>,
    body: Seq<Seq<char>>,
    rest: Seq<char>,
)
    requires
        text::lines(input) == seq![header] + body + text::lines(rest),
        is_header(header),
        all_body(body),
        text::lines(rest).len() > 0 ==> !is_body(text::lines(rest)[0]),
    ensures
        unified_diff::parsed(input) == seq![ItemView::Hunk(first_hunk(input))]
            + unified_diff::parsed(rest),
        first_hunk(input).header == header,
        unified_diff::old_side(first_hunk(input).rows) == side(body, '-'),
        unified_diff::new_side(first_hunk(input).rows) == side(body, '+'),
        unified_diff::annotations(first_hunk(input).rows) == remarks(body),
{
    lemma_first_hunk(input, header, body, rest);
    lemma_raw_sides(body);
    unified_diff::lemma_rows_keep_sides(raw_rows(body));
}

/// A text without lines says nothing.
pub proof fn lemma_nothing_to_read(input: Seq<char>)
    requires
        text::lines(input).len() == 0,
    ensures
        unified_diff::parsed(input).len() == 0,
{
}

// ---------------------------------------------------------------------------
// Rows
// ---------------------------------------------------------------------------

spec fn rows_behind(rows: Seq<RowView>, state: RowsInProgress) -> RowsInProgress {
    RowsInProgress { rows: rows + state.rows, ..state }
}

proof fn lemma_rows_behind(head: Seq<RawRowView>, rows: Seq<RowView>, raw: Seq<RawRowView>)
    requires
        unified_diff::rows_in_progress(head) == (RowsInProgress {
            rows,
            deleted: Seq::empty(),
            inserted: Seq::empty(),
        }),
    ensures
        unified_diff::rows_in_progress(head + raw) == rows_behind(
            rows,
            unified_diff::rows_in_progress(raw),
        ),
    decreases raw.len(),
{
    let all = head + raw;
    if raw.len() == 0 {
        assert(all =~= head);
        assert(rows_behind(rows, unified_diff::rows_in_progress(raw)).rows =~= rows);
    } else {
        assert(all.drop_last() =~= head + raw.drop_last());
        assert(all.last() == raw.last());
        lemma_rows_behind(head, rows, raw.drop_last());
        let before = unified_diff::rows_in_progress(raw.drop_last());
        assert(rows_behind(rows, before).closed() =~= rows + before.closed());
        assert(unified_diff::rows_in_progress(all).rows =~= rows_behind(
            rows,
            unified_diff::rows_in_progress(raw),
        ).rows);
    }
}

proof fn lemma_rows_around(left: Seq<RawRowView>, one: RawRowView, right: Seq<RawRowView>)
    requires
        one is Context || one is Annotation,
    ensures
        unified_diff::rows_of(left + seq![one] + right) == unified_diff::rows_of(left) + seq![
            match one {
                RawRowView::Annotation(line) => RowView::Annotation(line),
                RawRowView::Context(line) | RawRowView::Delete(line) | RawRowView::Insert(line) =>
                RowView::Context(line),
            },
        ] + unified_diff::rows_of(right),
{
    let head = left + seq![one];
    let row = match one {
        RawRowView::Annotation(line) => RowView::Annotation(line),
        RawRowView::Context(line) | RawRowView::Delete(line) | RawRowView::Insert(line) =>
        RowView::Context(line),
    };
    assert(head.drop_last() =~= left);
    let rows = unified_diff::rows_of(left).push(row);
    assert(unified_diff::rows_in_progress(head).rows =~= rows);
    lemma_rows_behind(head, rows, right);
    assert(unified_diff::rows_of(head + right) =~= unified_diff::rows_of(left) + seq![row]
        + unified_diff::rows_of(right));
}

/// A line that did not change, and a remark, is a row of its own. It parts the
/// rows above it from those below: each are what they would be without the
/// others.
pub proof fn lemma_rows_are_parted(
    input: Seq<char>,
    above: Seq<char>,
    below: Seq<char>,
    header: Seq<char>,
    left: Seq<Seq<char>>,
    line: Seq<char>,
    right: Seq<Seq<char>>,
)
    requires
        is_header(header),
        all_body(left),
        all_body(right),
        is_body(line),
        line[0] == ' ' || line[0] == '\\',
        text::lines(input) == seq![header] + left + seq![line] + right,
        text::lines(above) == seq![header] + left,
        text::lines(below) == seq![header] + right,
    ensures
        first_hunk(input).rows == first_hunk(above).rows + seq![
            if line[0] == ' ' {
                RowView::Context(line.drop_first())
            } else {
                RowView::Annotation(line)
            },
        ] + first_hunk(below).rows,
{
    let body = left + seq![line] + right;
    let none = Seq::<char>::empty();
    assert(text::lines(none) =~= Seq::<Seq<char>>::empty());
    assert forall|i: int| 0 <= i < body.len() implies is_body(#[trigger] body[i]) by {
        if i < left.len() {
            assert(body[i] == left[i]);
        } else if i > left.len() {
            assert(body[i] == right[i - left.len() - 1]);
        }
    }
    assert(text::lines(input) =~= seq![header] + body + text::lines(none));
    assert(text::lines(above) =~= seq![header] + left + text::lines(none));
    assert(text::lines(below) =~= seq![header] + right + text::lines(none));
    lemma_first_hunk(input, header, body, none);
    lemma_first_hunk(above, header, left, none);
    lemma_first_hunk(below, header, right, none);
    let one = raw_rows(seq![line])[0];
    assert(raw_rows(body) =~= raw_rows(left) + seq![one] + raw_rows(right));
    lemma_rows_around(raw_rows(left), one, raw_rows(right));
}

proof fn lemma_block_in_progress(body: Seq<Seq<char>>)
    requires
        forall|i: int|
            0 <= i < body.len() ==> (#[trigger] body[i]).len() >= 1 && (body[i][0] == '-'
                || body[i][0] == '+'),
    ensures
        unified_diff::rows_in_progress(raw_rows(body)) == (RowsInProgress {
            rows: Seq::empty(),
            deleted: signed(body, '-'),
            inserted: signed(body, '+'),
        }),
    decreases body.len(),
{
    if body.len() > 0 {
        let fewer = body.drop_last();
        assert forall|i: int| 0 <= i < fewer.len() implies (#[trigger] fewer[i]).len() >= 1 && (
        fewer[i][0] == '-' || fewer[i][0] == '+') by {
            assert(fewer[i] == body[i]);
        }
        assert(body[body.len() - 1].len() >= 1);
        lemma_block_in_progress(fewer);
        assert(raw_rows(body).drop_last() =~= raw_rows(fewer));
    }
}

/// Lines that are gone and lines that are new, with nothing else between them,
/// stand side by side: the first that is gone beside the first that is new, and
/// so on. What is left over of the longer side stands alone.
pub proof fn lemma_changes_stand_side_by_side(
    input: Seq<char>,
    header: Seq<char>,
    body: Seq<Seq<char>>,
)
    requires
        is_header(header),
        text::lines(input) == seq![header] + body,
        forall|i: int|
            0 <= i < body.len() ==> (#[trigger] body[i]).len() >= 1 && (body[i][0] == '-'
                || body[i][0] == '+'),
    ensures
        ({
            let rows = first_hunk(input).rows;
            let gone = signed(body, '-');
            let new = signed(body, '+');
            &&& rows.len() == if gone.len() >= new.len() {
                gone.len()
            } else {
                new.len()
            }
            &&& forall|i: int|
                0 <= i < rows.len() ==> #[trigger] rows[i] == if i >= gone.len() {
                    RowView::Insert(new[i])
                } else if i >= new.len() {
                    RowView::Delete(gone[i])
                } else {
                    RowView::Change { old: gone[i], new: new[i] }
                }
        }),
{
    let none = Seq::<char>::empty();
    assert(text::lines(none) =~= Seq::<Seq<char>>::empty());
    assert forall|i: int| 0 <= i < body.len() implies is_body(#[trigger] body[i]) by {
        assert(body[i].len() >= 1);
    }
    assert(text::lines(input) =~= seq![header] + body + text::lines(none));
    lemma_first_hunk(input, header, body, none);
    lemma_block_in_progress(body);
}

// ---------------------------------------------------------------------------
// Numbers of a hunk
// ---------------------------------------------------------------------------

/// The numbers of one side in a hunk header: the first line and the number of
/// lines, which may be left out where it is one.
pub open spec fn is_range(part: Seq<char>, start: nat, count: nat) -> bool {
    ||| part == text::decimal(start) + seq![','] + text::decimal(count)
    ||| part == text::decimal(start) && count == 1
}

proof fn lemma_no_digit(number: nat, ch: char)
    requires
        !text::is_digit(ch),
        number <= usize::MAX,
    ensures
        text::without(text::decimal(number), ch),
{
    paint_laws::lemma_decimal_reads_back(number, usize::MAX as nat);
    let digits = text::decimal(number);
    assert forall|i: int| 0 <= i < digits.len() implies #[trigger] digits[i] != ch by {
        assert(text::is_digit(digits[i]));
    }
}

proof fn lemma_range(part: Seq<char>, sign: char, start: nat, count: nat)
    requires
        is_range(part, start, count),
        start <= usize::MAX,
        count <= usize::MAX,
    ensures
        unified_diff::range_of(seq![sign] + part, sign) == Some((start, count)),
        text::without(part, ' '),
{
    let whole = seq![sign] + part;
    let first = text::decimal(start);
    let second = text::decimal(count);
    assert(whole.drop_first() =~= part);
    paint_laws::lemma_decimal_reads_back(start, usize::MAX as nat);
    paint_laws::lemma_decimal_reads_back(count, usize::MAX as nat);
    lemma_no_digit(start, ',');
    lemma_no_digit(start, ' ');
    lemma_no_digit(count, ' ');
    if part == first + seq![','] + second {
        paint_laws::lemma_find_behind(first, ',', second);
        assert(part.take(first.len() as int) =~= first);
        assert(part.skip(first.len() as int + 1) =~= second);
        assert forall|i: int| 0 <= i < part.len() implies #[trigger] part[i] != ' ' by {
            if i < first.len() {
                assert(part[i] == first[i]);
            } else if i > first.len() {
                assert(part[i] == second[i - first.len() - 1]);
            }
        }
    } else {
        text::lemma_find_char(part, ',');
        assert(part.take(part.len() as int) =~= part);
    }
}

proof fn lemma_split_first(part: Seq<char>, rest: Seq<char>)
    requires
        text::without(part, ' '),
    ensures
        text::split(part + seq![' '] + rest, ' ') == seq![part] + text::split(rest, ' '),
        text::split(part, ' ') == seq![part],
{
    let whole = part + seq![' '] + rest;
    paint_laws::lemma_find_behind(part, ' ', rest);
    assert(whole.take(part.len() as int) =~= part);
    assert(whole.skip(part.len() as int + 1) =~= rest);
    text::lemma_find_char(part, ' ');
}

/// A hunk starts at the lines that its header says, and has as many lines on
/// the right as it says, as in `@@ -1,2 +3,4 @@ text`.
#[verifier::rlimit(40)]
pub proof fn lemma_hunk_has_its_numbers(
    input: Seq<char>,
    header: Seq<char>,
    old_range: Seq<char>,
    new_range: Seq<char>,
    tail: Seq<char>,
    old_start: nat,
    old_len: nat,
    new_start: nat,
    new_len: nat,
)
    requires
        text::lines(input).len() > 0,
        text::lines(input)[0] == header,
        header == seq!['@', '@', ' ', '-'] + old_range + seq![' ', '+'] + new_range + seq![
            ' ',
            '@',
            '@',
        ] + tail,
        tail.len() == 0 || tail[0] == ' ',
        is_range(old_range, old_start, old_len),
        is_range(new_range, new_start, new_len),
        old_start <= usize::MAX,
        old_len <= usize::MAX,
        new_start <= usize::MAX,
        new_len <= usize::MAX,
    ensures
        unified_diff::parsed(input).len() > 0,
        unified_diff::parsed(input)[0] is Hunk,
        first_hunk(input).old_start == old_start,
        first_hunk(input).new_start == new_start,
        first_hunk(input).new_len == new_len,
{
    lemma_header_text(old_range, new_range, tail);
    let below = text::lines(input).skip(1);
    assert(text::lines(input) =~= seq![header] + below);
    lemma_written_numbers(
        old_range,
        new_range,
        tail,
        old_start,
        old_len,
        new_start,
        new_len,
    );
    lemma_header_opens_hunk(input, below, header);
}

#[verifier::rlimit(40)]
proof fn lemma_written_numbers(
    old_range: Seq<char>,
    new_range: Seq<char>,
    tail: Seq<char>,
    old_start: nat,
    old_len: nat,
    new_start: nat,
    new_len: nat,
)
    requires
        tail.len() == 0 || tail[0] == ' ',
        is_range(old_range, old_start, old_len),
        is_range(new_range, new_start, new_len),
        old_start <= usize::MAX,
        old_len <= usize::MAX,
        new_start <= usize::MAX,
        new_len <= usize::MAX,
    ensures
        unified_diff::hunk_numbers(
            header_of(seq!['-'] + old_range, seq!['+'] + new_range, tail),
        ) == Some((old_start, new_start, new_len)),
{
    let old_part = seq!['-'] + old_range;
    let new_part = seq!['+'] + new_range;
    lemma_range(old_range, '-', old_start, old_len);
    lemma_range(new_range, '+', new_start, new_len);
    lemma_sign_is_no_blank('-', old_range);
    lemma_sign_is_no_blank('+', new_range);
    let header = header_of(old_part, new_part, tail);
    lemma_header_words(header, old_part, new_part, tail);
    lemma_numbers_of_words(header, old_part, new_part);
}

proof fn lemma_sign_is_no_blank(sign: char, range: Seq<char>)
    requires
        sign != ' ',
        text::without(range, ' '),
    ensures
        text::without(seq![sign] + range, ' '),
{
    let part = seq![sign] + range;
    assert forall|i: int| 0 <= i < part.len() implies #[trigger] part[i] != ' ' by {
        if i > 0 {
            assert(part[i] == range[i - 1]);
        }
    }
}

spec fn header_of(old_part: Seq<char>, new_part: Seq<char>, tail: Seq<char>) -> Seq<char> {
    let mark = seq!['@', '@'];
    mark + seq![' '] + (old_part + seq![' '] + (new_part + seq![' '] + (mark + tail)))
}

#[verifier::rlimit(40)]
proof fn lemma_header_text(old_range: Seq<char>, new_range: Seq<char>, tail: Seq<char>)
    ensures
        seq!['@', '@', ' ', '-'] + old_range + seq![' ', '+'] + new_range + seq![' ', '@', '@']
            + tail == header_of(seq!['-'] + old_range, seq!['+'] + new_range, tail),
        is_header(header_of(seq!['-'] + old_range, seq!['+'] + new_range, tail)),
{
    let mark = seq!['@', '@'];
    let new_part = seq!['+'] + new_range;
    let first = seq!['@', '@', ' ', '-'] + old_range;
    let last = mark + tail;
    assert(first =~= mark + seq![' '] + (seq!['-'] + old_range));
    assert(seq![' ', '+'] + new_range =~= seq![' '] + new_part);
    assert(seq![' ', '@', '@'] + tail =~= seq![' '] + last);
    assert(first + seq![' ', '+'] + new_range + seq![' ', '@', '@'] + tail =~= first + (seq![
        ' ',
        '+',
    ] + new_range) + (seq![' ', '@', '@'] + tail));
    assert(first + (seq![' '] + new_part) + (seq![' '] + last) =~= mark + seq![' '] + ((seq!['-']
        + old_range) + seq![' '] + (new_part + seq![' '] + last)));
}

#[verifier::rlimit(40)]
proof fn lemma_header_words(
    header: Seq<char>,
    old_part: Seq<char>,
    new_part: Seq<char>,
    tail: Seq<char>,
)
    requires
        header == header_of(old_part, new_part, tail),
        tail.len() == 0 || tail[0] == ' ',
        text::without(old_part, ' '),
        text::without(new_part, ' '),
    ensures
        ({
            let words = text::split(header, ' ');
            &&& words.len() >= 4
            &&& words[0] == seq!['@', '@']
            &&& words[1] == old_part
            &&& words[2] == new_part
            &&& words[3] == seq!['@', '@']
        }),
{
    let mark = seq!['@', '@'];
    let last = mark + tail;
    let third = new_part + seq![' '] + last;
    let second = old_part + seq![' '] + third;
    lemma_split_first(mark, second);
    lemma_split_first(old_part, third);
    lemma_split_first(new_part, last);
    if tail.len() == 0 {
        assert(last =~= mark);
        lemma_split_first(mark, Seq::empty());
    } else {
        assert(last =~= mark + seq![' '] + tail.skip(1));
        lemma_split_first(mark, tail.skip(1));
    }
    assert(text::split(last, ' ')[0] == mark);
    assert(text::split(third, ' ') =~= seq![new_part] + text::split(last, ' '));
    assert(text::split(second, ' ') =~= seq![old_part] + text::split(third, ' '));
}

proof fn lemma_numbers_of_words(header: Seq<char>, old_part: Seq<char>, new_part: Seq<char>)
    requires
        ({
            let words = text::split(header, ' ');
            &&& words.len() >= 4
            &&& words[0] == seq!['@', '@']
            &&& words[1] == old_part
            &&& words[2] == new_part
            &&& words[3] == seq!['@', '@']
        }),
        unified_diff::range_of(old_part, '-') is Some,
        unified_diff::range_of(new_part, '+') is Some,
    ensures
        unified_diff::hunk_numbers(header) == Some(
            (
                (unified_diff::range_of(old_part, '-')->0).0,
                (unified_diff::range_of(new_part, '+')->0).0,
                (unified_diff::range_of(new_part, '+')->0).1,
            ),
        ),
{
    reveal_strlit("@@");
    assert("@@"@ =~= seq!['@', '@']);
}

spec fn opened_by(item: ItemView, header: Seq<char>) -> bool {
    exists|raw: Seq<RawRowView>|
        item == ItemView::Hunk(#[trigger] unified_diff::hunk_of(header, raw))
}

proof fn lemma_header_opens_hunk(input: Seq<char>, below: Seq<Seq<char>>, header: Seq<char>)
    requires
        text::lines(input) == seq![header] + below,
        is_header(header),
    ensures
        unified_diff::parsed(input).len() > 0,
        opened_by(unified_diff::parsed(input)[0], header),
{
    let start = unified_diff::parse_start();
    lemma_run_is_parse(text::lines(input));
    lemma_first_stays(header, below);
    let end = run(start, text::lines(input));
    if end.items.len() == 0 {
        assert(end.closed().items[0] == ItemView::Hunk(unified_diff::hunk_of(header, end.raw)));
    } else {
        assert(end.closed().items[0] == end.items[0]);
    }
}

proof fn lemma_first_stays(header: Seq<char>, below: Seq<Seq<char>>)
    requires
        is_header(header),
    ensures
        ({
            let end = run(unified_diff::parse_start(), seq![header] + below);
            &&& end.items.len() == 0 ==> end.header == Some(header)
            &&& end.items.len() > 0 ==> opened_by(end.items[0], header)
        }),
    decreases below.len(),
{
    let start = unified_diff::parse_start();
    let lines = seq![header] + below;
    if below.len() == 0 {
        assert(lines.drop_last() =~= Seq::<Seq<char>>::empty());
        assert(run(start, lines.drop_last()) == start);
    } else {
        assert(lines.drop_last() =~= seq![header] + below.drop_last());
        lemma_first_stays(header, below.drop_last());
        let before = run(start, lines.drop_last());
        let after = before.after(lines.last());
        assert(run(start, lines) == after);
        if before.items.len() == 0 {
            if after.items.len() > 0 {
                assert(after.items[0] == ItemView::Hunk(
                    unified_diff::hunk_of(header, before.raw),
                ));
            }
        } else {
            assert(after.items[0] == before.items[0]);
        }
    }
}

/// A header that does not state its numbers has none: one that does not start
/// with two signs and a blank, and one that has no second pair of signs.
pub proof fn lemma_hunk_without_numbers(input: Seq<char>, header: Seq<char>)
    requires
        text::lines(input).len() > 0,
        text::lines(input)[0] == header,
        is_header(header),
        (header.len() > 2 && header[2] != ' ') || !text::contains(header.skip(2), seq!['@', '@']),
    ensures
        unified_diff::parsed(input).len() > 0,
        unified_diff::parsed(input)[0] is Hunk,
        first_hunk(input).old_start == 0,
        first_hunk(input).new_start == 0,
        first_hunk(input).new_len == 0,
{
    if unified_diff::hunk_numbers(header) is Some {
        lemma_numbers_need_marks(header);
    }
    assert(text::lines(input) =~= seq![header] + text::lines(input).skip(1));
    lemma_header_opens_hunk(input, text::lines(input).skip(1), header);
}

#[verifier::rlimit(40)]
proof fn lemma_numbers_need_marks(header: Seq<char>)
    requires
        unified_diff::hunk_numbers(header) is Some,
    ensures
        header.len() > 2 && header[2] == ' ',
        text::contains(header.skip(2), seq!['@', '@']),
{
    let words = text::split(header, ' ');
    let mark = seq!['@', '@'];
    reveal_strlit("@@");
    assert("@@"@ =~= mark);
    lemma_text_of_words(header);
    let tail = text::join(words.skip(1), seq![' ']);
    let other = text::join(words.skip(2), seq![' ']);
    let last = text::join(words.skip(3), seq![' ']);
    lemma_join_starts(words.skip(3));
    assert(header =~= mark + (seq![' '] + tail));
    assert(header[2] == ' ');
    let after = last.skip(2);
    assert(last =~= mark + after);
    let before = seq![' '] + words[1] + seq![' '] + words[2] + seq![' '];
    assert(header.skip(2) =~= seq![' '] + tail);
    assert(tail == words[1] + seq![' '] + other);
    assert(other == words[2] + seq![' '] + last);
    assert(seq![' '] + tail =~= before + last);
    assert(before + last =~= before + mark + after);
    text_laws::lemma_middle_is_contained(before, mark, after);
}

proof fn lemma_text_of_words(header: Seq<char>)
    requires
        text::split(header, ' ').len() >= 4,
    ensures
        ({
            let words = text::split(header, ' ');
            &&& header == words[0] + seq![' '] + text::join(words.skip(1), seq![' '])
            &&& text::join(words.skip(1), seq![' ']) == words[1] + seq![' '] + text::join(
                words.skip(2),
                seq![' '],
            )
            &&& text::join(words.skip(2), seq![' ']) == words[2] + seq![' '] + text::join(
                words.skip(3),
                seq![' '],
            )
        }),
{
    let words = text::split(header, ' ');
    text_laws::lemma_split_parts(header, ' ');
    assert(words =~= seq![words[0]] + words.skip(1));
    assert(words.skip(1) =~= seq![words[1]] + words.skip(2));
    assert(words.skip(2) =~= seq![words[2]] + words.skip(3));
    text_laws::lemma_joined(words[0], words.skip(1), seq![' ']);
    text_laws::lemma_joined(words[1], words.skip(2), seq![' ']);
    text_laws::lemma_joined(words[2], words.skip(3), seq![' ']);
}

proof fn lemma_join_starts(parts: Seq<Seq<char>>)
    requires
        parts.len() > 0,
    ensures
        text::join(parts, seq![' ']).len() >= parts[0].len(),
        text::join(parts, seq![' ']).take(parts[0].len() as int) == parts[0],
{
    let rest = parts.skip(1);
    assert(parts =~= seq![parts[0]] + rest);
    text_laws::lemma_joined(parts[0], rest, seq![' ']);
    assert(text::join(parts, seq![' ']).take(parts[0].len() as int) =~= parts[0]);
}

// ---------------------------------------------------------------------------
// Filtering
// ---------------------------------------------------------------------------

/// Whether no file starts among `items`.
pub open spec fn no_headers(items: Seq<ItemView>) -> bool {
    forall|i: int| 0 <= i < items.len() ==> !(#[trigger] items[i] is FileHeader)
}

proof fn lemma_path_of_section(head: Seq<ItemView>, section: Seq<ItemView>)
    requires
        no_headers(section),
    ensures
        unified_diff::section_path(head + section) == unified_diff::section_path(head),
    decreases section.len(),
{
    let all = head + section;
    if section.len() == 0 {
        assert(all =~= head);
    } else {
        let fewer = section.drop_last();
        assert forall|i: int| 0 <= i < fewer.len() implies !(#[trigger] fewer[i] is FileHeader) by {
            assert(fewer[i] == section[i]);
        }
        assert(all.drop_last() =~= head + fewer);
        assert(!(section[section.len() - 1] is FileHeader));
        lemma_path_of_section(head, fewer);
    }
}

proof fn lemma_filtered_section(head: Seq<ItemView>, section: Seq<ItemView>, query: Seq<char>)
    requires
        no_headers(section),
    ensures
        unified_diff::filtered(head + section, query) == unified_diff::filtered(head, query) + if (
        text::contains(unified_diff::section_path(head), query)) {
            section
        } else {
            Seq::empty()
        },
    decreases section.len(),
{
    let all = head + section;
    let kept = text::contains(unified_diff::section_path(head), query);
    if section.len() == 0 {
        assert(all =~= head);
        assert(unified_diff::filtered(head, query) + section =~= unified_diff::filtered(
            head,
            query,
        ));
    } else {
        let fewer = section.drop_last();
        assert forall|i: int| 0 <= i < fewer.len() implies !(#[trigger] fewer[i] is FileHeader) by {
            assert(fewer[i] == section[i]);
        }
        assert(all.drop_last() =~= head + fewer);
        lemma_filtered_section(head, fewer, query);
        lemma_path_of_section(head, section);
        if kept {
            assert(unified_diff::filtered(all, query) =~= unified_diff::filtered(head, query)
                + section);
        } else {
            assert(unified_diff::filtered(all, query) =~= unified_diff::filtered(head, query)
                + Seq::<ItemView>::empty());
        }
    }
}

proof fn lemma_filtered_behind(head: Seq<ItemView>, files: Seq<ItemView>, query: Seq<char>)
    requires
        files.len() == 0 || files[0] is FileHeader,
    ensures
        unified_diff::filtered(head + files, query) == unified_diff::filtered(head, query)
            + unified_diff::filtered(files, query),
        files.len() > 0 ==> unified_diff::section_path(head + files)
            == unified_diff::section_path(files),
    decreases files.len(),
{
    let all = head + files;
    if files.len() == 0 {
        assert(all =~= head);
        assert(unified_diff::filtered(head, query) + unified_diff::filtered(files, query)
            =~= unified_diff::filtered(head, query));
    } else {
        let fewer = files.drop_last();
        assert(all.drop_last() =~= head + fewer);
        assert(fewer.len() > 0 ==> fewer[0] == files[0]);
        lemma_filtered_behind(head, fewer, query);
        assert(unified_diff::filtered(all, query) =~= unified_diff::filtered(head, query)
            + unified_diff::filtered(files, query));
    }
}

/// A filter keeps files whole or not at all: a file whose path contains the
/// query keeps its header and everything up to the next file, any other file
/// loses both. The files before and behind it are filtered as if it were not
/// there.
pub proof fn lemma_filter_keeps_files_whole(
    before: Seq<ItemView>,
    path: Seq<char>,
    section: Seq<ItemView>,
    files: Seq<ItemView>,
    query: Seq<char>,
)
    requires
        no_headers(section),
        files.len() == 0 || files[0] is FileHeader,
    ensures
        unified_diff::filtered(
            before + seq![ItemView::FileHeader(path)] + section + files,
            query,
        ) == unified_diff::filtered(before, query) + (if text::contains(path, query) {
            seq![ItemView::FileHeader(path)] + section
        } else {
            Seq::empty()
        }) + unified_diff::filtered(files, query),
{
    let header = seq![ItemView::FileHeader(path)];
    let head = before + header;
    lemma_filtered_behind(head + section, files, query);
    lemma_filtered_section(head, section, query);
    assert(head.drop_last() =~= before);
    assert(head.last() == ItemView::FileHeader(path));
    assert(unified_diff::section_path(head) == path);
    if text::contains(path, query) {
        assert(unified_diff::filtered(head + section, query) =~= unified_diff::filtered(
            before,
            query,
        ) + (header + section));
    } else {
        assert(unified_diff::filtered(head + section, query) =~= unified_diff::filtered(
            before,
            query,
        ) + Seq::<ItemView>::empty());
    }
}

/// What stands before the first file has no path: only an empty query keeps it.
pub proof fn lemma_filter_before_first_file(section: Seq<ItemView>, query: Seq<char>)
    requires
        no_headers(section),
    ensures
        unified_diff::filtered(section, query) == if query.len() == 0 {
            section
        } else {
            Seq::empty()
        },
{
    let none = Seq::<ItemView>::empty();
    assert(none + section =~= section);
    lemma_filtered_section(none, section, query);
    let path = Seq::<char>::empty();
    if query.len() == 0 {
        assert(path.subrange(0, 0) =~= query);
        assert(text::occurs_at(path, 0, query));
        assert(text::contains(path, query));
        assert(unified_diff::filtered(none, query) + section =~= section);
    } else {
        assert(!text::contains(path, query));
        assert(unified_diff::filtered(none, query) + none =~= none);
    }
}

/// The list of files is filtered path by path: each stays if it contains the
/// query, in its place, whatever the others are.
pub proof fn lemma_paths_are_filtered_one_by_one(
    before: Seq<Seq<char>>,
    path: Seq<char>,
    behind: Seq<Seq<char>>,
    query: Seq<char>,
)
    ensures
        unified_diff::matching(before + seq![path] + behind, query) == unified_diff::matching(
            before,
            query,
        ) + (if text::contains(path, query) {
            seq![path]
        } else {
            Seq::empty()
        }) + unified_diff::matching(behind, query),
    decreases behind.len(),
{
    let all = before + seq![path] + behind;
    let none = Seq::<Seq<char>>::empty();
    if behind.len() == 0 {
        assert(all.drop_last() =~= before);
        assert(all.last() == path);
        assert(unified_diff::matching(behind, query) =~= none);
        if text::contains(path, query) {
            assert(unified_diff::matching(all, query) =~= unified_diff::matching(before, query)
                + seq![path] + none);
        } else {
            assert(unified_diff::matching(all, query) =~= unified_diff::matching(before, query)
                + none + none);
        }
    } else {
        assert(all.drop_last() =~= before + seq![path] + behind.drop_last());
        assert(all.last() == behind.last());
        lemma_paths_are_filtered_one_by_one(before, path, behind.drop_last(), query);
        let middle = if text::contains(path, query) {
            seq![path]
        } else {
            none
        };
        assert(unified_diff::matching(all, query) =~= unified_diff::matching(before, query)
            + middle + unified_diff::matching(behind, query));
    }
}

// ---------------------------------------------------------------------------
// File headers
// ---------------------------------------------------------------------------

/// Lines outside hunks as items.
pub open spec fn metas(lines: Seq<Seq<char>>) -> Seq<ItemView> {
    Seq::new(lines.len(), |i: int| ItemView::Meta(lines[i]))
}

/// Whether `line` is the command line that Git puts above a file.
pub open spec fn is_command(line: Seq<char>) -> bool {
    line.len() >= 5 && line.take(5) == seq!['d', 'i', 'f', 'f', ' ']
}

/// Whether nothing above `items` can announce a file below them: they end in a
/// hunk or in a file header, or there are none.
pub open spec fn is_settled(items: Seq<ItemView>) -> bool {
    items.len() == 0 || !(items.last() is Meta)
}

proof fn lemma_command(line: Seq<char>)
    ensures
        unified_diff::starts_with(line, "diff "@) == is_command(line),
{
    reveal_strlit("diff ");
    assert("diff "@ =~= seq!['d', 'i', 'f', 'f', ' ']);
    if line.len() >= 5 {
        assert(line.subrange(0, 5) =~= line.take(5));
    }
}

proof fn lemma_settled_state(items: Seq<ItemView>)
    requires
        is_settled(items),
    ensures
        unified_diff::header_state(items).pending.len() == 0,
        unified_diff::header_state(items).items == unified_diff::with_headers(items),
{
    let state = unified_diff::header_state(items);
    assert(state.closed() =~= state.items);
}

proof fn lemma_headers_behind(head: Seq<ItemView>, items: Seq<ItemView>)
    requires
        is_settled(head),
    ensures
        unified_diff::header_state(head + items) == (unified_diff::HeaderState {
            items: unified_diff::with_headers(head) + unified_diff::header_state(items).items,
            pending: unified_diff::header_state(items).pending,
        }),
    decreases items.len(),
{
    let all = head + items;
    let above = unified_diff::with_headers(head);
    if items.len() == 0 {
        assert(all =~= head);
        lemma_settled_state(head);
        assert(above + unified_diff::header_state(items).items =~= above);
        assert(unified_diff::header_state(head).pending =~= Seq::<Seq<char>>::empty());
    } else {
        assert(all.drop_last() =~= head + items.drop_last());
        assert(all.last() == items.last());
        lemma_headers_behind(head, items.drop_last());
        let before = unified_diff::header_state(items.drop_last());
        let moved = unified_diff::header_state(all.drop_last());
        assert(moved.closed() =~= above + before.closed());
        assert(unified_diff::header_state(all).items =~= above + unified_diff::header_state(
            items,
        ).items);
    }
}

/// Behind a hunk or a file header everything starts anew: what follows is read
/// as if nothing stood above it.
pub proof fn lemma_headers_are_read_in_parts(above: Seq<ItemView>, below: Seq<ItemView>)
    requires
        is_settled(above),
    ensures
        unified_diff::with_headers(above + below) == unified_diff::with_headers(above)
            + unified_diff::with_headers(below),
{
    lemma_headers_behind(above, below);
    let state = unified_diff::header_state(below);
    assert(unified_diff::with_headers(above + below) =~= unified_diff::with_headers(above)
        + state.closed());
}

proof fn lemma_pending_lines(lines: Seq<Seq<char>>)
    requires
        forall|i: int| 1 <= i < lines.len() ==> !is_command(#[trigger] lines[i]),
    ensures
        unified_diff::header_state(metas(lines)).items.len() == 0,
        unified_diff::header_state(metas(lines)).pending == lines,
    decreases lines.len(),
{
    let items = metas(lines);
    if lines.len() > 0 {
        let fewer = lines.drop_last();
        assert(items.drop_last() =~= metas(fewer));
        assert forall|i: int| 1 <= i < fewer.len() implies !is_command(#[trigger] fewer[i]) by {
            assert(fewer[i] == lines[i]);
        }
        lemma_pending_lines(fewer);
        lemma_command(lines.last());
        let before = unified_diff::header_state(metas(fewer));
        assert(items.last() == ItemView::Meta(lines.last()));
        if lines.len() == 1 {
            assert(before.closed() =~= Seq::<ItemView>::empty());
            assert(fewer =~= Seq::<Seq<char>>::empty());
            assert(unified_diff::header_state(items).pending =~= lines);
        } else {
            assert(!is_command(lines[lines.len() - 1]));
            assert(unified_diff::header_state(items).pending =~= lines);
        }
    } else {
        assert(unified_diff::header_state(items).pending =~= lines);
    }
}

/// Whether `lines` announce a file: they are no more than one command line at
/// their top, and they end in a line for the left side, `--- ` and `old_name`,
/// and one for the right side, `+++ ` and `new_name`.
pub open spec fn is_announcement(
    lines: Seq<Seq<char>>,
    old_name: Seq<char>,
    new_name: Seq<char>,
) -> bool {
    &&& lines.len() >= 2
    &&& lines[lines.len() - 2] == seq!['-', '-', '-', ' '] + old_name
    &&& lines[lines.len() - 1] == seq!['+', '+', '+', ' '] + new_name
    &&& forall|i: int| 1 <= i < lines.len() ==> !is_command(#[trigger] lines[i])
}

/// Whether `name` is `path` and `stamp`, and in front of them the letter
/// `prefix` and a slash, unless `path` starts without them.
pub open spec fn is_stamped_path(
    path: Seq<char>,
    stamp: Seq<char>,
    name: Seq<char>,
    prefix: char,
) -> bool {
    &&& text::without(path, '\t')
    &&& stamp.len() == 0 || stamp[0] == '\t'
    &&& name == seq![prefix, '/'] + path + stamp || (name == path + stamp && !(path.len() >= 2
        && path[0] == prefix && path[1] == '/'))
}

/// The path in a name that a diff gives one side of a file: all of it up to a
/// tab, without `a/` or `b/` in front of it, which `prefix` says.
pub open spec fn is_path_in(path: Seq<char>, name: Seq<char>, prefix: char) -> bool {
    exists|stamp: Seq<char>| is_stamped_path(path, stamp, name, prefix)
}

proof fn lemma_named_path(
    line: Seq<char>,
    signs: Seq<char>,
    name: Seq<char>,
    prefix: char,
    prefix_text: Seq<char>,
    path: Seq<char>,
)
    requires
        signs.len() == 4,
        line == signs + name,
        prefix != '\t',
        prefix_text == seq![prefix, '/'],
        is_path_in(path, name, prefix),
    ensures
        unified_diff::named_path(line, prefix_text) == path,
{
    assert(line.skip(4) =~= name);
    let stamp = choose|stamp: Seq<char>| is_stamped_path(path, stamp, name, prefix);
    let whole = if name == seq![prefix, '/'] + path + stamp {
        seq![prefix, '/'] + path
    } else {
        path
    };
    assert(name =~= whole + stamp);
    assert forall|i: int| 0 <= i < whole.len() implies #[trigger] whole[i] != '\t' by {
        if whole != path && i >= 2 {
            assert(whole[i] == path[i - 2]);
        }
    }
    if stamp.len() > 0 {
        assert(name =~= whole + seq!['\t'] + stamp.skip(1));
        paint_laws::lemma_find_behind(whole, '\t', stamp.skip(1));
    } else {
        assert(name =~= whole);
        text::lemma_find_char(name, '\t');
    }
    let found = name.take(text::find_char(name, '\t') as int);
    assert(found =~= whole);
    if name == seq![prefix, '/'] + path + stamp {
        assert(found.subrange(0, 2) =~= prefix_text);
        assert(found.skip(2) =~= path);
    } else {
        if unified_diff::starts_with(found, prefix_text) {
            assert(found.subrange(0, 2)[0] == prefix);
            assert(found.subrange(0, 2)[1] == '/');
            assert(found[0] == prefix && found[1] == '/');
        }
    }
}

/// The lines that announce a file give way to a header with its path, right
/// above the first hunk: the path on the right, or, where the right side says
/// that the file is gone, that on the left.
#[verifier::rlimit(40)]
pub proof fn lemma_announced_file_gets_header(
    above: Seq<ItemView>,
    lines: Seq<Seq<char>>,
    old_name: Seq<char>,
    new_name: Seq<char>,
    path: Seq<char>,
    hunk: HunkView,
    below: Seq<ItemView>,
)
    requires
        is_settled(above),
        is_announcement(lines, old_name, new_name),
        (is_path_in(path, new_name, 'b') && path != "/dev/null"@) || (is_path_in(
            path,
            old_name,
            'a',
        ) && is_path_in("/dev/null"@, new_name, 'b')),
    ensures
        unified_diff::with_headers(above + metas(lines) + seq![ItemView::Hunk(hunk)] + below)
            == unified_diff::with_headers(above) + seq![
            ItemView::FileHeader(path),
            ItemView::Hunk(hunk),
        ] + unified_diff::with_headers(below),
{
    let item = ItemView::Hunk(hunk);
    let part = metas(lines) + seq![item];
    assert(above + metas(lines) + seq![item] + below =~= above + (part + below));
    lemma_headers_are_read_in_parts(above, part + below);
    assert(part.last() == item);
    lemma_headers_are_read_in_parts(part, below);
    assert(part.drop_last() =~= metas(lines));
    lemma_pending_lines(lines);
    let state = unified_diff::header_state(metas(lines));
    let old_line = lines[lines.len() - 2];
    let new_line = lines[lines.len() - 1];
    lemma_announced(lines, old_name, new_name, path);
    assert(unified_diff::header_state(part) == state.after(item));
    let headed = seq![ItemView::FileHeader(path), item];
    assert(unified_diff::header_state(part).items =~= headed);
    assert(unified_diff::header_state(part).pending =~= Seq::<Seq<char>>::empty());
    assert(unified_diff::with_headers(part) =~= headed);
    let rest = unified_diff::with_headers(below);
    assert(unified_diff::with_headers(above) + (headed + rest) =~= unified_diff::with_headers(above)
        + headed + rest);
}

proof fn lemma_announced(
    lines: Seq<Seq<char>>,
    old_name: Seq<char>,
    new_name: Seq<char>,
    path: Seq<char>,
)
    requires
        is_announcement(lines, old_name, new_name),
        (is_path_in(path, new_name, 'b') && path != "/dev/null"@) || (is_path_in(
            path,
            old_name,
            'a',
        ) && is_path_in("/dev/null"@, new_name, 'b')),
    ensures
        unified_diff::announced_path(lines) == Some(path),
{
    let old_line = lines[lines.len() - 2];
    let new_line = lines[lines.len() - 1];
    let minus = seq!['-', '-', '-', ' '];
    let plus = seq!['+', '+', '+', ' '];
    reveal_strlit("--- ");
    reveal_strlit("+++ ");
    reveal_strlit("a/");
    reveal_strlit("b/");
    assert("--- "@ =~= minus);
    assert("+++ "@ =~= plus);
    assert("a/"@ =~= seq!['a', '/']);
    assert("b/"@ =~= seq!['b', '/']);
    assert(old_line.subrange(0, 4) =~= minus);
    assert(new_line.subrange(0, 4) =~= plus);
    if is_path_in(path, new_name, 'b') && path != "/dev/null"@ {
        lemma_named_path(new_line, plus, new_name, 'b', "b/"@, path);
    } else {
        lemma_named_path(new_line, plus, new_name, 'b', "b/"@, "/dev/null"@);
        lemma_named_path(old_line, minus, old_name, 'a', "a/"@, path);
    }
}

/// Lines that announce no file stay as they are: those above a hunk that do not
/// end in a line for each side, and those that no hunk follows.
pub proof fn lemma_other_lines_stay(above: Seq<ItemView>, lines: Seq<Seq<char>>, hunk: HunkView)
    requires
        is_settled(above),
        forall|i: int| 1 <= i < lines.len() ==> !is_command(#[trigger] lines[i]),
    ensures
        unified_diff::with_headers(above + metas(lines)) == unified_diff::with_headers(above)
            + metas(lines),
        lines.len() < 2 || lines.last().len() < 4 || lines.last().take(4) != seq![
            '+',
            '+',
            '+',
            ' ',
        ] || lines[lines.len() - 2].len() < 4 || lines[lines.len() - 2].take(4) != seq![
            '-',
            '-',
            '-',
            ' ',
        ] ==> unified_diff::with_headers(above + metas(lines) + seq![ItemView::Hunk(hunk)])
            == unified_diff::with_headers(above) + metas(lines) + seq![ItemView::Hunk(hunk)],
{
    let item = ItemView::Hunk(hunk);
    let part = metas(lines) + seq![item];
    lemma_headers_are_read_in_parts(above, metas(lines));
    lemma_pending_lines(lines);
    let state = unified_diff::header_state(metas(lines));
    assert(unified_diff::meta_items(lines) =~= metas(lines));
    assert(state.closed() =~= metas(lines));
    assert(above + metas(lines) + seq![item] =~= above + part);
    lemma_headers_are_read_in_parts(above, part);
    assert(part.drop_last() =~= metas(lines));
    assert(part.last() == item);
    assert(unified_diff::header_state(part) == state.after(item));
    reveal_strlit("--- ");
    reveal_strlit("+++ ");
    if lines.len() >= 2 && unified_diff::announced_path(lines) is Some {
        let old_line = lines[lines.len() - 2];
        let new_line = lines[lines.len() - 1];
        assert(old_line.subrange(0, 4) =~= old_line.take(4));
        assert(new_line.subrange(0, 4) =~= new_line.take(4));
        assert("--- "@ =~= seq!['-', '-', '-', ' ']);
        assert("+++ "@ =~= seq!['+', '+', '+', ' ']);
    } else {
        let whole = unified_diff::with_headers(part);
        assert(whole =~= metas(lines) + seq![item]);
        assert(unified_diff::with_headers(above) + whole =~= unified_diff::with_headers(above)
            + metas(lines) + seq![item]);
    }
}

/// The list of files has the path of each file header, in their order, and
/// nothing else.
pub proof fn lemma_files_are_headers(before: Seq<ItemView>, item: ItemView, behind: Seq<ItemView>)
    ensures
        unified_diff::header_paths(before + seq![item] + behind) == unified_diff::header_paths(
            before,
        ) + (match item {
            ItemView::FileHeader(path) => seq![path],
            _ => Seq::empty(),
        }) + unified_diff::header_paths(behind),
        unified_diff::header_paths(Seq::empty()) == Seq::<Seq<char>>::empty(),
    decreases behind.len(),
{
    let all = before + seq![item] + behind;
    let middle = match item {
        ItemView::FileHeader(path) => seq![path],
        _ => Seq::empty(),
    };
    if behind.len() == 0 {
        assert(all.drop_last() =~= before);
        assert(all.last() == item);
        assert(unified_diff::header_paths(all) =~= unified_diff::header_paths(before) + middle
            + unified_diff::header_paths(behind));
    } else {
        assert(all.drop_last() =~= before + seq![item] + behind.drop_last());
        assert(all.last() == behind.last());
        lemma_files_are_headers(before, item, behind.drop_last());
        assert(unified_diff::header_paths(all) =~= unified_diff::header_paths(before) + middle
            + unified_diff::header_paths(behind));
    }
}

} // verus!
