//! Finding text in what is shown.

use crate::text;
use crate::text::char_bytes;
use crate::text::char_list;
use crate::text::occurs;
use crate::text::text_bytes;
use vstd::prelude::*;

verus! {

broadcast use vstd::seq::group_seq_axioms;

/// A place at which the query was found: the line, and the bytes of it.
#[derive(Clone, Copy, Debug, Eq, PartialEq, Structural)]
pub struct SearchMatch {
    pub line: usize,
    pub start: usize,
    pub end: usize,
}

/// What a [`SearchMatch`] says.
pub struct MatchView {
    pub line: nat,
    pub start: nat,
    pub end: nat,
}

impl View for SearchMatch {
    type V = MatchView;

    open spec fn view(&self) -> MatchView {
        MatchView { line: self.line as nat, start: self.start as nat, end: self.end as nat }
    }
}

/// What a list of matches says.
pub open spec fn match_views(matches: Seq<SearchMatch>) -> Seq<MatchView> {
    matches.map_values(|found: SearchMatch| found@)
}

/// The match of `query` at position `at` of line `index`, as bytes of the
/// line.
pub open spec fn match_at(index: nat, line: Seq<char>, at: int, query: Seq<char>) -> MatchView {
    MatchView {
        line: index,
        start: text::byte_len(line.take(at)),
        end: text::byte_len(line.take(at)) + text::byte_len(query),
    }
}

/// The matches of `query` at the first `n` positions of line `index`.
pub open spec fn line_matches(
    index: nat,
    line: Seq<char>,
    query: Seq<char>,
    n: nat,
) -> Seq<MatchView>
    decreases n,
{
    if n == 0 {
        Seq::empty()
    } else {
        let before = line_matches(index, line, query, (n - 1) as nat);
        if text::occurs_at(line, n - 1, query) {
            before.push(match_at(index, line, n - 1, query))
        } else {
            before
        }
    }
}

/// The matches of `query`: every position of every line at which it stands,
/// from the first line to the last and from left to right. An empty query
/// has none.
pub open spec fn all_matches(list: Seq<Seq<char>>, query: Seq<char>) -> Seq<MatchView>
    decreases list.len(),
{
    if list.len() == 0 || query.len() == 0 {
        Seq::empty()
    } else {
        all_matches(list.drop_last(), query) + line_matches(
            (list.len() - 1) as nat,
            list.last(),
            query,
            list.last().len(),
        )
    }
}

proof fn lemma_match_bytes(line: Seq<char>, at: int, query: Seq<char>)
    requires
        text::occurs_at(line, at, query),
    ensures
        text::byte_len(line.take(at)) + text::byte_len(query) <= text::byte_len(line),
{
    text::lemma_byte_len_split(line, at);
    let rest = line.skip(at);
    text::lemma_byte_len_split(rest, query.len() as int);
    assert(rest.take(query.len() as int) =~= line.subrange(at, at + query.len()));
}

proof fn lemma_push_match(matches: Seq<SearchMatch>, found: SearchMatch)
    ensures
        match_views(matches.push(found)) == match_views(matches).push(found@),
{
    assert(match_views(matches.push(found)) =~= match_views(matches).push(found@));
}

/// Appends the matches in line `line_index`.
fn push_line_matches(
    matches: &mut Vec<SearchMatch>,
    line_index: usize,
    line: &str,
    query: &Vec<char>,
    query_bytes: usize,
)
    requires
        query_bytes == text::byte_len(query@),
    ensures
        match_views(final(matches)@) == match_views(old(matches)@) + line_matches(
            line_index as nat,
            line@,
            query@,
            line@.len(),
        ),
{
    let ghost before = match_views(matches@);
    let total = text_bytes(line);
    let chars = char_list(line);
    let mut start: usize = 0;
    let mut at: usize = 0;
    assert(chars@.take(0) =~= Seq::<char>::empty());
    assert(match_views(matches@) =~= before + line_matches(line_index as nat, line@, query@, 0));
    while at < chars.len()
        invariant
            at <= chars@.len(),
            chars@ == line@,
            total == text::byte_len(line@),
            query_bytes == text::byte_len(query@),
            start == text::byte_len(chars@.take(at as int)),
            match_views(matches@) == before + line_matches(
                line_index as nat,
                line@,
                query@,
                at as nat,
            ),
        decreases chars@.len() - at,
    {
        let ghost found_before = matches@;
        if occurs(&chars, at, query) {
            proof {
                lemma_match_bytes(line@, at as int, query@);
            }
            let found = SearchMatch { line: line_index, start, end: start + query_bytes };
            proof {
                lemma_push_match(matches@, found);
            }
            matches.push(found);
            assert(found@ == match_at(line_index as nat, line@, at as int, query@));
        }
        assert(match_views(matches@) =~= before + line_matches(
            line_index as nat,
            line@,
            query@,
            (at + 1) as nat,
        ));
        proof {
            lemma_byte_step(line@, at as int, chars@[at as int]);
        }
        start += char_bytes(chars[at]);
        at += 1;
    }
}

proof fn lemma_byte_step(line: Seq<char>, at: int, ch: char)
    requires
        0 <= at < line.len(),
        line[at] == ch,
    ensures
        text::byte_len(line.take(at + 1)) == text::byte_len(line.take(at)) + text::utf8_len(ch),
        text::byte_len(line.take(at + 1)) <= text::byte_len(line),
{
    let one = seq![ch];
    assert(line.take(at + 1) =~= line.take(at) + one);
    text::lemma_byte_len_add(line.take(at), one);
    assert(one.drop_first() =~= Seq::<char>::empty());
    assert(text::byte_len(one.drop_first()) == 0);
    text::lemma_byte_len_split(line, at + 1);
}

/// Finds every place of `lines` at which `query` stands.
pub fn find_matches(lines: &[String], query: &str) -> (matches: Vec<SearchMatch>)
    ensures
        match_views(matches@) == all_matches(text::texts(lines@), query@),
{
    let mut matches: Vec<SearchMatch> = Vec::new();
    let ghost list = text::texts(lines@);
    assert(match_views(matches@) =~= Seq::<MatchView>::empty());
    if query.is_empty() {
        return matches;
    }
    let query_chars = char_list(query);
    let query_bytes = text_bytes(query);
    let mut line_index: usize = 0;
    assert(list.take(0) =~= Seq::<Seq<char>>::empty());
    while line_index < lines.len()
        invariant
            line_index <= lines@.len(),
            list == text::texts(lines@),
            query@.len() > 0,
            query_chars@ == query@,
            query_bytes == text::byte_len(query@),
            match_views(matches@) == all_matches(list.take(line_index as int), query@),
        decreases lines@.len() - line_index,
    {
        let ghost next = list.take(line_index + 1);
        assert(next.drop_last() =~= list.take(line_index as int));
        assert(next.last() == lines@[line_index as int]@);
        push_line_matches(
            &mut matches,
            line_index,
            lines[line_index].as_str(),
            &query_chars,
            query_bytes,
        );
        line_index += 1;
    }
    assert(list.take(line_index as int) =~= list);
    matches
}

// ---------------------------------------------------------------------------
// Laws
// ---------------------------------------------------------------------------

/// Whether `found` is the match at some position of line `index`.
pub open spec fn is_match_in(found: MatchView, index: nat, line: Seq<char>, query: Seq<char>) -> bool {
    exists|at: int|
        0 <= at < line.len() && #[trigger] text::occurs_at(line, at, query) && found == match_at(
            index,
            line,
            at,
            query,
        )
}

pub proof fn lemma_line_matches(index: nat, line: Seq<char>, query: Seq<char>, n: nat)
    requires
        n <= line.len(),
    ensures
        forall|i: int|
            0 <= i < line_matches(index, line, query, n).len() ==> is_match_in(
                #[trigger] line_matches(index, line, query, n)[i],
                index,
                line,
                query,
            ),
        forall|at: int|
            0 <= at < n && #[trigger] text::occurs_at(line, at, query) ==> line_matches(
                index,
                line,
                query,
                n,
            ).contains(match_at(index, line, at, query)),
        forall|i: int|
            0 <= i < line_matches(index, line, query, n).len() ==> (#[trigger] line_matches(
                index,
                line,
                query,
                n,
            )[i]).start < text::byte_len(line.take(n as int)),
        forall|i: int, j: int|
            0 <= i < j < line_matches(index, line, query, n).len() ==> (#[trigger] line_matches(
                index,
                line,
                query,
                n,
            )[i]).start < (#[trigger] line_matches(index, line, query, n)[j]).start,
    decreases n,
{
    if n > 0 {
        let fewer = (n - 1) as nat;
        lemma_line_matches(index, line, query, fewer);
        lemma_byte_step(line, n - 1, line[n - 1]);
        let before = line_matches(index, line, query, fewer);
        let all = line_matches(index, line, query, n);
        let last = match_at(index, line, n - 1, query);
        assert forall|at: int|
            0 <= at < n && #[trigger] text::occurs_at(line, at, query) implies all.contains(
            match_at(index, line, at, query),
        ) by {
            if at < n - 1 {
                let k = choose|k: int|
                    0 <= k < before.len() && before[k] == match_at(index, line, at, query);
                assert(before.contains(match_at(index, line, at, query)));
                assert(all[k] == before[k]);
            } else {
                assert(all[before.len() as int] == last);
            }
        }
        assert forall|i: int| 0 <= i < all.len() implies is_match_in(
            #[trigger] all[i],
            index,
            line,
            query,
        ) && all[i].start < text::byte_len(line.take(n as int)) by {
            if i < before.len() {
                assert(all[i] == before[i]);
            } else {
                assert(text::occurs_at(line, n - 1, query));
                assert(all[i] == last);
            }
        }
        assert forall|i: int, j: int| 0 <= i < j < all.len() implies (#[trigger] all[i]).start < (
        #[trigger] all[j]).start by {
            assert(all[i] == before[i]);
            if j < before.len() {
                assert(all[j] == before[j]);
            } else {
                assert(all[j] == last);
            }
        }
    }
}

/// Searching finds all occurrences and nothing else: each match is an
/// occurrence of the query in the line that it names, and each occurrence,
/// also one that overlaps another, is a match. Matches are in the order in
/// which they stand in the text, and no two are the same.
pub proof fn lemma_matches_are_occurrences(list: Seq<Seq<char>>, query: Seq<char>)
    requires
        query.len() > 0,
    ensures
        forall|i: int|
            0 <= i < all_matches(list, query).len() ==> (#[trigger] all_matches(
                list,
                query,
            )[i]).line < list.len() && is_match_in(
                all_matches(list, query)[i],
                all_matches(list, query)[i].line,
                list[all_matches(list, query)[i].line as int],
                query,
            ),
        forall|index: int, at: int|
            0 <= index < list.len() && 0 <= at < list[index].len() && #[trigger] text::occurs_at(
                list[index],
                at,
                query,
            ) ==> all_matches(list, query).contains(
                match_at(index as nat, list[index], at, query),
            ),
        forall|i: int, j: int|
            #![trigger all_matches(list, query)[i], all_matches(list, query)[j]]
            0 <= i < j < all_matches(list, query).len() ==> {
                let left = all_matches(list, query)[i];
                let right = all_matches(list, query)[j];
                left.line < right.line || (left.line == right.line && left.start < right.start)
            },
    decreases list.len(),
{
    if list.len() > 0 {
        let fewer = list.drop_last();
        let last = (list.len() - 1) as nat;
        lemma_matches_are_occurrences(fewer, query);
        lemma_line_matches(last, list.last(), query, list.last().len());
        let before = all_matches(fewer, query);
        let added = line_matches(last, list.last(), query, list.last().len());
        let all = all_matches(list, query);
        assert forall|i: int| 0 <= i < all.len() implies (#[trigger] all[i]).line < list.len()
            && is_match_in(all[i], all[i].line, list[all[i].line as int], query) && (i
            < before.len() ==> all[i].line < last) && (i >= before.len() ==> all[i].line
            == last) by {
            if i < before.len() {
                assert(all[i] == before[i]);
                assert(fewer[before[i].line as int] == list[before[i].line as int]);
            } else {
                assert(all[i] == added[i - before.len()]);
            }
        }
        assert forall|index: int, at: int|
            0 <= index < list.len() && 0 <= at < list[index].len() && #[trigger] text::occurs_at(
                list[index],
                at,
                query,
            ) implies all.contains(match_at(index as nat, list[index], at, query)) by {
            let one = match_at(index as nat, list[index], at, query);
            if index < last {
                assert(fewer[index] == list[index]);
                assert(before.contains(one));
                let k = choose|k: int| 0 <= k < before.len() && before[k] == one;
                assert(all[k] == one);
            } else {
                assert(added.contains(one));
                let k = choose|k: int| 0 <= k < added.len() && added[k] == one;
                assert(all[before.len() + k] == one);
            }
        }
        assert forall|i: int, j: int|
            #![trigger all[i], all[j]]
            0 <= i < j < all.len() implies all[i].line < all[j].line || (all[i].line == all[j].line
            && all[i].start < all[j].start) by {
            if j < before.len() {
                assert(all[i] == before[i] && all[j] == before[j]);
            } else if i >= before.len() {
                assert(all[i] == added[i - before.len()]);
                assert(all[j] == added[j - before.len()]);
            }
        }
    }
}

/// A match is told by bytes: it starts behind the bytes of what stands before it
/// in its line, and ends behind the bytes of the query.
pub proof fn lemma_match_is_told_by_bytes(index: nat, line: Seq<char>, at: int, query: Seq<char>)
    requires
        text::occurs_at(line, at, query),
    ensures
        match_at(index, line, at, query).line == index,
        match_at(index, line, at, query).start == vstd::utf8::encode_utf8(line.take(at)).len(),
        match_at(index, line, at, query).end == vstd::utf8::encode_utf8(
            line.take(at + query.len()),
        ).len(),
{
    let found = line.take(at + query.len());
    text::lemma_byte_len_split(found, at);
    assert(found.take(at) =~= line.take(at));
    assert(found.skip(at) =~= line.subrange(at, at + query.len()));
    text::lemma_byte_len_is_encoded_len(line.take(at));
    text::lemma_byte_len_is_encoded_len(found);
}

} // verus!
