//! What holds of the pager whatever happens.

use super::ansi;
use super::columns;
use super::files;
use super::hud;
use super::keys::KeyCode;
use super::keys::KeyModifiers;
use super::keys::PagerEvent;
use super::paint;
use super::search;
use super::search::MatchView;
use super::view;
use super::view::EventStep;
use super::view::KeyStep;
use super::view::PagerView;
use super::view::SearchView;
use crate::render::PaneLayout;
use crate::text;
use crate::unified_diff;
use vstd::prelude::*;

verus! {

broadcast use vstd::seq::group_seq_axioms;

// ---------------------------------------------------------------------------
// The invariant
// ---------------------------------------------------------------------------

proof fn lemma_at_file_keeps_wf(view: PagerView, index: nat)
    requires
        view.wf(),
    ensures
        view.at_file(index).wf(),
{
    files::lemma_header_lines(view.plain_lines, view.visible_files);
    if index < view.file_headers.len() {
        let header = files::header_lines(view.plain_lines, view.visible_files)[index as int];
        assert(header.line < view.plain_lines.len());
    }
}

proof fn lemma_at_current_match_keeps_wf(view: PagerView)
    requires
        view.wf(),
    ensures
        view.at_current_match().wf(),
{
}

/// A key for the search does not break the pager.
pub proof fn lemma_search_key_keeps_wf(view: PagerView, code: KeyCode)
    requires
        view.wf(),
    ensures
        view.search_key(code) matches Some(after) ==> after.wf(),
{
    match view.search {
        SearchView::Prompt { query } => {
            let active = view.with_search(
                SearchView::Active {
                    query,
                    matches: search::all_matches(view.plain_lines, query),
                    current: 0,
                },
            );
            assert(active.wf());
            lemma_at_current_match_keeps_wf(active);
        },
        SearchView::Active { query, matches, current } => {
            if current + 1 < matches.len() {
                let next = view.with_search(view.search.at_match(current + 1));
                assert(next.wf());
                lemma_at_current_match_keeps_wf(next);
            }
            if current > 0 {
                let previous = view.with_search(view.search.at_match((current - 1) as nat));
                assert(previous.wf());
                lemma_at_current_match_keeps_wf(previous);
            }
        },
        SearchView::Inactive => {},
    }
}

/// A key for the file filter does not break the pager.
pub proof fn lemma_filter_key_keeps_wf(view: PagerView, code: KeyCode, modifiers: KeyModifiers)
    requires
        view.wf(),
    ensures
        view.filter_key(code, modifiers) matches KeyStep::Done { handled, view: after }
            ==> after.wf(),
{
    lemma_at_file_keeps_wf(view, 0);
    match view.top_file() {
        Some(current) => {
            lemma_at_file_keeps_wf(view, current + 1);
            if current > 0 {
                lemma_at_file_keeps_wf(view, (current - 1) as nat);
            }
        },
        None => {},
    }
    if view.file_headers.len() > 0 {
        lemma_at_file_keeps_wf(view, (view.file_headers.len() - 1) as nat);
    }
}

/// Whatever is rendered, the pager shows it within its bounds, with the plain
/// lines, the files and the matches that go with it.
pub proof fn lemma_output_is_shown(
    view: PagerView,
    output: Seq<char>,
    layout: PaneLayout,
    preferred: Option<Seq<char>>,
)
    ensures
        ({
            let after = view.with_output(output, layout, preferred);
            &&& after.wf()
            &&& after.lines == text::lines(output)
            &&& after.offset <= after.max_offset()
            &&& after.horizontal_offset <= after.max_horizontal_offset()
        }),
{
    let lines = text::lines(output);
    let plain_lines = view::shown_lines(lines);
    let visible_files = unified_diff::matching(view.all_files, view.file_filter_query);
    let shown = PagerView {
        lines,
        plain_lines,
        visible_files,
        file_headers: files::header_lines(plain_lines, visible_files),
        pane_layout: layout,
        ..view
    };
    match shown.search {
        SearchView::Active { query, matches, current } => {
            let again = shown.searched_again();
            assert(again.search matches SearchView::Active {
                query: q,
                matches: found,
                current: at,
            } && q == query && found == search::all_matches(plain_lines, query) && (at
                < found.len() || (found.len() == 0 && at == 0)));
        },
        _ => {},
    }
}

/// Nothing that happens at the terminal breaks the pager: if what it shows
/// fits what it was made from, it does so afterwards.
#[verifier::rlimit(30)]
pub proof fn lemma_events_keep_wf(view: PagerView, event: PagerEvent)
    requires
        view.wf(),
    ensures
        view.event(event) matches EventStep::Done { action, view: after } ==> after.wf(),
{
    match event {
        PagerEvent::Key { code, modifiers } => {
            let unselected = PagerView { selection: None, ..view };
            assert(unselected.wf());
            lemma_search_key_keeps_wf(unselected, code);
            lemma_filter_key_keeps_wf(unselected, code, modifiers);
        },
        _ => {},
    }
}

/// Resizing the screen brings the offsets into their bounds, and does not break
/// the pager.
pub proof fn lemma_resizing_keeps_wf(view: PagerView, width: nat, height: nat)
    requires
        view.wf(),
    ensures
        view.resized(width, height) matches KeyStep::Done { handled, view: after } ==> after.wf()
            && after.offset <= after.max_offset() && after.horizontal_offset
            <= after.max_horizontal_offset(),
{
}

// ---------------------------------------------------------------------------
// Moving about
// ---------------------------------------------------------------------------

/// Paging down never goes behind the last page, and paging up from there leads
/// back where a whole page was gone down.
pub proof fn lemma_pages(view: PagerView)
    ensures
        ({
            let down = view.scrolled_down(view.page_size());
            &&& down.offset <= down.max_offset()
            &&& view.offset + view.page_size() <= view.max_offset() ==> down.scrolled_up(
                down.page_size(),
            ) == view
            &&& view.at_bottom().scrolled_down(view.page_size()) == view.at_bottom()
            &&& view.at_top().scrolled_up(view.page_size()) == view.at_top()
        }),
{
}

/// At the bottom the last line is the last on the screen, wherever there are
/// lines enough to fill it.
pub proof fn lemma_bottom_shows_last_line(view: PagerView)
    requires
        view.lines.len() >= view.viewport_height(),
        view.viewport_height() > 0,
    ensures
        view.at_bottom().offset + view.viewport_height() == view.lines.len(),
        view.at_bottom().screen_row((view.viewport_height() - 1) as nat) is Some,
        view.at_bottom().screen_row(view.viewport_height()) is None,
{
}

/// Scrolling to the side stops at the end of the widest line, and a step back
/// undoes a whole step.
pub proof fn lemma_scrolling_sideways(view: PagerView)
    ensures
        view.scrolled_right().horizontal_offset <= view.max_horizontal_offset(),
        view.horizontal_offset + view::HORIZONTAL_SCROLL_COLUMNS <= view.max_horizontal_offset()
            ==> view.scrolled_right().scrolled_left() == view,
{
}

// ---------------------------------------------------------------------------
// Searching
// ---------------------------------------------------------------------------

/// Searching does not wrap: behind the last match and before the first the
/// search stays where it is, and a message says why.
pub proof fn lemma_search_does_not_wrap(view: PagerView)
    requires
        view.wf(),
    ensures
        view.search matches SearchView::Active { query, matches, current } ==> {
            &&& matches.len() > 0 && current + 1 == matches.len() ==> view.at_next_match()
                == (PagerView { search_message: Some("end of file"@), ..view })
            &&& matches.len() > 0 && current == 0 ==> view.at_previous_match() == (PagerView {
                search_message: Some("beginning of file"@),
                ..view
            })
            &&& matches.len() == 0 ==> view.at_next_match() == view && view.at_previous_match()
                == view
        },
{
}

/// Going on to the next match and back leads to the match that the search was
/// at.
pub proof fn lemma_next_match_and_back(view: PagerView)
    requires
        view.wf(),
    ensures
        view.search matches SearchView::Active { query, matches, current } ==> (current + 1
            < matches.len() ==> view.at_next_match().at_previous_match().search == view.search),
{
    match view.search {
        SearchView::Active { query, matches, current } => {
            if current + 1 < matches.len() {
                let next = view.at_next_match();
                assert(next.search == view.search.at_match(current + 1));
                assert(next.at_previous_match().search == view.search.at_match(current));
            }
        },
        _ => {},
    }
}

/// The match that the search is at is on the screen: its line is one of those
/// shown, and its first column is too.
pub proof fn lemma_match_is_on_screen(view: PagerView)
    requires
        view.wf(),
        view.viewport_height() > 0,
    ensures
        view.current_match() matches Some(found) ==> ({
            let after = view.at_current_match();
            let column = columns::column_of_byte(view.plain_lines[found.line as int], found.start);
            &&& after.offset <= found.line < after.offset + after.viewport_height()
            &&& view.width > 0 && column < hud::widest(view.plain_lines)
                ==> after.horizontal_offset <= column < after.horizontal_offset + view.width
        }),
{
    match view.search {
        SearchView::Active { query, matches, current } => {
            if current < matches.len() {
                if query.len() > 0 {
                    search::lemma_matches_are_occurrences(view.plain_lines, query);
                }
                let found = search::all_matches(view.plain_lines, query)[current as int];
                assert(found == matches[current as int]);
                assert(found.line < view.plain_lines.len());
            }
        },
        _ => {},
    }
}

proof fn lemma_matches_in_add(left: Seq<MatchView>, right: Seq<MatchView>, line: nat)
    ensures
        view::matches_in(left + right, line) == view::matches_in(left, line) + view::matches_in(
            right,
            line,
        ),
    decreases right.len(),
{
    if right.len() == 0 {
        assert(left + right =~= left);
        assert(view::matches_in(left, line) + view::matches_in(right, line) =~= view::matches_in(
            left,
            line,
        ));
    } else {
        assert((left + right).drop_last() =~= left + right.drop_last());
        assert((left + right).last() == right.last());
        lemma_matches_in_add(left, right.drop_last(), line);
        assert(view::matches_in(left + right, line) =~= view::matches_in(left, line)
            + view::matches_in(right, line));
    }
}

proof fn lemma_matches_in_all(matches: Seq<MatchView>, line: nat)
    ensures
        (forall|i: int| 0 <= i < matches.len() ==> (#[trigger] matches[i]).line == line)
            ==> view::matches_in(matches, line) == matches,
        (forall|i: int| 0 <= i < matches.len() ==> (#[trigger] matches[i]).line != line)
            ==> view::matches_in(matches, line) == Seq::<MatchView>::empty(),
    decreases matches.len(),
{
    if matches.len() == 0 {
        assert(view::matches_in(matches, line) =~= matches);
    } else {
        let fewer = matches.drop_last();
        lemma_matches_in_all(fewer, line);
        assert forall|i: int| 0 <= i < fewer.len() implies #[trigger] fewer[i] == matches[i] by {}
        if forall|i: int| 0 <= i < matches.len() ==> (#[trigger] matches[i]).line == line {
            assert(matches[matches.len() - 1].line == line);
            assert(fewer.push(matches.last()) =~= matches);
        }
        if forall|i: int| 0 <= i < matches.len() ==> (#[trigger] matches[i]).line != line {
            assert(matches[matches.len() - 1].line != line);
        }
    }
}

proof fn lemma_line_matches_line(index: nat, line: Seq<char>, query: Seq<char>, n: nat)
    ensures
        forall|i: int|
            0 <= i < search::line_matches(index, line, query, n).len() ==> (
            #[trigger] search::line_matches(index, line, query, n)[i]).line == index,
    decreases n,
{
    if n > 0 {
        let fewer = (n - 1) as nat;
        lemma_line_matches_line(index, line, query, fewer);
        let before = search::line_matches(index, line, query, fewer);
        let all = search::line_matches(index, line, query, n);
        assert forall|i: int| 0 <= i < all.len() implies (#[trigger] all[i]).line == index by {
            if i < before.len() {
                assert(all[i] == before[i]);
            }
        }
    }
}

/// The matches in a line are what there is to be found in that line.
pub proof fn lemma_matches_in_line(list: Seq<Seq<char>>, query: Seq<char>, line: int)
    requires
        0 <= line < list.len(),
        query.len() > 0,
    ensures
        view::matches_in(search::all_matches(list, query), line as nat) == search::line_matches(
            line as nat,
            list[line],
            query,
            list[line].len(),
        ),
    decreases list.len(),
{
    let fewer = list.drop_last();
    let last = (list.len() - 1) as nat;
    let before = search::all_matches(fewer, query);
    let added = search::line_matches(last, list.last(), query, list.last().len());
    lemma_matches_in_add(before, added, line as nat);
    lemma_matches_in_all(added, line as nat);
    lemma_matches_in_all(before, line as nat);
    lemma_line_matches_line(last, list.last(), query, list.last().len());
    let of_line = search::line_matches(line as nat, list[line], query, list[line].len());
    if line < last {
        lemma_matches_in_line(fewer, query, line);
        assert(fewer[line] == list[line]);
        assert(view::matches_in(added, line as nat) =~= Seq::<MatchView>::empty());
        assert(of_line + Seq::<MatchView>::empty() =~= of_line);
    } else {
        search::lemma_matches_are_occurrences(fewer, query);
        assert forall|i: int| 0 <= i < before.len() implies (#[trigger] before[i]).line != line by {}
        assert(view::matches_in(before, line as nat) =~= Seq::<MatchView>::empty());
        assert(Seq::<MatchView>::empty() + added =~= added);
    }
}

proof fn lemma_bytes_grow(line: Seq<char>, i: int, j: int)
    requires
        0 <= i < j <= line.len(),
    ensures
        text::byte_len(line.take(i)) < text::byte_len(line.take(j)),
{
    let longer = line.take(j);
    assert(longer.take(i) =~= line.take(i));
    text::lemma_byte_len_split(longer, i);
    text::lemma_byte_len_at_least_len(longer.skip(i));
}

proof fn lemma_match_covers(line: Seq<char>, query: Seq<char>, at: int, k: int)
    requires
        query.len() > 0,
        text::occurs_at(line, at, query),
        0 <= k < line.len(),
    ensures
        text::byte_len(line.take(at)) + text::byte_len(query) == text::byte_len(
            line.take(at + query.len()),
        ),
        (text::byte_len(line.take(k)) < text::byte_len(line.take(at + query.len()))
            && text::byte_len(line.take(k + 1)) > text::byte_len(line.take(at))) == (at <= k < at
            + query.len()),
{
    let end = at + query.len();
    let found = line.take(end);
    text::lemma_byte_len_split(found, at);
    assert(found.take(at) =~= line.take(at));
    assert(found.skip(at) =~= line.subrange(at, end));
    if k < end {
        lemma_bytes_grow(line, k, end);
    } else if end < k {
        lemma_bytes_grow(line, end, k);
    }
    if at < k + 1 {
        lemma_bytes_grow(line, at, k + 1);
    } else if k + 1 < at {
        lemma_bytes_grow(line, k + 1, at);
    }
}

/// Exactly what was searched for is highlighted: a character of a line is
/// highlighted if and only if it belongs to an occurrence of the query in what
/// the line shows. Left out are lines with an escape character that starts no
/// escape sequence.
pub proof fn lemma_matches_are_highlighted(view: PagerView, line: int, k: int)
    requires
        view.wf(),
        view.search matches SearchView::Active { query, matches, current } && query.len() > 0,
        0 <= line < view.lines.len(),
        ansi::escapes_are_sequences(view.lines[line]),
        0 <= k < ansi::cells_of(view.lines[line]).len(),
    ensures
        view.search matches SearchView::Active { query, matches, current } && paint::highlighted(
            ansi::cells_of(view.lines[line])[k],
            view.matches_in_line(line as nat),
        ) == exists|at: int| #[trigger]
            text::occurs_at(view.plain_lines[line], at, query) && at <= k < at + query.len(),
{
    let query = view.search->Active_query;
    let cells = ansi::cells_of(view.lines[line]);
    let cell = cells[k];
    let shown = view.plain_lines[line];
    ansi::lemma_cells_are_shown_text(view.lines[line], ansi::plain_style(), 0);
    ansi::lemma_cells_contiguous(view.lines[line], ansi::plain_style(), 0);
    assert(ansi::cell_chars(cells) == shown);
    lemma_matches_in_line(view.plain_lines, query, line);
    let found = search::line_matches(line as nat, shown, query, shown.len());
    assert(view.matches_in_line(line as nat) == found);
    search::lemma_line_matches(line as nat, shown, query, shown.len());
    assert(cell.start == text::byte_len(shown.take(k)));
    assert(shown[k] == cell.ch);
    paint::lemma_prefix_step(shown, k, cell.ch);
    assert(cell.end == text::byte_len(shown.take(k + 1)));
    if paint::highlighted(cell, found) {
        let i = choose|i: int|
            0 <= i < found.len() && cell.start < (#[trigger] found[i]).end && cell.end
                > found[i].start;
        assert(search::is_match_in(found[i], line as nat, shown, query));
        let at = choose|at: int|
            0 <= at < shown.len() && #[trigger] text::occurs_at(shown, at, query) && found[i]
                == search::match_at(line as nat, shown, at, query);
        lemma_match_covers(shown, query, at, k);
        assert(text::occurs_at(shown, at, query) && at <= k < at + query.len());
    }
    if exists|at: int| #[trigger]
        text::occurs_at(shown, at, query) && at <= k < at + query.len() {
        let at = choose|at: int| #[trigger]
            text::occurs_at(shown, at, query) && at <= k < at + query.len();
        lemma_match_covers(shown, query, at, k);
        let one = search::match_at(line as nat, shown, at, query);
        assert(found.contains(one));
        let i = choose|i: int| 0 <= i < found.len() && found[i] == one;
        assert(cell.start < found[i].end && cell.end > found[i].start);
    }
}

// ---------------------------------------------------------------------------
// Files
// ---------------------------------------------------------------------------

/// Typing narrows the list of files: a path that holds a longer query also
/// holds the shorter one that it was typed from.
pub proof fn lemma_typing_narrows(list: Seq<Seq<char>>, query: Seq<char>, ch: char, i: int)
    requires
        0 <= i < unified_diff::matching(list, query.push(ch)).len(),
    ensures
        unified_diff::matching(list, query).contains(
            unified_diff::matching(list, query.push(ch))[i],
        ),
        unified_diff::matching(list, query.push(ch)).len() <= unified_diff::matching(
            list,
            query,
        ).len(),
    decreases list.len(),
{
    let narrow = unified_diff::matching(list, query.push(ch));
    let wide = unified_diff::matching(list, query);
    if list.len() > 0 {
        let fewer = list.drop_last();
        let path = list.last();
        let narrow_before = unified_diff::matching(fewer, query.push(ch));
        let wide_before = unified_diff::matching(fewer, query);
        lemma_narrower_is_shorter(fewer, query, ch);
        if text::contains(path, query.push(ch)) {
            lemma_longer_query(path, query, ch);
        }
        if i < narrow_before.len() {
            assert(narrow[i] == narrow_before[i]);
            lemma_typing_narrows(fewer, query, ch, i);
            let k = choose|k: int| 0 <= k < wide_before.len() && wide_before[k] == narrow_before[i];
            assert(wide[k] == wide_before[k]);
        } else {
            assert(narrow[i] == path);
            assert(wide[wide.len() - 1] == path);
        }
    }
}

proof fn lemma_longer_query(path: Seq<char>, query: Seq<char>, ch: char)
    requires
        text::contains(path, query.push(ch)),
    ensures
        text::contains(path, query),
{
    let longer = query.push(ch);
    let at = choose|at: int| text::occurs_at(path, at, longer);
    assert(path.subrange(at, at + query.len()) =~= query) by {
        assert forall|j: int| 0 <= j < query.len() implies path.subrange(
            at,
            at + query.len(),
        )[j] == query[j] by {
            assert(path.subrange(at, at + longer.len())[j] == longer[j]);
        }
    }
    assert(text::occurs_at(path, at, query));
}

proof fn lemma_narrower_is_shorter(list: Seq<Seq<char>>, query: Seq<char>, ch: char)
    ensures
        unified_diff::matching(list, query.push(ch)).len() <= unified_diff::matching(
            list,
            query,
        ).len(),
    decreases list.len(),
{
    if list.len() > 0 {
        lemma_narrower_is_shorter(list.drop_last(), query, ch);
        if text::contains(list.last(), query.push(ch)) {
            lemma_longer_query(list.last(), query, ch);
        }
    }
}

/// There is a file at the top wherever there are files.
pub proof fn lemma_top_file_exists(view: PagerView)
    ensures
        view.top_file() matches Some(index) ==> index < view.file_headers.len(),
        view.top_file() is None <==> view.file_headers.len() == 0,
{
    lemma_last_header_above(view.file_headers, view.offset);
}

/// The last header at or above a line is such a header, and those behind it
/// stand further down.
pub proof fn lemma_last_header_above(headers: Seq<files::HeaderView>, offset: nat)
    ensures
        view::last_header_above(headers, offset) matches Some(index) ==> index < headers.len()
            && headers[index as int].line <= offset && forall|j: int|
            index < j < headers.len() ==> (#[trigger] headers[j]).line > offset,
        view::last_header_above(headers, offset) is None ==> forall|j: int|
            0 <= j < headers.len() ==> (#[trigger] headers[j]).line > offset,
    decreases headers.len(),
{
    if headers.len() > 0 && headers.last().line > offset {
        let fewer = headers.drop_last();
        lemma_last_header_above(fewer, offset);
        assert forall|j: int| 0 <= j < fewer.len() implies #[trigger] headers[j] == fewer[j] by {}
    }
}

/// The file at the top of the screen is in the list of files, whenever the
/// list has a row at all: the list is scrolled along.
pub proof fn lemma_top_file_is_listed(view: PagerView)
    requires
        view.wf(),
        view.file_filter_open,
        view.hud_height() > 1,
    ensures
        view.top_file() matches Some(index) ==> view.list_start() <= index < view.list_start() + (
        view.hud_height() - 1) && view.visible_files[index as int]
            == view.file_headers[index as int].name,
{
    lemma_top_file_exists(view);
    files::lemma_header_lines(view.plain_lines, view.visible_files);
    match view.top_file() {
        Some(index) => {
            let headers = files::header_lines(view.plain_lines, view.visible_files);
            assert(headers[index as int].name == view.visible_files[index as int]);
        },
        None => {},
    }
}

/// While files are filtered, moving to a file brings its header to the top of
/// the screen.
pub proof fn lemma_jumping_shows_file(view: PagerView, index: nat)
    requires
        view.wf(),
        view.file_filter_open,
        index < view.file_headers.len(),
    ensures
        view.at_file(index).top_file() == Some(index),
        view.plain_lines[view.at_file(index).offset as int] == view.file_headers[index as int].name,
{
    let after = view.at_file(index);
    let headers = files::header_lines(view.plain_lines, view.visible_files);
    files::lemma_header_lines(view.plain_lines, view.visible_files);
    lemma_last_header_above(headers, after.offset);
    assert(after.offset == headers[index as int].line);
    match view::last_header_above(headers, after.offset) {
        Some(found) => {
            if found < index {
                assert(headers[index as int].line > after.offset);
            } else if found > index {
                assert(headers[index as int].line < headers[found as int].line);
            }
        },
        None => {
            assert(headers[index as int].line > after.offset);
        },
    }
}

// ---------------------------------------------------------------------------
// The screen
// ---------------------------------------------------------------------------

/// The rows at the bottom are as many as the lines give up for them, so that
/// the two fill the screen and do not overlap, wherever the screen has a row
/// for each.
pub proof fn lemma_rows_fill_screen(view: PagerView)
    ensures
        view.hud_rows().len() == view.hud_height(),
        view.height >= 1 ==> view.viewport_height() + view.hud_rows().len() == view.height,
{
}

/// The help takes all keys while it is open, and a question mark opens and
/// closes it without changing anything else.
pub proof fn lemma_help_toggles(view: PagerView, modifiers: KeyModifiers)
    requires
        !view.help_open,
    ensures
        ({
            let open = PagerView { help_open: true, ..view };
            &&& view.hud_key(KeyCode::Char('?'), modifiers) == (KeyStep::Done {
                handled: true,
                view: open,
            })
            &&& open.hud_key(KeyCode::Char('?'), modifiers) == (KeyStep::Done {
                handled: true,
                view,
            })
            &&& open.hud_key(KeyCode::Esc, modifiers) == (KeyStep::Done { handled: true, view })
            &&& open.cursor() is None
            &&& forall|code: KeyCode|
                code != KeyCode::Char('?') && !(code is Esc) ==> #[trigger] open.hud_key(
                    code,
                    modifiers,
                ) == (KeyStep::Done { handled: true, view: open })
        }),
{
}

/// `Esc` leaves a search that is open, and `Esc` and `Enter` close a file filter
/// that is. Either gives the bottom rows back to the lines, within the bounds.
pub proof fn lemma_closing_keys(view: PagerView, modifiers: KeyModifiers)
    requires
        !view.help_open,
    ensures
        view.file_filter_open ==> ({
            let closed = (PagerView { file_filter_open: false, ..view }).clamped();
            &&& closed.offset <= closed.max_offset()
            &&& view.hud_key(KeyCode::Esc, modifiers) == (KeyStep::Done {
                handled: true,
                view: closed,
            })
            &&& view.hud_key(KeyCode::Enter, modifiers) == (KeyStep::Done {
                handled: true,
                view: closed,
            })
        }),
        !view.file_filter_open && !(view.search is Inactive) ==> ({
            let left = view.with_search(SearchView::Inactive).clamped();
            &&& left.hud_height() == 0
            &&& left.offset <= left.max_offset()
            &&& view.hud_key(KeyCode::Esc, modifiers) == (KeyStep::Done {
                handled: true,
                view: left,
            })
        }),
{
}

/// A key takes the selection away, whatever else it does.
pub proof fn lemma_keys_end_selection(view: PagerView, code: KeyCode, modifiers: KeyModifiers)
    ensures
        match view.event(PagerEvent::Key { code, modifiers }) {
            EventStep::Done { action, view: after } => after.selection is None,
            EventStep::Rerender { view: before, preferred } => before.selection is None,
        },
{
}

/// The pager is only left by `q` and `Esc`, and never while the help is open.
/// `Esc` first closes the file filter and the search; `q` is text while a query
/// is being typed, and while a filter is, unless the control key is held.
pub proof fn lemma_leaving_the_pager(view: PagerView, code: KeyCode, modifiers: KeyModifiers)
    requires
        view.event(PagerEvent::Key { code, modifiers }) matches EventStep::Done {
            action,
            view: after,
        } && action is Quit,
    ensures
        code is Esc || code == KeyCode::Char('q'),
        !view.help_open,
        code is Esc ==> !view.file_filter_open && view.search is Inactive,
        view.file_filter_open ==> modifiers is Control,
        view.search is Prompt ==> view.file_filter_open,
{
}

} // verus!
