//! What each key and the mouse do to the pager.

use super::columns;
use super::hud;
use super::keys::ActionView;
use super::keys::KeyCode;
use super::keys::KeyModifiers;
use super::keys::PagerEvent;
use super::paint;
use super::search;
use super::view::EventStep;
use super::view::PagerView;
use super::view::SearchView;
use vstd::prelude::*;

verus! {

broadcast use vstd::seq::group_seq_axioms;

// ---------------------------------------------------------------------------
// The room for lines
// ---------------------------------------------------------------------------

/// The smaller of two numbers.
pub open spec fn least(a: nat, b: nat) -> nat {
    if a <= b {
        a
    } else {
        b
    }
}

/// `a`, or zero if that is more.
pub open spec fn at_least_zero(a: int) -> nat {
    if a >= 0 {
        a as nat
    } else {
        0
    }
}

/// The rows of the screen that show lines: all but the row of a search, and all
/// but the row of a file filter and the files above it, which leave one row at
/// least.
pub open spec fn line_rows(view: PagerView) -> nat {
    if view.file_filter_open {
        if view.visible_files.len() + 1 < view.height {
            (view.height - view.visible_files.len() - 1) as nat
        } else if view.height >= 2 {
            1
        } else {
            0
        }
    } else if view.search is Inactive {
        view.height
    } else {
        at_least_zero(view.height - 1)
    }
}

/// The line at the top where the last line is at the bottom.
pub open spec fn last_top(view: PagerView) -> nat {
    at_least_zero(view.lines.len() - line_rows(view))
}

/// The column at the left where the end of the widest line is at the right.
pub open spec fn last_column(view: PagerView) -> nat {
    if view.width == 0 {
        0
    } else {
        at_least_zero(hud::widest(view.plain_lines) - view.width)
    }
}

/// The lines of a page.
pub open spec fn page(view: PagerView) -> nat {
    if line_rows(view) == 0 {
        1
    } else {
        line_rows(view)
    }
}

proof fn lemma_room(view: PagerView)
    ensures
        view.viewport_height() == line_rows(view),
        view.max_offset() == last_top(view),
        view.page_size() == page(view),
{
}

/// The view at another line, without a selection.
pub open spec fn at_line(view: PagerView, offset: nat) -> PagerView {
    PagerView { offset, selection: None, ..view }
}

/// The pager goes on with `view`.
pub open spec fn goes_on(view: PagerView) -> EventStep {
    EventStep::Done { action: ActionView::Continue, view }
}

/// A key is pressed.
pub open spec fn key(code: KeyCode, modifiers: KeyModifiers) -> PagerEvent {
    PagerEvent::Key { code, modifiers }
}

// ---------------------------------------------------------------------------
// Moving about
// ---------------------------------------------------------------------------

/// Down and page down go a page further down, up and page up a page further up,
/// home to the first line and end to the last, each within the lines. Nothing
/// else changes, but that the selection is gone. This holds while nothing is
/// open, and while a search is.
pub proof fn lemma_paging_keys(view: PagerView, modifiers: KeyModifiers)
    requires
        !view.help_open,
        !view.file_filter_open,
    ensures
        view.event(key(KeyCode::Down, modifiers)) == goes_on(
            at_line(view, least(view.offset + page(view), last_top(view))),
        ),
        view.event(key(KeyCode::PageDown, modifiers)) == goes_on(
            at_line(view, least(view.offset + page(view), last_top(view))),
        ),
        view.event(key(KeyCode::Up, modifiers)) == goes_on(
            at_line(view, at_least_zero(view.offset - page(view))),
        ),
        view.event(key(KeyCode::PageUp, modifiers)) == goes_on(
            at_line(view, at_least_zero(view.offset - page(view))),
        ),
        view.event(key(KeyCode::Home, modifiers)) == goes_on(at_line(view, 0)),
        view.event(key(KeyCode::End, modifiers)) == goes_on(at_line(view, last_top(view))),
{
    lemma_room(view);
    lemma_room(PagerView { selection: None, ..view });
}

/// A blank goes a page further down, `g` to the first line and `G` to the last,
/// wherever they are not typed into a search.
pub proof fn lemma_paging_letters(view: PagerView, modifiers: KeyModifiers)
    requires
        !view.help_open,
        !view.file_filter_open,
        !(view.search is Prompt),
    ensures
        view.event(key(KeyCode::Char(' '), modifiers)) == goes_on(
            at_line(view, least(view.offset + page(view), last_top(view))),
        ),
        view.event(key(KeyCode::Char('g'), modifiers)) == goes_on(at_line(view, 0)),
        view.event(key(KeyCode::Char('G'), modifiers)) == goes_on(at_line(view, last_top(view))),
{
    lemma_room(view);
    lemma_room(PagerView { selection: None, ..view });
}

/// No line is wider than the widest, and some line is as wide, if there are any.
pub proof fn lemma_widest(list: Seq<Seq<char>>)
    ensures
        forall|i: int|
            0 <= i < list.len() ==> paint::columns(#[trigger] list[i]) <= hud::widest(list),
        list.len() == 0 ==> hud::widest(list) == 0,
        list.len() > 0 ==> exists|i: int|
            0 <= i < list.len() && paint::columns(#[trigger] list[i]) == hud::widest(list),
    decreases list.len(),
{
    if list.len() > 0 {
        let fewer = list.drop_last();
        lemma_widest(fewer);
        assert forall|i: int| 0 <= i < list.len() implies paint::columns(#[trigger] list[i])
            <= hud::widest(list) by {
            if i < fewer.len() {
                assert(fewer[i] == list[i]);
            }
        }
        if paint::columns(list.last()) > hud::widest(fewer) || fewer.len() == 0 {
            assert(paint::columns(list[list.len() - 1]) == hud::widest(list));
        } else {
            let i = choose|i: int|
                0 <= i < fewer.len() && paint::columns(#[trigger] fewer[i]) == hud::widest(fewer);
            assert(list[i] == fewer[i]);
        }
    }
}

/// The right arrow scrolls eight columns further to the right, but no further
/// than to the end of the widest line; the left arrow scrolls eight columns
/// back.
pub proof fn lemma_arrow_keys(view: PagerView, modifiers: KeyModifiers)
    requires
        !view.help_open,
    ensures
        view.event(key(KeyCode::Right, modifiers)) == goes_on(
            PagerView {
                horizontal_offset: least(
                    view.horizontal_offset + 8,
                    last_column(view),
                ),
                selection: None,
                ..view
            },
        ),
        view.event(key(KeyCode::Left, modifiers)) == goes_on(
            PagerView {
                horizontal_offset: at_least_zero(view.horizontal_offset - 8),
                selection: None,
                ..view
            },
        ),
{
}

/// The wheel scrolls three lines, within the lines, and changes nothing else.
pub proof fn lemma_wheel(view: PagerView)
    requires
        !view.help_open,
    ensures
        view.event(PagerEvent::ScrollDown) == goes_on(
            PagerView { offset: least(view.offset + 3, last_top(view)), ..view },
        ),
        view.event(PagerEvent::ScrollUp) == goes_on(
            PagerView { offset: at_least_zero(view.offset - 3), ..view },
        ),
{
    lemma_room(view);
}

/// While the help is open, the mouse does nothing, and no key does anything but
/// to take the selection away, except that a question mark and `Esc` close it.
pub proof fn lemma_help_takes_everything(view: PagerView, code: KeyCode, modifiers: KeyModifiers)
    requires
        view.help_open,
    ensures
        view.event(key(code, modifiers)) == goes_on(
            PagerView {
                help_open: code != KeyCode::Char('?') && code != KeyCode::Esc,
                selection: None,
                ..view
            },
        ),
        view.event(PagerEvent::ScrollUp) == goes_on(view),
        view.event(PagerEvent::ScrollDown) == goes_on(view),
        forall|row: u16, column: u16|
            #[trigger] view.event(PagerEvent::Press { row, column }) == goes_on(view),
        forall|row: u16| #[trigger] view.event(PagerEvent::Drag { row }) == goes_on(view),
        forall|row: u16| #[trigger] view.event(PagerEvent::Release { row }) == goes_on(view),
{
}

/// A question mark opens the help, whatever else is open.
pub proof fn lemma_help_opens(view: PagerView, modifiers: KeyModifiers)
    requires
        !view.help_open,
    ensures
        view.event(key(KeyCode::Char('?'), modifiers)) == goes_on(
            PagerView { help_open: true, selection: None, ..view },
        ),
{
}

/// `q` and `Esc` leave the pager where nothing is open, and `q` does also where
/// a search was made.
pub proof fn lemma_quitting(view: PagerView, modifiers: KeyModifiers)
    requires
        !view.help_open,
        !view.file_filter_open,
    ensures
        !(view.search is Prompt) ==> view.event(key(KeyCode::Char('q'), modifiers)) == (
        EventStep::Done {
            action: ActionView::Quit,
            view: PagerView { selection: None, ..view },
        }),
        view.search is Inactive ==> view.event(key(KeyCode::Esc, modifiers)) == (EventStep::Done {
            action: ActionView::Quit,
            view: PagerView { selection: None, ..view },
        }),
{
}

/// Keys that have no use do nothing but to take the selection away.
pub proof fn lemma_other_keys(view: PagerView, ch: char, modifiers: KeyModifiers)
    requires
        !view.help_open,
        !view.file_filter_open,
        view.search is Inactive,
        ch != '?' && ch != '/' && ch != 'q' && ch != ' ' && ch != 'g' && ch != 'G',
        ch != 'f' || modifiers is Plain,
    ensures
        view.event(key(KeyCode::Char(ch), modifiers)) == goes_on(
            PagerView { selection: None, ..view },
        ),
        view.event(key(KeyCode::Enter, modifiers)) == goes_on(
            PagerView { selection: None, ..view },
        ),
        view.event(key(KeyCode::Backspace, modifiers)) == goes_on(
            PagerView { selection: None, ..view },
        ),
        view.event(PagerEvent::Other) == goes_on(view),
{
}

// ---------------------------------------------------------------------------
// Searching
// ---------------------------------------------------------------------------

/// The view in another state of searching, with a message or none.
pub open spec fn searching(
    view: PagerView,
    search: SearchView,
    search_message: Option<Seq<char>>,
) -> PagerView {
    PagerView { search, search_message, selection: None, ..view }
}

/// The view with its offsets no further than the lines and columns allow.
pub open spec fn within(view: PagerView) -> PagerView {
    PagerView {
        offset: least(view.offset, last_top(view)),
        horizontal_offset: least(
            view.horizontal_offset,
            last_column(view),
        ),
        ..view
    }
}

/// A slash opens an empty search, and behind a search that was made the query
/// of that search, to be typed on.
pub proof fn lemma_slash_opens_search(view: PagerView, modifiers: KeyModifiers)
    requires
        !view.help_open,
        !view.file_filter_open,
    ensures
        view.search is Inactive ==> view.event(key(KeyCode::Char('/'), modifiers)) == goes_on(
            searching(view, SearchView::Prompt { query: Seq::empty() }, None),
        ),
        view.search matches SearchView::Active { query, matches, current } ==> view.event(
            key(KeyCode::Char('/'), modifiers),
        ) == goes_on(searching(view, SearchView::Prompt { query }, None)),
{
}

/// What is typed into a search goes to its end, a backspace takes the last
/// character away, and `Esc` closes the search. A question mark is not typed: it
/// opens the help; and with the control key `f` opens the file filter.
pub proof fn lemma_typing_a_query(
    view: PagerView,
    query: Seq<char>,
    ch: char,
    modifiers: KeyModifiers,
)
    requires
        !view.help_open,
        !view.file_filter_open,
        view.search == (SearchView::Prompt { query }),
    ensures
        ch != '?' && (ch != 'f' || modifiers is Plain) ==> view.event(
            key(KeyCode::Char(ch), modifiers),
        ) == goes_on(searching(view, SearchView::Prompt { query: query + seq![ch] }, None)),
        query.len() > 0 ==> view.event(key(KeyCode::Backspace, modifiers)) == goes_on(
            searching(
                view,
                SearchView::Prompt { query: query.take(query.len() - 1) },
                None,
            ),
        ),
        query.len() == 0 ==> view.event(key(KeyCode::Backspace, modifiers)) == goes_on(
            searching(view, SearchView::Prompt { query }, None),
        ),
        view.event(key(KeyCode::Esc, modifiers)) == goes_on(
            within(searching(view, SearchView::Inactive, None)),
        ),
        query.len() == 0 ==> view.event(key(KeyCode::Enter, modifiers)) == goes_on(
            within(searching(view, SearchView::Inactive, None)),
        ),
{
    assert(query + seq![ch] =~= query.push(ch));
    if query.len() > 0 {
        assert(query.take(query.len() - 1) =~= query.drop_last());
    }
    lemma_room(searching(view, SearchView::Inactive, None));
}

/// Whether `after` is `before` but for what is on the screen, which is around
/// the match `current` of `matches`: its line in the middle of the screen, or as
/// near to it as the lines allow, and its first column on the screen where it
/// is within the widest line. The columns stay where they are if they can.
pub open spec fn is_at_match(
    before: PagerView,
    matches: Seq<search::MatchView>,
    current: nat,
    after: PagerView,
) -> bool {
    let found = matches[current as int];
    let column = columns::column_of_byte(before.plain_lines[found.line as int], found.start);
    &&& after == (PagerView {
        offset: after.offset,
        horizontal_offset: after.horizontal_offset,
        ..before
    })
    &&& after.offset == least(
        at_least_zero(found.line - line_rows(before) / 2),
        last_top(before),
    )
    &&& before.width > 0 && column < hud::widest(before.plain_lines) ==> after.horizontal_offset
        <= column < after.horizontal_offset + before.width
    &&& before.width > 0 && before.horizontal_offset <= column < before.horizontal_offset
        + before.width && before.horizontal_offset + before.width <= hud::widest(
        before.plain_lines,
    ) ==> after.horizontal_offset == before.horizontal_offset
}

/// The view that the pager goes on with.
pub open spec fn next_view(step: EventStep) -> PagerView {
    match step {
        EventStep::Done { action, view } => view,
        EventStep::Rerender { view, preferred } => view,
    }
}

/// `Enter` makes the search that was typed: all places are found at which the
/// query stands, and the first of them is on the screen.
pub proof fn lemma_search_is_made(view: PagerView, query: Seq<char>, modifiers: KeyModifiers)
    requires
        view.wf(),
        !view.help_open,
        !view.file_filter_open,
        view.search == (SearchView::Prompt { query }),
        query.len() > 0,
    ensures
        ({
            let matches = search::all_matches(view.plain_lines, query);
            let made = searching(view, SearchView::Active { query, matches, current: 0 }, None);
            let step = view.event(key(KeyCode::Enter, modifiers));
            &&& step == goes_on(next_view(step))
            &&& matches.len() == 0 ==> next_view(step) == made
            &&& matches.len() > 0 ==> is_at_match(made, matches, 0, next_view(step))
        }),
{
    let matches = search::all_matches(view.plain_lines, query);
    let made = searching(view, SearchView::Active { query, matches, current: 0 }, None);
    search::lemma_matches_are_occurrences(view.plain_lines, query);
    lemma_room(made);
    if matches.len() > 0 {
        assert(matches[0].line < view.plain_lines.len());
    }
}

/// After a search was made, `n` goes on to the next match and `N` back to the
/// one before. At the last and at the first match the pager stays where it is,
/// and says that there are no more.
pub proof fn lemma_going_through_matches(
    view: PagerView,
    query: Seq<char>,
    matches: Seq<search::MatchView>,
    current: nat,
    modifiers: KeyModifiers,
)
    requires
        view.wf(),
        !view.help_open,
        !view.file_filter_open,
        view.search == (SearchView::Active { query, matches, current }),
        matches.len() > 0,
        query.len() > 0,
    ensures
        ({
            let step = view.event(key(KeyCode::Char('n'), modifiers));
            let next = searching(
                view,
                SearchView::Active { query, matches, current: current + 1 },
                None,
            );
            &&& step == goes_on(next_view(step))
            &&& current + 1 == matches.len() ==> next_view(step) == searching(
                view,
                view.search,
                Some("end of file"@),
            )
            &&& current + 1 < matches.len() ==> is_at_match(
                next,
                matches,
                current + 1,
                next_view(step),
            )
        }),
        ({
            let step = view.event(key(KeyCode::Char('N'), modifiers));
            let previous = searching(
                view,
                SearchView::Active { query, matches, current: (current - 1) as nat },
                None,
            );
            &&& step == goes_on(next_view(step))
            &&& current == 0 ==> next_view(step) == searching(
                view,
                view.search,
                Some("beginning of file"@),
            )
            &&& current > 0 ==> is_at_match(
                previous,
                matches,
                (current - 1) as nat,
                next_view(step),
            )
        }),
        view.event(key(KeyCode::Esc, modifiers)) == goes_on(
            within(searching(view, SearchView::Inactive, None)),
        ),
{
    search::lemma_matches_are_occurrences(view.plain_lines, query);
    let next = searching(
        view,
        SearchView::Active { query, matches, current: current + 1 },
        None,
    );
    let previous = searching(
        view,
        SearchView::Active { query, matches, current: (current - 1) as nat },
        None,
    );
    lemma_room(next);
    lemma_room(previous);
    lemma_room(searching(view, SearchView::Inactive, None));
    assert forall|i: int| 0 <= i < matches.len() implies (#[trigger] matches[i]).line
        < view.plain_lines.len() by {
        assert(search::all_matches(view.plain_lines, query)[i].line < view.plain_lines.len());
    }
}

/// An empty query is found nowhere.
pub proof fn lemma_empty_query(list: Seq<Seq<char>>)
    ensures
        search::all_matches(list, Seq::empty()).len() == 0,
{
}

/// Keys that the pager has no use for do nothing but to take the selection away,
/// whatever is open; so do letters without a use where a search was made.
pub proof fn lemma_unused_keys(view: PagerView, ch: char, modifiers: KeyModifiers)
    requires
        !view.help_open,
        !view.file_filter_open,
        view.search is Active,
        ch != '?' && ch != '/' && ch != 'n' && ch != 'N' && ch != 'q' && ch != ' ' && ch != 'g'
            && ch != 'G',
        ch != 'f' || modifiers is Plain,
    ensures
        view.event(key(KeyCode::Char(ch), modifiers)) == goes_on(
            PagerView { selection: None, ..view },
        ),
        view.event(key(KeyCode::Enter, modifiers)) == goes_on(
            PagerView { selection: None, ..view },
        ),
        view.event(key(KeyCode::Backspace, modifiers)) == goes_on(
            PagerView { selection: None, ..view },
        ),
{
}

/// A key without a name does nothing but to take the selection away.
pub proof fn lemma_unnamed_key(view: PagerView, modifiers: KeyModifiers)
    ensures
        view.event(key(KeyCode::Other, modifiers)) == goes_on(
            PagerView { selection: None, ..view },
        ),
{
}

/// Where nothing was found, there is no next match and none before.
pub proof fn lemma_no_matches_to_go_through(
    view: PagerView,
    query: Seq<char>,
    current: nat,
    modifiers: KeyModifiers,
)
    requires
        !view.help_open,
        !view.file_filter_open,
        view.search == (SearchView::Active { query, matches: Seq::empty(), current }),
    ensures
        view.event(key(KeyCode::Char('n'), modifiers)) == goes_on(
            PagerView { selection: None, ..view },
        ),
        view.event(key(KeyCode::Char('N'), modifiers)) == goes_on(
            PagerView { selection: None, ..view },
        ),
        view.event(key(KeyCode::Esc, modifiers)) == goes_on(
            within(searching(view, SearchView::Inactive, None)),
        ),
{
}

/// While files are filtered, letters typed with the control key are not part of
/// the filter: they do what they do elsewhere.
pub proof fn lemma_control_keys_while_filtering(view: PagerView, ch: char)
    requires
        !view.help_open,
        view.file_filter_open,
        ch != '?' && ch != 'f',
    ensures
        view.event(key(KeyCode::Char(ch), KeyModifiers::Control)) == (EventStep::Done {
            action: if ch == 'q' {
                ActionView::Quit
            } else {
                ActionView::Continue
            },
            view: at_line(
                view,
                if ch == ' ' {
                    least(view.offset + page(view), last_top(view))
                } else if ch == 'g' {
                    0
                } else if ch == 'G' {
                    last_top(view)
                } else {
                    view.offset
                },
            ),
        }),
{
    lemma_room(PagerView { selection: None, ..view });
}

} // verus!
