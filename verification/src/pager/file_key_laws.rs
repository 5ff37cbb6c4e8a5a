//! What filtering files, resizing and rendering anew do to the pager.

use super::ansi;
use super::files;
use super::files::HeaderView;
use super::key_laws;
use super::keys::KeyCode;
use super::keys::KeyModifiers;
use super::keys::PagerEvent;
use super::laws;
use super::search;
use super::view;
use super::view::EventStep;
use super::view::KeyStep;
use super::view::PagerView;
use super::view::SearchView;
use crate::render::PaneLayout;
use crate::render::TintPalette;
use crate::terminal_palette::AnsiColor;
use crate::text;
use crate::unified_diff;
use vstd::prelude::*;

verus! {

broadcast use vstd::seq::group_seq_axioms;

// ---------------------------------------------------------------------------
// The file at the top
// ---------------------------------------------------------------------------

/// Whether the line at the top belongs to file `index`: the file starts at that
/// line or above it and all files behind it start below it, or it is the first
/// file and the line stands above all files.
pub open spec fn is_at_top(view: PagerView, index: int) -> bool {
    &&& 0 <= index < view.file_headers.len()
    &&& forall|j: int|
        index < j < view.file_headers.len() ==> (#[trigger] view.file_headers[j]).line
            > view.offset
    &&& view.file_headers[index].line <= view.offset || index == 0
}

/// There is one file at the top wherever there are files, and its name is the
/// name of the file at the top.
pub proof fn lemma_file_at_top(view: PagerView, index: int)
    ensures
        is_at_top(view, index) <==> view.top_file() == Some(index as nat) && index >= 0,
        is_at_top(view, index) ==> view.top_file_name() == Some(view.file_headers[index].name),
        view.file_headers.len() == 0 ==> view.top_file_name() is None,
        view.file_headers.len() > 0 ==> exists|i: int| is_at_top(view, i),
{
    laws::lemma_last_header_above(view.file_headers, view.offset);
    laws::lemma_top_file_exists(view);
    match view.top_file() {
        Some(top) => {
            assert(is_at_top(view, top as int));
            if is_at_top(view, index) {
                if index < top {
                    assert(view.file_headers[top as int].line > view.offset);
                } else if top < index {
                    assert(view.file_headers[index].line > view.offset);
                }
            }
        },
        None => {},
    }
}

/// The view without a selection and without a search.
pub open spec fn unsearched(view: PagerView) -> PagerView {
    PagerView { search: SearchView::Inactive, search_message: None, selection: None, ..view }
}

/// The name of the file at the top.
pub open spec fn is_top_name(view: PagerView, name: Option<Seq<char>>) -> bool {
    match name {
        None => view.file_headers.len() == 0,
        Some(name) => exists|i: int| #[trigger]
            is_at_top(view, i) && name == view.file_headers[i].name,
    }
}

proof fn lemma_top_name(view: PagerView)
    ensures
        is_top_name(view, view.top_file_name()),
        is_top_name(PagerView { selection: None, ..view }, view.top_file_name()),
        (PagerView { selection: None, ..view }).top_file_name() == view.top_file_name(),
{
    laws::lemma_top_file_exists(view);
    match view.top_file() {
        Some(top) => {
            lemma_file_at_top(view, top as int);
            assert(is_at_top(view, top as int));
            assert(is_at_top(PagerView { selection: None, ..view }, top as int));
        },
        None => {},
    }
}

// ---------------------------------------------------------------------------
// Filtering files
// ---------------------------------------------------------------------------

/// The control key and `f` open the file filter. A search is left. The lines
/// stay where they are, unless there is no file to be shown.
pub proof fn lemma_filter_opens(view: PagerView)
    requires
        !view.help_open,
    ensures
        view.event(key_laws::key(KeyCode::Char('f'), KeyModifiers::Control)) == key_laws::goes_on(
            PagerView {
                file_filter_open: true,
                offset: if view.visible_files.len() == 0 {
                    0
                } else {
                    view.offset
                },
                ..unsearched(view)
            },
        ),
{
}

/// What is typed while files are filtered goes to the end of the filter, and a
/// backspace takes its last character away. Either renders the diff anew, for
/// the new filter, to be shown at the file that was at the top.
pub proof fn lemma_typing_a_filter(view: PagerView, ch: char, modifiers: KeyModifiers)
    requires
        !view.help_open,
        view.file_filter_open,
        ch != '?',
    ensures
        view.event(key_laws::key(KeyCode::Char(ch), KeyModifiers::Plain))
            matches EventStep::Rerender { view: before, preferred } && before == (PagerView {
            file_filter_query: view.file_filter_query + seq![ch],
            ..unsearched(view)
        }) && is_top_name(view, preferred),
        view.event(key_laws::key(KeyCode::Backspace, modifiers)) matches EventStep::Rerender {
            view: before,
            preferred,
        } && before == (PagerView {
            file_filter_query: if view.file_filter_query.len() == 0 {
                view.file_filter_query
            } else {
                view.file_filter_query.take(view.file_filter_query.len() - 1)
            },
            ..unsearched(view)
        }) && is_top_name(view, preferred),
{
    lemma_top_name(view);
    let query = view.file_filter_query;
    assert(query + seq![ch] =~= query.push(ch));
    if query.len() > 0 {
        assert(query.take(query.len() - 1) =~= query.drop_last());
    }
}

/// While files are filtered, down goes to the start of the next file, up to
/// that of the file before, home to the first and end to the last file. Nothing
/// happens where there is no such file.
pub proof fn lemma_going_through_files(view: PagerView, top: int, modifiers: KeyModifiers)
    requires
        !view.help_open,
        view.file_filter_open,
        is_at_top(view, top),
    ensures
        view.event(key_laws::key(KeyCode::Down, modifiers)) == key_laws::goes_on(
            key_laws::at_line(
                view,
                if top + 1 < view.file_headers.len() {
                    view.file_headers[top + 1].line
                } else {
                    view.offset
                },
            ),
        ),
        view.event(key_laws::key(KeyCode::Up, modifiers)) == key_laws::goes_on(
            key_laws::at_line(
                view,
                if top > 0 {
                    view.file_headers[top - 1].line
                } else {
                    view.offset
                },
            ),
        ),
        view.event(key_laws::key(KeyCode::Home, modifiers)) == key_laws::goes_on(
            key_laws::at_line(view, view.file_headers[0].line),
        ),
        view.event(key_laws::key(KeyCode::End, modifiers)) == key_laws::goes_on(
            key_laws::at_line(view, view.file_headers[view.file_headers.len() - 1].line),
        ),
{
    lemma_file_at_top(view, top);
    let unselected = PagerView { selection: None, ..view };
    assert(is_at_top(unselected, top));
    lemma_file_at_top(unselected, top);
}

/// While files are filtered and there is none, there is none to go to.
pub proof fn lemma_no_files_to_go_to(view: PagerView, modifiers: KeyModifiers)
    requires
        !view.help_open,
        view.file_filter_open,
        view.file_headers.len() == 0,
    ensures
        view.event(key_laws::key(KeyCode::Down, modifiers)) == key_laws::goes_on(
            key_laws::at_line(view, view.offset),
        ),
        view.event(key_laws::key(KeyCode::Up, modifiers)) == key_laws::goes_on(
            key_laws::at_line(view, view.offset),
        ),
        view.event(key_laws::key(KeyCode::Home, modifiers)) == key_laws::goes_on(
            key_laws::at_line(view, view.offset),
        ),
        view.event(key_laws::key(KeyCode::End, modifiers)) == key_laws::goes_on(
            key_laws::at_line(view, view.offset),
        ),
{
    laws::lemma_top_file_exists(PagerView { selection: None, ..view });
}

/// `Enter` and `Esc` close the file filter. The filter stays, and the lines move
/// no further than the rows that are free again ask for.
pub proof fn lemma_filter_closes(view: PagerView, modifiers: KeyModifiers)
    requires
        !view.help_open,
        view.file_filter_open,
    ensures
        ({
            let closed = PagerView { file_filter_open: false, selection: None, ..view };
            &&& view.event(key_laws::key(KeyCode::Enter, modifiers)) == key_laws::goes_on(
                key_laws::within(closed),
            )
            &&& view.event(key_laws::key(KeyCode::Esc, modifiers)) == key_laws::goes_on(
                key_laws::within(closed),
            )
        }),
{
}

/// While files are filtered, the other keys do what they do elsewhere.
pub proof fn lemma_paging_while_filtering(view: PagerView, modifiers: KeyModifiers)
    requires
        !view.help_open,
        view.file_filter_open,
    ensures
        view.event(key_laws::key(KeyCode::PageDown, modifiers)) == key_laws::goes_on(
            key_laws::at_line(
                view,
                key_laws::least(view.offset + key_laws::page(view), key_laws::last_top(view)),
            ),
        ),
        view.event(key_laws::key(KeyCode::PageUp, modifiers)) == key_laws::goes_on(
            key_laws::at_line(view, key_laws::at_least_zero(view.offset - key_laws::page(view))),
        ),
{
}

// ---------------------------------------------------------------------------
// Resizing and recoloring
// ---------------------------------------------------------------------------

/// A screen of another width has the diff rendered anew, to be shown at the file
/// that was at the top; one of another height only moves the lines so far that
/// they fill it. What is on the screen stays at that file.
pub proof fn lemma_resizing(view: PagerView, width: nat, height: nat)
    ensures
        ({
            let sized = PagerView { width, height, ..view };
            if width != view.width || view.lines.len() == 0 {
                view.resized(width, height) matches KeyStep::Rerender { view: before, preferred }
                    && before == sized && is_top_name(view, preferred)
            } else {
                view.resized(width, height) matches KeyStep::Done { handled, view: after }
                    && after == key_laws::within(sized)
            }
        }),
{
    lemma_top_name(view);
}

/// Other colors have the diff rendered anew, to be shown at the file that was at
/// the top; where the colors are the same, nothing happens.
pub proof fn lemma_recoloring(view: PagerView, palette: TintPalette, search_bg: Option<AnsiColor>)
    ensures
        if palette != view.palette || search_bg != view.search_bg {
            view.event(PagerEvent::Focus { palette, search_bg }) matches EventStep::Rerender {
                view: before,
                preferred,
            } && before == (PagerView { palette, search_bg, ..view }) && is_top_name(
                view,
                preferred,
            )
        } else {
            view.event(PagerEvent::Focus { palette, search_bg }) == key_laws::goes_on(view)
        },
{
    lemma_top_name(view);
}

// ---------------------------------------------------------------------------
// Rendering anew
// ---------------------------------------------------------------------------

/// Whether `index` is the first file with the name `name`.
pub open spec fn is_file_named(headers: Seq<HeaderView>, name: Seq<char>, index: int) -> bool {
    &&& 0 <= index < headers.len()
    &&& headers[index].name == name
    &&& forall|j: int| 0 <= j < index ==> (#[trigger] headers[j]).name != name
}

/// The position of a file by its name is that of the first file with the name.
pub proof fn lemma_file_named(headers: Seq<HeaderView>, name: Seq<char>)
    ensures
        view::header_named(headers, name) <= headers.len(),
        view::header_named(headers, name) < headers.len() ==> is_file_named(
            headers,
            name,
            view::header_named(headers, name) as int,
        ),
        view::header_named(headers, name) == headers.len() ==> forall|j: int|
            0 <= j < headers.len() ==> (#[trigger] headers[j]).name != name,
    decreases headers.len(),
{
    if headers.len() > 0 && headers[0].name != name {
        let rest = headers.drop_first();
        lemma_file_named(rest, name);
        let found = view::header_named(headers, name);
        assert forall|j: int| 0 <= j < found && j < headers.len() implies (#[trigger] headers[j]).name
            != name by {
            if j > 0 {
                assert(headers[j] == rest[j - 1]);
            }
        }
        if found < headers.len() {
            assert(headers[found as int] == rest[found - 1]);
        }
    }
}

/// A new rendering takes the place of the old one: its lines, what they show,
/// the files that the filter lets through and where they start. Everything else
/// stays, but for where the lines are.
pub proof fn lemma_new_rendering_is_shown(
    view: PagerView,
    output: Seq<char>,
    layout: PaneLayout,
    preferred: Option<Seq<char>>,
)
    ensures
        ({
            let after = view.with_output(output, layout, preferred);
            &&& after.lines == text::lines(output)
            &&& after.plain_lines.len() == after.lines.len()
            &&& forall|i: int|
                0 <= i < after.lines.len() ==> #[trigger] after.plain_lines[i] == ansi::shown_text(
                    after.lines[i],
                )
            &&& after.visible_files == unified_diff::matching(
                view.all_files,
                view.file_filter_query,
            )
            &&& after.file_headers == files::header_lines(after.plain_lines, after.visible_files)
            &&& after.pane_layout == layout
            &&& after == (PagerView {
                lines: after.lines,
                plain_lines: after.plain_lines,
                visible_files: after.visible_files,
                file_headers: after.file_headers,
                pane_layout: after.pane_layout,
                offset: after.offset,
                horizontal_offset: after.horizontal_offset,
                search: after.search,
                search_message: after.search_message,
                ..view
            })
            &&& !(view.search is Active) ==> after.search == view.search && after.search_message
                == view.search_message
        }),
{
    let after = view.with_output(output, layout, preferred);
    assert(after.plain_lines.len() == after.lines.len());
}

/// Where nothing was searched for, a new rendering is shown at the start of the
/// file that is asked for, or else at that of the first file, as far as the lines
/// allow, and no further to the right than it is wide.
pub proof fn lemma_new_rendering_stays_at_file(
    view: PagerView,
    output: Seq<char>,
    layout: PaneLayout,
    name: Seq<char>,
    index: int,
)
    requires
        !(view.search is Active),
    ensures
        ({
            let after = view.with_output(output, layout, Some(name));
            &&& is_file_named(after.file_headers, name, index) ==> after.offset == key_laws::least(
                after.file_headers[index].line,
                key_laws::last_top(after),
            )
            &&& after.file_headers.len() == 0 ==> after.offset == 0
            &&& after.file_headers.len() > 0 && (forall|j: int|
                0 <= j < after.file_headers.len() ==> (#[trigger] after.file_headers[j]).name
                    != name) ==> after.offset == key_laws::least(
                after.file_headers[0].line,
                key_laws::last_top(after),
            )
            &&& after.horizontal_offset == key_laws::least(
                view.horizontal_offset,
                key_laws::last_column(after),
            )
        }),
        ({
            let after = view.with_output(output, layout, None);
            &&& after.file_headers.len() == 0 ==> after.offset == 0
            &&& after.file_headers.len() > 0 ==> after.offset == key_laws::least(
                after.file_headers[0].line,
                key_laws::last_top(after),
            )
        }),
{
    let after = view.with_output(output, layout, Some(name));
    lemma_file_named(after.file_headers, name);
    if is_file_named(after.file_headers, name, index) {
        let found = view::header_named(after.file_headers, name);
        if found < index {
            assert(after.file_headers[found as int].name != name);
        } else if index < found {
            assert(after.file_headers[index].name != name);
        }
        assert(found == index);
    }
    let other = view.with_output(output, layout, None);
    assert(other.file_headers == after.file_headers);
}

/// Where something was searched for, the search is made again in a new
/// rendering, for the same query; it stays at the match with the same number,
/// or at the last if there are fewer now, with its line on the screen.
pub proof fn lemma_new_rendering_is_searched(
    view: PagerView,
    output: Seq<char>,
    layout: PaneLayout,
    preferred: Option<Seq<char>>,
    query: Seq<char>,
    matches: Seq<search::MatchView>,
    current: nat,
)
    requires
        view.search == (SearchView::Active { query, matches, current }),
        query.len() > 0,
    ensures
        ({
            let after = view.with_output(output, layout, preferred);
            let found = search::all_matches(after.plain_lines, query);
            let at = if found.len() == 0 {
                0
            } else {
                key_laws::least(current, (found.len() - 1) as nat)
            };
            &&& after.search == (SearchView::Active { query, matches: found, current: at })
            &&& after.search_message is None
            &&& found.len() > 0 ==> after.offset == key_laws::least(
                key_laws::at_least_zero(found[at as int].line - key_laws::line_rows(after) / 2),
                key_laws::last_top(after),
            )
        }),
{
    let after = view.with_output(output, layout, preferred);
    search::lemma_matches_are_occurrences(after.plain_lines, query);
}

} // verus!
