//! The lines between two hunks that a diff leaves out.

use crate::text;
use crate::text::copy_texts;
use crate::text::same_text;
use crate::unified_diff;
use crate::unified_diff::Hunk;
use vstd::prelude::*;

verus! {

broadcast use vstd::seq::group_seq_axioms;

/// Which gap: the one above a hunk of a file.
#[derive(Debug, Eq, Hash, PartialEq)]
pub struct GapId {
    pub file_path: String,
    pub hunk_index: usize,
}

/// A gap and the lines that it leaves out.
#[derive(Debug, Eq, PartialEq)]
pub struct GapDescriptor {
    pub id: GapId,
    pub start_line: usize,
    pub line_count: usize,
}

/// What became of a gap that was asked for.
#[derive(Debug, Eq, PartialEq)]
pub enum GapState {
    Loading,
    Expanded(Vec<String>),
}

impl Clone for GapId {
    fn clone(&self) -> (copy: Self)
        ensures
            copy.file_path@ == self.file_path@,
            copy.hunk_index == self.hunk_index,
    {
        GapId { file_path: self.file_path.clone(), hunk_index: self.hunk_index }
    }
}

impl Clone for GapDescriptor {
    fn clone(&self) -> (copy: Self)
        ensures
            copy@ == self@,
    {
        GapDescriptor {
            id: self.id.clone(),
            start_line: self.start_line,
            line_count: self.line_count,
        }
    }
}

impl Clone for GapState {
    fn clone(&self) -> (copy: Self)
        ensures
            copy@ == self@,
    {
        match self {
            GapState::Loading => GapState::Loading,
            GapState::Expanded(lines) => GapState::Expanded(copy_texts(lines)),
        }
    }
}

/// What a [`GapDescriptor`] says.
pub struct GapView {
    pub file_path: Seq<char>,
    pub hunk_index: nat,
    pub start_line: nat,
    pub line_count: nat,
}

/// What a [`GapState`] says.
pub enum GapStateView {
    Loading,
    Expanded(Seq<Seq<char>>),
}

impl View for GapDescriptor {
    type V = GapView;

    open spec fn view(&self) -> GapView {
        GapView {
            file_path: self.id.file_path@,
            hunk_index: self.id.hunk_index as nat,
            start_line: self.start_line as nat,
            line_count: self.line_count as nat,
        }
    }
}

impl View for GapState {
    type V = GapStateView;

    open spec fn view(&self) -> GapStateView {
        match self {
            GapState::Loading => GapStateView::Loading,
            GapState::Expanded(lines) => GapStateView::Expanded(text::texts(lines@)),
        }
    }
}

/// What an optional gap says.
pub open spec fn gap_view(gap: Option<GapDescriptor>) -> Option<GapView> {
    match gap {
        Some(gap) => Some(gap@),
        None => None,
    }
}

/// The gaps that were asked for. A gap that was not is left out.
#[derive(Debug, Eq, PartialEq)]
pub struct GapStates {
    pub entries: Vec<(GapId, GapState)>,
}

/// Whether `id` names the gap above hunk `hunk_index` of the file at `path`.
pub open spec fn names_gap(id: GapId, path: Seq<char>, hunk_index: nat) -> bool {
    id.file_path@ == path && id.hunk_index == hunk_index
}

/// The state of a gap in a list of states: that of the first entry for it.
pub open spec fn gap_state_in(
    entries: Seq<(GapId, GapState)>,
    path: Seq<char>,
    hunk_index: nat,
) -> Option<GapStateView>
    decreases entries.len(),
{
    if entries.len() == 0 {
        None
    } else if names_gap(entries[0].0, path, hunk_index) {
        Some(entries[0].1@)
    } else {
        gap_state_in(entries.drop_first(), path, hunk_index)
    }
}

/// The state of a gap is that of one of the entries.
pub proof fn lemma_state_is_of_entry(
    entries: Seq<(GapId, GapState)>,
    path: Seq<char>,
    hunk_index: nat,
)
    ensures
        gap_state_in(entries, path, hunk_index) matches Some(state) ==> exists|j: int|
            0 <= j < entries.len() && (#[trigger] entries[j]).1@ == state,
    decreases entries.len(),
{
    if entries.len() > 0 {
        let rest = entries.drop_first();
        lemma_state_is_of_entry(rest, path, hunk_index);
        if names_gap(entries[0].0, path, hunk_index) {
            assert(entries[0].1@ == gap_state_in(entries, path, hunk_index)->0);
        } else if gap_state_in(rest, path, hunk_index) is Some {
            let state = gap_state_in(rest, path, hunk_index)->0;
            let j = choose|j: int| 0 <= j < rest.len() && (#[trigger] rest[j]).1@ == state;
            assert(entries[j + 1] == rest[j]);
        }
    }
}

proof fn lemma_gap_state_update(
    entries: Seq<(GapId, GapState)>,
    index: int,
    entry: (GapId, GapState),
    path: Seq<char>,
    hunk_index: nat,
)
    requires
        0 <= index < entries.len(),
        entries[index].0.file_path@ == entry.0.file_path@,
        entries[index].0.hunk_index == entry.0.hunk_index,
        forall|j: int|
            0 <= j < index ==> !names_gap(
                #[trigger] entries[j].0,
                entry.0.file_path@,
                entry.0.hunk_index as nat,
            ),
    ensures
        gap_state_in(entries.update(index, entry), path, hunk_index) == if names_gap(
            entry.0,
            path,
            hunk_index,
        ) {
            Some(entry.1@)
        } else {
            gap_state_in(entries, path, hunk_index)
        },
    decreases entries.len(),
{
    let updated = entries.update(index, entry);
    if index == 0 {
        assert(updated.drop_first() =~= entries.drop_first());
    } else {
        let rest = entries.drop_first();
        assert(updated.drop_first() =~= rest.update(index - 1, entry));
        assert(updated[0] == entries[0]);
        assert forall|j: int| 0 <= j < index - 1 implies !names_gap(
            #[trigger] rest[j].0,
            entry.0.file_path@,
            entry.0.hunk_index as nat,
        ) by {
            assert(rest[j] == entries[j + 1]);
        }
        assert(!names_gap(entries[0].0, entry.0.file_path@, entry.0.hunk_index as nat));
        lemma_gap_state_update(rest, index - 1, entry, path, hunk_index);
    }
}

proof fn lemma_gap_state_push(
    entries: Seq<(GapId, GapState)>,
    entry: (GapId, GapState),
    path: Seq<char>,
    hunk_index: nat,
)
    requires
        forall|j: int|
            0 <= j < entries.len() ==> !names_gap(
                #[trigger] entries[j].0,
                entry.0.file_path@,
                entry.0.hunk_index as nat,
            ),
    ensures
        gap_state_in(entries.push(entry), path, hunk_index) == if names_gap(
            entry.0,
            path,
            hunk_index,
        ) {
            Some(entry.1@)
        } else {
            gap_state_in(entries, path, hunk_index)
        },
    decreases entries.len(),
{
    let pushed = entries.push(entry);
    if entries.len() == 0 {
        assert(pushed.drop_first() =~= entries);
    } else {
        let rest = entries.drop_first();
        assert(pushed.drop_first() =~= rest.push(entry));
        assert(pushed[0] == entries[0]);
        assert forall|j: int| 0 <= j < rest.len() implies !names_gap(
            #[trigger] rest[j].0,
            entry.0.file_path@,
            entry.0.hunk_index as nat,
        ) by {
            assert(rest[j] == entries[j + 1]);
        }
        assert(!names_gap(entries[0].0, entry.0.file_path@, entry.0.hunk_index as nat));
        lemma_gap_state_push(rest, entry, path, hunk_index);
    }
}

impl GapStates {
    /// The state of the gap above hunk `hunk_index` of the file at `path`.
    pub open spec fn state_of(self, path: Seq<char>, hunk_index: nat) -> Option<GapStateView> {
        gap_state_in(self.entries@, path, hunk_index)
    }

    /// No gap was asked for.
    pub fn new() -> (states: GapStates)
        ensures
            states.entries@ == Seq::<(GapId, GapState)>::empty(),
            forall|path: Seq<char>, hunk_index: nat|
                #[trigger] states.state_of(path, hunk_index) is None,
    {
        GapStates { entries: Vec::new() }
    }

    /// Sets the state of one gap, and of no other.
    pub fn insert(&mut self, id: GapId, state: GapState)
        ensures
            forall|path: Seq<char>, hunk_index: nat|
                #[trigger] final(self).state_of(path, hunk_index) == if names_gap(
                    id,
                    path,
                    hunk_index,
                ) {
                    Some(state@)
                } else {
                    old(self).state_of(path, hunk_index)
                },
            forall|j: int|
                0 <= j < final(self).entries@.len() ==> #[trigger] final(self).entries@[j] == (
                    id,
                    state,
                ) || exists|k: int|
                    0 <= k < old(self).entries@.len() && #[trigger] old(self).entries@[k]
                        == final(self).entries@[j],
    {
        let ghost before = self.entries@;
        let ghost entry = (id, state);
        let mut index: usize = 0;
        while index < self.entries.len()
            invariant
                index <= self.entries@.len(),
                self.entries@ == before,
                before == old(self).entries@,
                entry == (id, state),
                forall|j: int|
                    0 <= j < index ==> !names_gap(
                        #[trigger] before[j].0,
                        id.file_path@,
                        id.hunk_index as nat,
                    ),
            decreases self.entries@.len() - index,
        {
            if self.entries[index].0.hunk_index == id.hunk_index && same_text(
                self.entries[index].0.file_path.as_str(),
                id.file_path.as_str(),
            ) {
                self.entries.set(index, (id, state));
                proof {
                    assert forall|path: Seq<char>, hunk_index: nat|
                        #[trigger] self.state_of(path, hunk_index) == if names_gap(
                            id,
                            path,
                            hunk_index,
                        ) {
                            Some(state@)
                        } else {
                            gap_state_in(before, path, hunk_index)
                        } by {
                        lemma_gap_state_update(before, index as int, entry, path, hunk_index);
                    }
                }
                return;
            }
            index += 1;
        }
        self.entries.push((id, state));
        proof {
            assert forall|path: Seq<char>, hunk_index: nat|
                #[trigger] self.state_of(path, hunk_index) == if names_gap(id, path, hunk_index) {
                    Some(state@)
                } else {
                    gap_state_in(before, path, hunk_index)
                } by {
                lemma_gap_state_push(before, entry, path, hunk_index);
            }
        }
    }

    /// The state of one gap, if it was asked for.
    pub fn get(&self, id: &GapId) -> (state: Option<&GapState>)
        ensures
            self.state_of(id.file_path@, id.hunk_index as nat) == match state {
                Some(state) => Some(state@),
                None => None,
            },
            state matches Some(state) ==> exists|j: int|
                0 <= j < self.entries@.len() && *state == (#[trigger] self.entries@[j]).1,
    {
        let mut index: usize = 0;
        assert(self.entries@.skip(0) =~= self.entries@);
        while index < self.entries.len()
            invariant
                index <= self.entries@.len(),
                self.state_of(id.file_path@, id.hunk_index as nat) == gap_state_in(
                    self.entries@.skip(index as int),
                    id.file_path@,
                    id.hunk_index as nat,
                ),
            decreases self.entries@.len() - index,
        {
            assert(self.entries@.skip(index as int).drop_first() =~= self.entries@.skip(index + 1));
            if self.entries[index].0.hunk_index == id.hunk_index && same_text(
                self.entries[index].0.file_path.as_str(),
                id.file_path.as_str(),
            ) {
                return Some(&self.entries[index].1);
            }
            index += 1;
        }
        None
    }
}

/// The number of the last line on the right of a hunk.
pub open spec fn last_line(hunk: unified_diff::HunkView) -> nat {
    if hunk.new_len == 0 {
        if hunk.new_start == 0 {
            0
        } else {
            (hunk.new_start - 1) as nat
        }
    } else {
        (hunk.new_start + hunk.new_len - 1) as nat
    }
}

/// The number of the first line that can be left out below `previous`, or at
/// the top of the file.
pub open spec fn gap_start(previous: Option<unified_diff::HunkView>) -> nat {
    match previous {
        None => 1,
        Some(previous) => last_line(previous) + 1,
    }
}

/// The first line and the number of lines that are left out between `previous`
/// and `hunk`, if there are any.
pub open spec fn omitted(
    previous: Option<unified_diff::HunkView>,
    hunk: unified_diff::HunkView,
) -> Option<(nat, nat)> {
    let start = gap_start(previous);
    if hunk.new_start <= start {
        None
    } else {
        Some((start, (hunk.new_start - start) as nat))
    }
}

/// The number of the last line on the right of `hunk`.
pub fn hunk_end(hunk: &Hunk) -> (line: usize)
    requires
        hunk.new_start + hunk.new_len <= usize::MAX,
    ensures
        line == last_line(hunk@),
{
    if hunk.new_len == 0 {
        hunk.new_start.saturating_sub(1)
    } else {
        hunk.new_start + hunk.new_len - 1
    }
}

/// The first line and the number of lines that are left out above `hunk`.
pub fn omitted_range_above(previous: Option<&Hunk>, hunk: &Hunk) -> (range: Option<(usize, usize)>)
    requires
        previous matches Some(previous) ==> previous.new_start + previous.new_len <= usize::MAX,
    ensures
        omitted(
            match previous {
                Some(previous) => Some(previous@),
                None => None,
            },
            hunk@,
        ) == match range {
            Some((start, count)) => Some((start as nat, count as nat)),
            None => None,
        },
{
    let start_line: usize = match previous {
        None => 1,
        Some(previous) => hunk_end(previous) + 1,
    };
    let line_count: usize = hunk.new_start.saturating_sub(start_line);
    if line_count == 0 {
        None
    } else {
        Some((start_line, line_count))
    }
}

/// A gap that is reported starts at line one or later and ends right above the
/// hunk that it belongs to.
pub proof fn lemma_gap_ends_at_hunk(
    previous: Option<unified_diff::HunkView>,
    hunk: unified_diff::HunkView,
)
    ensures
        omitted(previous, hunk) matches Some((start, count)) ==> start >= 1 && count >= 1
            && start + count == hunk.new_start,
        omitted(previous, hunk) is None <==> hunk.new_start <= gap_start(previous),
{
}

} // verus!
