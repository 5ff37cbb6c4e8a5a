//! The files of a diff: which of them are shown, and where.

use crate::text;
use crate::text::contains_text;
use crate::text::same_text;
use crate::unified_diff;
use vstd::prelude::*;

verus! {

broadcast use vstd::seq::group_seq_axioms;

/// The line at which a file starts.
#[derive(Clone, Debug, Eq, PartialEq)]
pub struct FileHeaderLine {
    pub name: String,
    pub line: usize,
}

/// What a [`FileHeaderLine`] says.
pub struct HeaderView {
    pub name: Seq<char>,
    pub line: nat,
}

impl View for FileHeaderLine {
    type V = HeaderView;

    open spec fn view(&self) -> HeaderView {
        HeaderView { name: self.name@, line: self.line as nat }
    }
}

/// What a list of headers says.
pub open spec fn header_views(headers: Seq<FileHeaderLine>) -> Seq<HeaderView> {
    headers.map_values(|header: FileHeaderLine| header@)
}

/// The files whose path holds `query`.
pub fn filter_file_names(files: &[String], query: &str) -> (names: Vec<String>)
    ensures
        text::texts(names@) == unified_diff::matching(text::texts(files@), query@),
{
    let mut names: Vec<String> = Vec::new();
    let ghost list = text::texts(files@);
    let mut index: usize = 0;
    assert(list.take(0) =~= Seq::<Seq<char>>::empty());
    assert(text::texts(names@) =~= Seq::<Seq<char>>::empty());
    while index < files.len()
        invariant
            index <= files@.len(),
            list == text::texts(files@),
            text::texts(names@) == unified_diff::matching(list.take(index as int), query@),
        decreases files@.len() - index,
    {
        let ghost before = text::texts(names@);
        assert(list.take(index + 1).drop_last() =~= list.take(index as int));
        assert(list[index as int] == files@[index as int]@);
        if contains_text(files[index].as_str(), query) {
            names.push(files[index].clone());
            assert(text::texts(names@) =~= before.push(files@[index as int]@));
        }
        index += 1;
    }
    assert(list.take(index as int) =~= list);
    names
}

/// Where the files start: each at the first line behind the header of the file
/// before it that is nothing but its path.
pub open spec fn header_lines(list: Seq<Seq<char>>, files: Seq<Seq<char>>) -> Seq<HeaderView>
    decreases list.len(),
{
    if list.len() == 0 {
        Seq::empty()
    } else {
        let before = header_lines(list.drop_last(), files);
        if before.len() < files.len() && list.last() == files[before.len() as int] {
            before.push(HeaderView { name: list.last(), line: (list.len() - 1) as nat })
        } else {
            before
        }
    }
}

/// Finds where the files start.
pub fn build_file_header_lines(
    plain_lines: &[String],
    visible_files: &[String],
) -> (headers: Vec<FileHeaderLine>)
    ensures
        header_views(headers@) == header_lines(
            text::texts(plain_lines@),
            text::texts(visible_files@),
        ),
{
    let mut headers: Vec<FileHeaderLine> = Vec::new();
    let ghost list = text::texts(plain_lines@);
    let ghost files = text::texts(visible_files@);
    let mut index: usize = 0;
    assert(list.take(0) =~= Seq::<Seq<char>>::empty());
    assert(header_views(headers@) =~= Seq::<HeaderView>::empty());
    while index < plain_lines.len()
        invariant
            index <= plain_lines@.len(),
            list == text::texts(plain_lines@),
            files == text::texts(visible_files@),
            header_views(headers@) == header_lines(list.take(index as int), files),
        decreases plain_lines@.len() - index,
    {
        let ghost before = header_views(headers@);
        assert(list.take(index + 1).drop_last() =~= list.take(index as int));
        assert(list[index as int] == plain_lines@[index as int]@);
        let next_file = headers.len();
        assert(before.len() == next_file);
        if next_file < visible_files.len() && same_text(
            plain_lines[index].as_str(),
            visible_files[next_file].as_str(),
        ) {
            assert(files[next_file as int] == visible_files@[next_file as int]@);
            let header = FileHeaderLine { name: visible_files[next_file].clone(), line: index };
            headers.push(header);
            assert(header_views(headers@) =~= before.push(header@));
        }
        index += 1;
    }
    assert(list.take(index as int) =~= list);
    headers
}

/// The headers that are found are those of the first files, in their order;
/// each stands at a line that is its path, and each below the one before.
pub proof fn lemma_header_lines(list: Seq<Seq<char>>, files: Seq<Seq<char>>)
    ensures
        header_lines(list, files).len() <= files.len(),
        forall|i: int|
            0 <= i < header_lines(list, files).len() ==> {
                &&& (#[trigger] header_lines(list, files)[i]).name == files[i]
                &&& header_lines(list, files)[i].line < list.len()
                &&& list[header_lines(list, files)[i].line as int] == files[i]
            },
        forall|i: int, j: int|
            0 <= i < j < header_lines(list, files).len() ==> (#[trigger] header_lines(
                list,
                files,
            )[i]).line < (#[trigger] header_lines(list, files)[j]).line,
    decreases list.len(),
{
    if list.len() > 0 {
        let fewer = list.drop_last();
        lemma_header_lines(fewer, files);
        let before = header_lines(fewer, files);
        let all = header_lines(list, files);
        assert forall|i: int| 0 <= i < all.len() implies {
            &&& (#[trigger] all[i]).name == files[i]
            &&& all[i].line < list.len()
            &&& list[all[i].line as int] == files[i]
        } by {
            if i < before.len() {
                assert(all[i] == before[i]);
                assert(fewer[before[i].line as int] == list[before[i].line as int]);
            }
        }
        assert forall|i: int, j: int| 0 <= i < j < all.len() implies (#[trigger] all[i]).line < (
        #[trigger] all[j]).line by {
            assert(all[i] == before[i]);
            if j < before.len() {
                assert(all[j] == before[j]);
            }
        }
    }
}

/// No file is missed: where the paths of all files stand in the lines, one
/// below the other, all of their headers are found, each no further down than
/// the line given for it.
pub proof fn lemma_all_headers_are_found(
    list: Seq<Seq<char>>,
    files: Seq<Seq<char>>,
    places: Seq<int>,
)
    requires
        places.len() <= files.len(),
        forall|i: int|
            0 <= i < places.len() ==> 0 <= #[trigger] places[i] < list.len() && list[places[i]]
                == files[i],
        forall|i: int, j: int|
            0 <= i < j < places.len() ==> #[trigger] places[i] < #[trigger] places[j],
    ensures
        header_lines(list, files).len() >= places.len(),
        forall|i: int|
            0 <= i < places.len() ==> (#[trigger] header_lines(list, files)[i]).line <= places[i],
    decreases list.len(),
{
    if places.len() > 0 {
        let fewer = list.drop_last();
        let before = header_lines(fewer, files);
        let all = header_lines(list, files);
        let last = places[places.len() - 1];
        let shorter = if last == list.len() - 1 {
            places.drop_last()
        } else {
            places
        };
        assert forall|i: int| 0 <= i < shorter.len() implies 0 <= #[trigger] shorter[i]
            < fewer.len() && fewer[shorter[i]] == files[i] by {
            assert(shorter[i] == places[i]);
            if i < places.len() - 1 {
                assert(places[i] < places[places.len() - 1]);
            }
        }
        assert forall|i: int, j: int| 0 <= i < j < shorter.len() implies #[trigger] shorter[i]
            < #[trigger] shorter[j] by {
            assert(shorter[i] == places[i] && shorter[j] == places[j]);
        }
        lemma_all_headers_are_found(fewer, files, shorter);
        assert forall|i: int| 0 <= i < places.len() implies i < all.len() && (#[trigger] all[i]).line
            <= places[i] by {
            if i < before.len() {
                assert(all[i] == before[i]);
                if i < shorter.len() {
                    assert(shorter[i] == places[i]);
                } else {
                    lemma_header_lines(fewer, files);
                    assert(before[i].line < fewer.len());
                }
            }
        }
    }
}

} // verus!
