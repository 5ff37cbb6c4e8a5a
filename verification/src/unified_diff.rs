//! Reading the output of a diff command in the unified format.

use crate::text;
use crate::text::char_list;
use crate::text::contains_text;
use crate::text::find_from;
use crate::text::read_number;
use crate::text::same_text;
use crate::text::slice_text;
use crate::text::split_lines;
use crate::text::split_text;
use vstd::prelude::*;

verus! {

broadcast use vstd::seq::group_seq_axioms;

/// A diff: what it says, in the order in which it says it.
#[derive(Debug)]
pub struct Document {
    pub items: Vec<Item>,
}

/// One piece of a diff.
#[derive(Debug)]
pub enum Item {
    /// The path of the file that the following items belong to.
    FileHeader(String),
    /// A line outside any hunk.
    Meta(String),
    Hunk(Hunk),
}

/// A run of lines that the two sides are compared in.
#[derive(Debug)]
pub struct Hunk {
    /// The line that opens the hunk, or an empty text.
    pub header: String,
    /// The number of the first line on the left.
    pub old_start: usize,
    /// The number of the first line on the right.
    pub new_start: usize,
    /// The number of lines on the right.
    pub new_len: usize,
    pub rows: Vec<Row>,
}

/// A line of a hunk, or two that stand side by side.
#[derive(Debug, Eq, PartialEq)]
pub enum Row {
    Context(String),
    Delete(String),
    Insert(String),
    Change { old: String, new: String },
    Annotation(String),
}

/// A line of a hunk as the diff has it.
pub enum RawRow {
    Context(String),
    Delete(String),
    Insert(String),
    Annotation(String),
}

// ---------------------------------------------------------------------------
// Models
// ---------------------------------------------------------------------------

/// What a [`Row`] says.
pub enum RowView {
    Context(Seq<char>),
    Delete(Seq<char>),
    Insert(Seq<char>),
    Change { old: Seq<char>, new: Seq<char> },
    Annotation(Seq<char>),
}

/// What a [`RawRow`] says.
pub enum RawRowView {
    Context(Seq<char>),
    Delete(Seq<char>),
    Insert(Seq<char>),
    Annotation(Seq<char>),
}

/// What a [`Hunk`] says.
pub struct HunkView {
    pub header: Seq<char>,
    pub old_start: nat,
    pub new_start: nat,
    pub new_len: nat,
    pub rows: Seq<RowView>,
}

/// What an [`Item`] says.
pub enum ItemView {
    FileHeader(Seq<char>),
    Meta(Seq<char>),
    Hunk(HunkView),
}

impl View for Row {
    type V = RowView;

    open spec fn view(&self) -> RowView {
        match self {
            Row::Context(line) => RowView::Context(line@),
            Row::Delete(line) => RowView::Delete(line@),
            Row::Insert(line) => RowView::Insert(line@),
            Row::Change { old, new } => RowView::Change { old: old@, new: new@ },
            Row::Annotation(line) => RowView::Annotation(line@),
        }
    }
}

impl View for RawRow {
    type V = RawRowView;

    open spec fn view(&self) -> RawRowView {
        match self {
            RawRow::Context(line) => RawRowView::Context(line@),
            RawRow::Delete(line) => RawRowView::Delete(line@),
            RawRow::Insert(line) => RawRowView::Insert(line@),
            RawRow::Annotation(line) => RawRowView::Annotation(line@),
        }
    }
}

/// What a list of rows says.
pub open spec fn row_views(rows: Seq<Row>) -> Seq<RowView> {
    rows.map_values(|row: Row| row@)
}

/// What a list of raw rows says.
pub open spec fn raw_row_views(rows: Seq<RawRow>) -> Seq<RawRowView> {
    rows.map_values(|row: RawRow| row@)
}

impl View for Hunk {
    type V = HunkView;

    open spec fn view(&self) -> HunkView {
        HunkView {
            header: self.header@,
            old_start: self.old_start as nat,
            new_start: self.new_start as nat,
            new_len: self.new_len as nat,
            rows: row_views(self.rows@),
        }
    }
}

impl View for Item {
    type V = ItemView;

    open spec fn view(&self) -> ItemView {
        match self {
            Item::FileHeader(path) => ItemView::FileHeader(path@),
            Item::Meta(line) => ItemView::Meta(line@),
            Item::Hunk(hunk) => ItemView::Hunk(hunk@),
        }
    }
}

/// What a list of items says.
pub open spec fn item_views(items: Seq<Item>) -> Seq<ItemView> {
    items.map_values(|item: Item| item@)
}

impl View for Document {
    type V = Seq<ItemView>;

    open spec fn view(&self) -> Seq<ItemView> {
        item_views(self.items@)
    }
}

// ---------------------------------------------------------------------------
// Rows
// ---------------------------------------------------------------------------

/// The lines that a block of changes took away and put in, side by side as far
/// as both last.
pub open spec fn change_block(deleted: Seq<Seq<char>>, inserted: Seq<Seq<char>>) -> Seq<RowView> {
    Seq::new(
        if deleted.len() > inserted.len() {
            deleted.len()
        } else {
            inserted.len()
        },
        |i: int|
            if i < deleted.len() && i < inserted.len() {
                RowView::Change { old: deleted[i], new: inserted[i] }
            } else if i < deleted.len() {
                RowView::Delete(deleted[i])
            } else {
                RowView::Insert(inserted[i])
            },
    )
}

/// The rows built so far, and the lines of the block of changes that is open.
pub struct RowsInProgress {
    pub rows: Seq<RowView>,
    pub deleted: Seq<Seq<char>>,
    pub inserted: Seq<Seq<char>>,
}

impl RowsInProgress {
    /// The rows with the open block of changes closed.
    pub open spec fn closed(self) -> Seq<RowView> {
        self.rows + change_block(self.deleted, self.inserted)
    }

    /// The state after one more row that is no change.
    pub open spec fn ended_by(self, row: RowView) -> RowsInProgress {
        RowsInProgress {
            rows: self.closed().push(row),
            deleted: Seq::empty(),
            inserted: Seq::empty(),
        }
    }
}

/// How far the rows are after the lines `raw`: a block of changes is a run of
/// deleted and inserted lines in any order.
pub open spec fn rows_in_progress(raw: Seq<RawRowView>) -> RowsInProgress
    decreases raw.len(),
{
    if raw.len() == 0 {
        RowsInProgress { rows: Seq::empty(), deleted: Seq::empty(), inserted: Seq::empty() }
    } else {
        let before = rows_in_progress(raw.drop_last());
        match raw.last() {
            RawRowView::Context(line) => before.ended_by(RowView::Context(line)),
            RawRowView::Annotation(line) => before.ended_by(RowView::Annotation(line)),
            RawRowView::Delete(line) => RowsInProgress {
                deleted: before.deleted.push(line),
                ..before
            },
            RawRowView::Insert(line) => RowsInProgress {
                inserted: before.inserted.push(line),
                ..before
            },
        }
    }
}

/// The rows of a hunk whose lines are `raw`.
pub open spec fn rows_of(raw: Seq<RawRowView>) -> Seq<RowView> {
    rows_in_progress(raw).closed()
}

/// Appends the rows of a block of changes and empties the block.
fn flush_change_block(rows: &mut Vec<Row>, deleted: &mut Vec<String>, inserted: &mut Vec<String>)
    ensures
        row_views(final(rows)@) == row_views(old(rows)@) + change_block(
            text::texts(old(deleted)@),
            text::texts(old(inserted)@),
        ),
        final(deleted)@ == Seq::<String>::empty(),
        final(inserted)@ == Seq::<String>::empty(),
{
    let ghost start = row_views(rows@);
    let ghost block = change_block(text::texts(deleted@), text::texts(inserted@));
    let len: usize = if deleted.len() > inserted.len() {
        deleted.len()
    } else {
        inserted.len()
    };
    let mut index: usize = 0;
    assert(row_views(rows@) =~= start + block.take(0));
    while index < len
        invariant
            index <= len,
            len == block.len(),
            deleted@ == old(deleted)@,
            inserted@ == old(inserted)@,
            block == change_block(text::texts(deleted@), text::texts(inserted@)),
            row_views(rows@) == start + block.take(index as int),
        decreases len - index,
    {
        let row = if index < deleted.len() && index < inserted.len() {
            Row::Change { old: deleted[index].clone(), new: inserted[index].clone() }
        } else if index < deleted.len() {
            Row::Delete(deleted[index].clone())
        } else {
            Row::Insert(inserted[index].clone())
        };
        let ghost before = rows@;
        assert(row@ == block[index as int]);
        rows.push(row);
        assert(row_views(rows@) =~= row_views(before).push(row@));
        index += 1;
        assert(block.take(index as int) =~= block.take(index - 1).push(block[index - 1]));
        assert(row_views(rows@) =~= start + block.take(index as int));
    }
    assert(block.take(len as int) =~= block);
    deleted.clear();
    inserted.clear();
}

/// Builds the rows of a hunk from its lines: deleted and inserted lines of one
/// block of changes stand side by side.
pub fn build_rows(raw_rows: &Vec<RawRow>) -> (rows: Vec<Row>)
    ensures
        row_views(rows@) == rows_of(raw_row_views(raw_rows@)),
{
    let mut rows: Vec<Row> = Vec::new();
    let mut deleted: Vec<String> = Vec::new();
    let mut inserted: Vec<String> = Vec::new();
    let ghost raw = raw_row_views(raw_rows@);
    let mut index: usize = 0;
    assert(row_views(rows@) =~= Seq::<RowView>::empty());
    assert(text::texts(deleted@) =~= Seq::<Seq<char>>::empty());
    assert(text::texts(inserted@) =~= Seq::<Seq<char>>::empty());
    assert(raw.take(0) =~= Seq::<RawRowView>::empty());
    while index < raw_rows.len()
        invariant
            index <= raw_rows@.len(),
            raw == raw_row_views(raw_rows@),
            row_views(rows@) == rows_in_progress(raw.take(index as int)).rows,
            text::texts(deleted@) == rows_in_progress(raw.take(index as int)).deleted,
            text::texts(inserted@) == rows_in_progress(raw.take(index as int)).inserted,
        decreases raw_rows@.len() - index,
    {
        let ghost next = raw.take(index + 1);
        assert(next.drop_last() =~= raw.take(index as int));
        assert(next.last() == raw_rows@[index as int]@);
        match &raw_rows[index] {
            RawRow::Context(line) => {
                flush_change_block(&mut rows, &mut deleted, &mut inserted);
                let ghost before = rows@;
                rows.push(Row::Context(line.clone()));
                assert(row_views(rows@) =~= row_views(before).push(RowView::Context(line@)));
                assert(text::texts(deleted@) =~= Seq::<Seq<char>>::empty());
                assert(text::texts(inserted@) =~= Seq::<Seq<char>>::empty());
            },
            RawRow::Delete(line) => {
                let ghost before = deleted@;
                deleted.push(line.clone());
                assert(text::texts(deleted@) =~= text::texts(before).push(line@));
            },
            RawRow::Insert(line) => {
                let ghost before = inserted@;
                inserted.push(line.clone());
                assert(text::texts(inserted@) =~= text::texts(before).push(line@));
            },
            RawRow::Annotation(line) => {
                flush_change_block(&mut rows, &mut deleted, &mut inserted);
                let ghost before = rows@;
                rows.push(Row::Annotation(line.clone()));
                assert(row_views(rows@) =~= row_views(before).push(RowView::Annotation(line@)));
                assert(text::texts(deleted@) =~= Seq::<Seq<char>>::empty());
                assert(text::texts(inserted@) =~= Seq::<Seq<char>>::empty());
            },
        }
        index += 1;
    }
    assert(raw.take(index as int) =~= raw);
    flush_change_block(&mut rows, &mut deleted, &mut inserted);
    rows
}

// ---------------------------------------------------------------------------
// Hunk headers
// ---------------------------------------------------------------------------

/// The first line and the number of lines that `part` writes behind `sign`: a
/// number, or two with a comma between them; a number of lines that is left
/// out is one.
pub open spec fn range_of(part: Seq<char>, sign: char) -> Option<(nat, nat)> {
    if part.len() == 0 || part[0] != sign {
        None
    } else {
        let body = part.drop_first();
        let comma = text::find_char(body, ',');
        let start = text::parse_number(body.take(comma as int), usize::MAX as nat);
        let len = if comma < body.len() {
            text::parse_number(body.skip(comma as int + 1), usize::MAX as nat)
        } else {
            Some(1nat)
        };
        match (start, len) {
            (Some(start), Some(len)) => Some((start, len)),
            _ => None,
        }
    }
}

/// The first line on the left, the first line on the right and the number of
/// lines on the right that a hunk header states, as in `@@ -1,2 +3,4 @@`.
pub open spec fn hunk_numbers(header: Seq<char>) -> Option<(nat, nat, nat)> {
    let words = text::split(header, ' ');
    if words.len() >= 4 && words[0] == "@@"@ && words[3] == "@@"@ {
        match (range_of(words[1], '-'), range_of(words[2], '+')) {
            (Some((old_start, _)), Some((new_start, new_len))) => Some(
                (old_start, new_start, new_len),
            ),
            _ => None,
        }
    } else {
        None
    }
}

/// Reads the numbers that `part` writes behind `sign`.
fn parse_range(part: &str, sign: char) -> (range: Option<(usize, usize)>)
    ensures
        match range {
            Some((start, len)) => range_of(part@, sign) == Some((start as nat, len as nat)),
            None => range_of(part@, sign) is None,
        },
{
    let chars = char_list(part);
    if chars.len() == 0 || chars[0] != sign {
        return None;
    }
    let ghost body = part@.drop_first();
    assert(chars@.skip(1) =~= body);
    let comma = find_from(&chars, 1, ',');
    let start = read_number(&chars, 1, comma, usize::MAX);
    assert(chars@.subrange(1, comma as int) =~= body.take(comma - 1));
    let len = if comma < chars.len() {
        assert(chars@.subrange(comma + 1, chars@.len() as int) =~= body.skip(comma as int));
        read_number(&chars, comma + 1, chars.len(), usize::MAX)
    } else {
        Some(1)
    };
    match (start, len) {
        (Some(start), Some(len)) => Some((start, len)),
        _ => None,
    }
}

/// Reads the numbers that a hunk header states.
pub fn parse_hunk_header(header: &str) -> (numbers: Option<(usize, usize, usize)>)
    ensures
        match numbers {
            Some((old_start, new_start, new_len)) => hunk_numbers(header@) == Some(
                (old_start as nat, new_start as nat, new_len as nat),
            ),
            None => hunk_numbers(header@) is None,
        },
{
    let words = split_text(header, ' ');
    let ghost split = text::split(header@, ' ');
    assert(forall|i: int| 0 <= i < words@.len() ==> words@[i]@ == #[trigger] split[i]);
    if words.len() < 4 || !same_text(words[0].as_str(), "@@") || !same_text(
        words[3].as_str(),
        "@@",
    ) {
        return None;
    }
    match (parse_range(words[1].as_str(), '-'), parse_range(words[2].as_str(), '+')) {
        (Some((old_start, _)), Some((new_start, new_len))) => Some((old_start, new_start, new_len)),
        _ => None,
    }
}

/// The hunk that opens with `header` and holds the lines `raw`. Numbers that
/// the header does not state are zero.
pub open spec fn hunk_of(header: Seq<char>, raw: Seq<RawRowView>) -> HunkView {
    let numbers = match hunk_numbers(header) {
        Some(numbers) => numbers,
        None => (0, 0, 0),
    };
    HunkView {
        header,
        old_start: numbers.0,
        new_start: numbers.1,
        new_len: numbers.2,
        rows: rows_of(raw),
    }
}

// ---------------------------------------------------------------------------
// Documents
// ---------------------------------------------------------------------------

/// The items read so far, and the hunk that is open.
pub struct ParseState {
    pub items: Seq<ItemView>,
    pub header: Option<Seq<char>>,
    pub raw: Seq<RawRowView>,
}

/// The state before the first line.
pub open spec fn parse_start() -> ParseState {
    ParseState { items: Seq::empty(), header: None, raw: Seq::empty() }
}

/// How a line of a hunk is read, by its first character; none if it is no
/// line of a hunk.
pub open spec fn raw_row_of(line: Seq<char>) -> Option<RawRowView> {
    if line.len() == 0 {
        None
    } else if line[0] == ' ' {
        Some(RawRowView::Context(line.drop_first()))
    } else if line[0] == '-' {
        Some(RawRowView::Delete(line.drop_first()))
    } else if line[0] == '+' {
        Some(RawRowView::Insert(line.drop_first()))
    } else if line[0] == '\\' {
        Some(RawRowView::Annotation(line))
    } else {
        None
    }
}

/// Whether `line` opens a hunk.
pub open spec fn opens_hunk(line: Seq<char>) -> bool {
    line.len() >= 2 && line[0] == '@' && line[1] == '@'
}

impl ParseState {
    /// The state with the open hunk, if there is one, closed.
    pub open spec fn closed(self) -> ParseState {
        match self.header {
            Some(header) => ParseState {
                items: self.items.push(ItemView::Hunk(hunk_of(header, self.raw))),
                header: None,
                raw: Seq::empty(),
            },
            None => ParseState { raw: Seq::empty(), ..self },
        }
    }

    /// The state with one more line outside any hunk.
    pub open spec fn with_meta(self, line: Seq<char>) -> ParseState {
        ParseState { items: self.items.push(ItemView::Meta(line)), ..self }
    }

    /// The state after `line`.
    pub open spec fn after(self, line: Seq<char>) -> ParseState {
        if opens_hunk(line) {
            ParseState { header: Some(line), ..self.closed() }
        } else if self.header is None {
            self.with_meta(line)
        } else {
            match raw_row_of(line) {
                Some(row) => ParseState { raw: self.raw.push(row), ..self },
                None => self.closed().with_meta(line),
            }
        }
    }
}

/// The state after all of `lines`.
pub open spec fn parse_state(lines: Seq<Seq<char>>) -> ParseState
    decreases lines.len(),
{
    if lines.len() == 0 {
        parse_start()
    } else {
        parse_state(lines.drop_last()).after(lines.last())
    }
}

/// What `input` says as a diff.
pub open spec fn parsed(input: Seq<char>) -> Seq<ItemView> {
    parse_state(text::lines(input)).closed().items
}

/// Closes the open hunk, if there is one.
fn flush_hunk(items: &mut Vec<Item>, header: &mut Option<String>, raw_rows: &mut Vec<RawRow>)
    ensures
        ({
            let before = ParseState {
                items: item_views(old(items)@),
                header: match *old(header) {
                    Some(header) => Some(header@),
                    None => None,
                },
                raw: raw_row_views(old(raw_rows)@),
            };
            &&& item_views(final(items)@) == before.closed().items
            &&& *final(header) is None
            &&& raw_row_views(final(raw_rows)@) == before.closed().raw
        }),
{
    let ghost items_before = items@;
    match header.take() {
        Some(line) => {
            let rows = build_rows(raw_rows);
            let (old_start, new_start, new_len) = match parse_hunk_header(line.as_str()) {
                Some(numbers) => numbers,
                None => (0, 0, 0),
            };
            let hunk = Hunk { header: line, old_start, new_start, new_len, rows };
            assert(hunk@ == hunk_of(line@, raw_row_views(raw_rows@)));
            items.push(Item::Hunk(hunk));
            assert(item_views(items@) =~= item_views(items_before).push(ItemView::Hunk(hunk@)));
        },
        None => {},
    }
    raw_rows.clear();
    assert(raw_row_views(raw_rows@) =~= Seq::<RawRowView>::empty());
}

/// Reads a diff.
pub fn parse(input: &str) -> (document: Document)
    ensures
        document@ == parsed(input@),
{
    let list = split_lines(input);
    let ghost lines = text::lines(input@);
    let mut items: Vec<Item> = Vec::new();
    let mut header: Option<String> = None;
    let mut raw_rows: Vec<RawRow> = Vec::new();
    let mut index: usize = 0;
    assert(item_views(items@) =~= Seq::<ItemView>::empty());
    assert(raw_row_views(raw_rows@) =~= Seq::<RawRowView>::empty());
    assert(lines.take(0) =~= Seq::<Seq<char>>::empty());
    while index < list.len()
        invariant
            index <= list@.len(),
            lines == text::texts(list@),
            item_views(items@) == parse_state(lines.take(index as int)).items,
            parse_state(lines.take(index as int)).header == match header {
                Some(line) => Some(line@),
                None => None,
            },
            raw_row_views(raw_rows@) == parse_state(lines.take(index as int)).raw,
        decreases list@.len() - index,
    {
        let ghost next = lines.take(index + 1);
        assert(next.drop_last() =~= lines.take(index as int));
        let line = &list[index];
        assert(next.last() == line@);
        let chars = char_list(line.as_str());
        let opens = chars.len() >= 2 && chars[0] == '@' && chars[1] == '@';
        if opens {
            flush_hunk(&mut items, &mut header, &mut raw_rows);
            header = Some(line.clone());
        } else {
            let mut outside = true;
            if header.is_some() {
                let ghost raw_before = raw_rows@;
                if chars.len() > 0 && (chars[0] == ' ' || chars[0] == '-' || chars[0] == '+') {
                    let content = slice_text(&chars, 1, chars.len());
                    assert(content@ =~= line@.drop_first());
                    let row = if chars[0] == ' ' {
                        RawRow::Context(content)
                    } else if chars[0] == '-' {
                        RawRow::Delete(content)
                    } else {
                        RawRow::Insert(content)
                    };
                    raw_rows.push(row);
                    assert(raw_row_views(raw_rows@) =~= raw_row_views(raw_before).push(row@));
                    outside = false;
                } else if chars.len() > 0 && chars[0] == '\\' {
                    let row = RawRow::Annotation(line.clone());
                    raw_rows.push(row);
                    assert(raw_row_views(raw_rows@) =~= raw_row_views(raw_before).push(row@));
                    outside = false;
                } else {
                    flush_hunk(&mut items, &mut header, &mut raw_rows);
                }
            }
            if outside {
                let ghost items_before = items@;
                items.push(Item::Meta(line.clone()));
                assert(item_views(items@) =~= item_views(items_before).push(ItemView::Meta(line@)));
            }
        }
        index += 1;
    }
    assert(lines.take(index as int) =~= lines);
    flush_hunk(&mut items, &mut header, &mut raw_rows);
    Document { items }
}

// ---------------------------------------------------------------------------
// Files
// ---------------------------------------------------------------------------

/// The paths of the file headers, in order.
pub open spec fn header_paths(items: Seq<ItemView>) -> Seq<Seq<char>>
    decreases items.len(),
{
    if items.len() == 0 {
        Seq::empty()
    } else {
        let before = header_paths(items.drop_last());
        match items.last() {
            ItemView::FileHeader(path) => before.push(path),
            _ => before,
        }
    }
}

/// The path of the file that the last of `items` belongs to: that of the last
/// file header, or an empty path before the first.
pub open spec fn section_path(items: Seq<ItemView>) -> Seq<char>
    decreases items.len(),
{
    if items.len() == 0 {
        Seq::empty()
    } else {
        match items.last() {
            ItemView::FileHeader(path) => path,
            _ => section_path(items.drop_last()),
        }
    }
}

/// The items that belong to files whose path contains `query`.
pub open spec fn filtered(items: Seq<ItemView>, query: Seq<char>) -> Seq<ItemView>
    decreases items.len(),
{
    if items.len() == 0 {
        Seq::empty()
    } else {
        let before = filtered(items.drop_last(), query);
        if text::contains(section_path(items), query) {
            before.push(items.last())
        } else {
            before
        }
    }
}

/// The texts of `list` that contain `query`, in order.
pub open spec fn matching(list: Seq<Seq<char>>, query: Seq<char>) -> Seq<Seq<char>>
    decreases list.len(),
{
    if list.len() == 0 {
        Seq::empty()
    } else {
        let before = matching(list.drop_last(), query);
        if text::contains(list.last(), query) {
            before.push(list.last())
        } else {
            before
        }
    }
}

/// Whether `line` starts with `start`.
pub open spec fn starts_with(line: Seq<char>, start: Seq<char>) -> bool {
    text::occurs_at(line, 0, start)
}

/// The path that a line such as `--- a/path` names: what follows the first
/// four characters, up to a tab, without the prefix that tells the sides apart.
pub open spec fn named_path(line: Seq<char>, prefix: Seq<char>) -> Seq<char> {
    let rest = line.skip(4);
    let name = rest.take(text::find_char(rest, '\t') as int);
    if starts_with(name, prefix) {
        name.skip(prefix.len() as int)
    } else {
        name
    }
}

/// The path of the file whose two sides `old_line` and `new_line` name: that
/// on the right, or that on the left where the file is gone.
pub open spec fn file_path_of(old_line: Seq<char>, new_line: Seq<char>) -> Seq<char> {
    let new_path = named_path(new_line, "b/"@);
    if new_path == "/dev/null"@ {
        named_path(old_line, "a/"@)
    } else {
        new_path
    }
}

/// The path that the lines before a hunk name, if they end in a line for each
/// side.
pub open spec fn announced_path(pending: Seq<Seq<char>>) -> Option<Seq<char>> {
    if pending.len() >= 2 && starts_with(pending[pending.len() - 2], "--- "@) && starts_with(
        pending.last(),
        "+++ "@,
    ) {
        Some(file_path_of(pending[pending.len() - 2], pending.last()))
    } else {
        None
    }
}

/// Lines outside any hunk as items.
pub open spec fn meta_items(pending: Seq<Seq<char>>) -> Seq<ItemView> {
    pending.map_values(|line: Seq<char>| ItemView::Meta(line))
}

/// The items with file headers so far, and the lines that may yet become one.
pub struct HeaderState {
    pub items: Seq<ItemView>,
    pub pending: Seq<Seq<char>>,
}

impl HeaderState {
    /// All items, those that wait as they are.
    pub open spec fn closed(self) -> Seq<ItemView> {
        self.items + meta_items(self.pending)
    }

    /// The state after `item`.
    pub open spec fn after(self, item: ItemView) -> HeaderState {
        match item {
            ItemView::Meta(line) => if starts_with(line, "diff "@) {
                HeaderState { items: self.closed(), pending: seq![line] }
            } else {
                HeaderState { pending: self.pending.push(line), ..self }
            },
            ItemView::Hunk(_) => match announced_path(self.pending) {
                Some(path) => HeaderState {
                    items: self.items.push(ItemView::FileHeader(path)).push(item),
                    pending: Seq::empty(),
                },
                None => HeaderState { items: self.closed().push(item), pending: Seq::empty() },
            },
            ItemView::FileHeader(_) => HeaderState {
                items: self.closed().push(item),
                pending: Seq::empty(),
            },
        }
    }
}

/// How far the file headers are after `items`.
pub open spec fn header_state(items: Seq<ItemView>) -> HeaderState
    decreases items.len(),
{
    if items.len() == 0 {
        HeaderState { items: Seq::empty(), pending: Seq::empty() }
    } else {
        header_state(items.drop_last()).after(items.last())
    }
}

/// `items` with a file header in place of the lines that announce a file: those
/// from a `diff` command line on, or from the line before them, that end in a
/// line for each side and stand before a hunk.
pub open spec fn with_headers(items: Seq<ItemView>) -> Seq<ItemView> {
    header_state(items).closed()
}

/// A copy of `rows`.
fn copy_rows(rows: &Vec<Row>) -> (copy: Vec<Row>)
    ensures
        row_views(copy@) == row_views(rows@),
{
    let mut copy: Vec<Row> = Vec::new();
    let mut index: usize = 0;
    while index < rows.len()
        invariant
            index <= rows@.len(),
            row_views(copy@) == row_views(rows@).take(index as int),
        decreases rows@.len() - index,
    {
        let row = rows[index].clone();
        let ghost before = copy@;
        copy.push(row);
        index += 1;
        assert(row_views(copy@) =~= row_views(before).push(row@));
        assert(row_views(copy@) =~= row_views(rows@).take(index as int));
    }
    assert(row_views(rows@).take(index as int) =~= row_views(rows@));
    copy
}

impl Clone for Row {
    fn clone(&self) -> (copy: Self)
        ensures
            copy@ == self@,
    {
        match self {
            Row::Context(line) => Row::Context(line.clone()),
            Row::Delete(line) => Row::Delete(line.clone()),
            Row::Insert(line) => Row::Insert(line.clone()),
            Row::Change { old, new } => Row::Change { old: old.clone(), new: new.clone() },
            Row::Annotation(line) => Row::Annotation(line.clone()),
        }
    }
}

impl Clone for Hunk {
    fn clone(&self) -> (copy: Self)
        ensures
            copy@ == self@,
    {
        Hunk {
            header: self.header.clone(),
            old_start: self.old_start,
            new_start: self.new_start,
            new_len: self.new_len,
            rows: copy_rows(&self.rows),
        }
    }
}

impl Clone for Item {
    fn clone(&self) -> (copy: Self)
        ensures
            copy@ == self@,
    {
        match self {
            Item::FileHeader(path) => Item::FileHeader(path.clone()),
            Item::Meta(line) => Item::Meta(line.clone()),
            Item::Hunk(hunk) => Item::Hunk(hunk.clone()),
        }
    }
}

impl Clone for Document {
    fn clone(&self) -> (copy: Self)
        ensures
            copy@ == self@,
    {
        let mut items: Vec<Item> = Vec::new();
        let mut index: usize = 0;
        while index < self.items.len()
            invariant
                index <= self.items@.len(),
                item_views(items@) == self@.take(index as int),
            decreases self.items@.len() - index,
        {
            let item = self.items[index].clone();
            let ghost before = items@;
            items.push(item);
            index += 1;
            assert(item_views(items@) =~= item_views(before).push(item@));
            assert(item_views(items@) =~= self@.take(index as int));
        }
        assert(self@.take(index as int) =~= self@);
        Document { items }
    }
}

/// Whether `line` starts with `start`.
pub fn line_starts_with(line: &str, start: &str) -> (starts: bool)
    ensures
        starts == starts_with(line@, start@),
{
    let chars = char_list(line);
    let start_chars = char_list(start);
    text::occurs(&chars, 0, &start_chars)
}

/// The path that a line of a file's announcement names.
fn path_in_line(line: &str, prefix: &str) -> (path: String)
    requires
        line@.len() >= 4,
    ensures
        path@ == named_path(line@, prefix@),
{
    let chars = char_list(line);
    let end = find_from(&chars, 4, '\t');
    let name = slice_text(&chars, 4, end);
    assert(name@ =~= line@.skip(4).take(end - 4));
    if line_starts_with(name.as_str(), prefix) {
        let name_chars = char_list(name.as_str());
        let skip = char_list(prefix).len();
        let path = slice_text(&name_chars, skip, name_chars.len());
        assert(path@ =~= name@.skip(prefix@.len() as int));
        path
    } else {
        name
    }
}

/// The path that the lines before a hunk name.
fn path_of_announcement(pending: &Vec<String>) -> (path: Option<String>)
    ensures
        match path {
            Some(path) => announced_path(text::texts(pending@)) == Some(path@),
            None => announced_path(text::texts(pending@)) is None,
        },
{
    if pending.len() < 2 {
        return None;
    }
    let old_line = &pending[pending.len() - 2];
    let new_line = &pending[pending.len() - 1];
    if !line_starts_with(old_line.as_str(), "--- ") || !line_starts_with(new_line.as_str(), "+++ ") {
        return None;
    }
    proof {
        reveal_strlit("--- ");
        reveal_strlit("+++ ");
    }
    let new_path = path_in_line(new_line.as_str(), "b/");
    if same_text(new_path.as_str(), "/dev/null") {
        Some(path_in_line(old_line.as_str(), "a/"))
    } else {
        Some(new_path)
    }
}

/// Moves the lines that wait behind the items, as they are.
fn flush_pending(items: &mut Vec<Item>, pending: &mut Vec<String>)
    ensures
        item_views(final(items)@) == item_views(old(items)@) + meta_items(
            text::texts(old(pending)@),
        ),
        final(pending)@ == Seq::<String>::empty(),
{
    let ghost start = item_views(items@);
    let ghost metas = meta_items(text::texts(pending@));
    let mut index: usize = 0;
    assert(item_views(items@) =~= start + metas.take(0));
    while index < pending.len()
        invariant
            index <= pending@.len(),
            metas == meta_items(text::texts(pending@)),
            item_views(items@) == start + metas.take(index as int),
        decreases pending@.len() - index,
    {
        let ghost before = items@;
        items.push(Item::Meta(pending[index].clone()));
        assert(item_views(items@) =~= item_views(before).push(metas[index as int]));
        index += 1;
        assert(item_views(items@) =~= start + metas.take(index as int));
    }
    assert(metas.take(index as int) =~= metas);
    pending.clear();
}

impl Default for Document {
    fn default() -> (document: Self)
        ensures
            document@ == Seq::<ItemView>::empty(),
    {
        let document = Document { items: Vec::new() };
        assert(document@ =~= Seq::<ItemView>::empty());
        document
    }
}

impl Document {
    /// The document that holds `items`.
    pub fn from_items(items: Vec<Item>) -> (document: Document)
        ensures
            document.items == items,
    {
        Document { items }
    }

    /// The paths of the files, in order.
    pub fn file_paths(&self) -> (paths: Vec<String>)
        ensures
            text::texts(paths@) == header_paths(self@),
    {
        let mut paths: Vec<String> = Vec::new();
        let mut index: usize = 0;
        assert(text::texts(paths@) =~= Seq::<Seq<char>>::empty());
        assert(self@.take(0) =~= Seq::<ItemView>::empty());
        while index < self.items.len()
            invariant
                index <= self.items@.len(),
                text::texts(paths@) == header_paths(self@.take(index as int)),
            decreases self.items@.len() - index,
        {
            assert(self@.take(index + 1).drop_last() =~= self@.take(index as int));
            match &self.items[index] {
                Item::FileHeader(path) => {
                    let ghost before = paths@;
                    paths.push(path.clone());
                    assert(text::texts(paths@) =~= text::texts(before).push(path@));
                },
                _ => {},
            }
            index += 1;
        }
        assert(self@.take(index as int) =~= self@);
        paths
    }

    /// The part of the document that belongs to files whose path contains
    /// `query`. What stands before the first file counts as a file without a
    /// path.
    pub fn filter_files(&self, query: &str) -> (document: Document)
        ensures
            document@ == filtered(self@, query@),
    {
        let mut items: Vec<Item> = Vec::new();
        let mut path = String::new();
        let mut index: usize = 0;
        assert(item_views(items@) =~= Seq::<ItemView>::empty());
        assert(self@.take(0) =~= Seq::<ItemView>::empty());
        while index < self.items.len()
            invariant
                index <= self.items@.len(),
                item_views(items@) == filtered(self@.take(index as int), query@),
                path@ == section_path(self@.take(index as int)),
            decreases self.items@.len() - index,
        {
            assert(self@.take(index + 1).drop_last() =~= self@.take(index as int));
            match &self.items[index] {
                Item::FileHeader(header) => {
                    path = header.clone();
                },
                _ => {},
            }
            if contains_text(path.as_str(), query) {
                let ghost before = items@;
                let item = self.items[index].clone();
                items.push(item);
                assert(item_views(items@) =~= item_views(before).push(item@));
            }
            index += 1;
        }
        assert(self@.take(index as int) =~= self@);
        Document { items }
    }

    /// The document with a file header in place of the lines that announce a
    /// file.
    pub fn with_file_headers(&self) -> (document: Document)
        ensures
            document@ == with_headers(self@),
    {
        let mut items: Vec<Item> = Vec::new();
        let mut pending: Vec<String> = Vec::new();
        let mut index: usize = 0;
        assert(item_views(items@) =~= Seq::<ItemView>::empty());
        assert(text::texts(pending@) =~= Seq::<Seq<char>>::empty());
        assert(self@.take(0) =~= Seq::<ItemView>::empty());
        while index < self.items.len()
            invariant
                index <= self.items@.len(),
                item_views(items@) == header_state(self@.take(index as int)).items,
                text::texts(pending@) == header_state(self@.take(index as int)).pending,
            decreases self.items@.len() - index,
        {
            assert(self@.take(index + 1).drop_last() =~= self@.take(index as int));
            let item = self.items[index].clone();
            match item {
                Item::Meta(line) => {
                    let command = line_starts_with(line.as_str(), "diff ");
                    if command {
                        flush_pending(&mut items, &mut pending);
                    }
                    let ghost before = pending@;
                    pending.push(line);
                    assert(text::texts(pending@) =~= text::texts(before).push(line@));
                    if command {
                        assert(text::texts(before) =~= Seq::<Seq<char>>::empty());
                        assert(text::texts(pending@) =~= seq![line@]);
                    }
                },
                Item::Hunk(hunk) => {
                    match path_of_announcement(&pending) {
                        Some(path) => {
                            let ghost before = items@;
                            items.push(Item::FileHeader(path));
                            assert(item_views(items@) =~= item_views(before).push(
                                ItemView::FileHeader(path@),
                            ));
                            pending.clear();
                        },
                        None => {
                            flush_pending(&mut items, &mut pending);
                        },
                    }
                    let ghost before = items@;
                    items.push(Item::Hunk(hunk));
                    assert(item_views(items@) =~= item_views(before).push(ItemView::Hunk(hunk@)));
                    assert(text::texts(pending@) =~= Seq::<Seq<char>>::empty());
                },
                Item::FileHeader(path) => {
                    flush_pending(&mut items, &mut pending);
                    let ghost before = items@;
                    items.push(Item::FileHeader(path));
                    assert(item_views(items@) =~= item_views(before).push(
                        ItemView::FileHeader(path@),
                    ));
                    assert(text::texts(pending@) =~= Seq::<Seq<char>>::empty());
                },
            }
            index += 1;
        }
        assert(self@.take(index as int) =~= self@);
        flush_pending(&mut items, &mut pending);
        Document { items }
    }
}

// ---------------------------------------------------------------------------
// Laws
// ---------------------------------------------------------------------------

/// The lines that stand on the left in `rows`.
pub open spec fn old_side(rows: Seq<RowView>) -> Seq<Seq<char>>
    decreases rows.len(),
{
    if rows.len() == 0 {
        Seq::empty()
    } else {
        let before = old_side(rows.drop_last());
        match rows.last() {
            RowView::Context(line) | RowView::Delete(line) => before.push(line),
            RowView::Change { old, new } => before.push(old),
            RowView::Insert(_) | RowView::Annotation(_) => before,
        }
    }
}

/// The lines that stand on the right in `rows`.
pub open spec fn new_side(rows: Seq<RowView>) -> Seq<Seq<char>>
    decreases rows.len(),
{
    if rows.len() == 0 {
        Seq::empty()
    } else {
        let before = new_side(rows.drop_last());
        match rows.last() {
            RowView::Context(line) | RowView::Insert(line) => before.push(line),
            RowView::Change { old, new } => before.push(new),
            RowView::Delete(_) | RowView::Annotation(_) => before,
        }
    }
}

/// The annotations in `rows`.
pub open spec fn annotations(rows: Seq<RowView>) -> Seq<Seq<char>>
    decreases rows.len(),
{
    if rows.len() == 0 {
        Seq::empty()
    } else {
        let before = annotations(rows.drop_last());
        match rows.last() {
            RowView::Annotation(line) => before.push(line),
            _ => before,
        }
    }
}

/// The lines that the diff has on the left.
pub open spec fn raw_old_side(raw: Seq<RawRowView>) -> Seq<Seq<char>>
    decreases raw.len(),
{
    if raw.len() == 0 {
        Seq::empty()
    } else {
        let before = raw_old_side(raw.drop_last());
        match raw.last() {
            RawRowView::Context(line) | RawRowView::Delete(line) => before.push(line),
            RawRowView::Insert(_) | RawRowView::Annotation(_) => before,
        }
    }
}

/// The lines that the diff has on the right.
pub open spec fn raw_new_side(raw: Seq<RawRowView>) -> Seq<Seq<char>>
    decreases raw.len(),
{
    if raw.len() == 0 {
        Seq::empty()
    } else {
        let before = raw_new_side(raw.drop_last());
        match raw.last() {
            RawRowView::Context(line) | RawRowView::Insert(line) => before.push(line),
            RawRowView::Delete(_) | RawRowView::Annotation(_) => before,
        }
    }
}

/// The annotations that the diff has.
pub open spec fn raw_annotations(raw: Seq<RawRowView>) -> Seq<Seq<char>>
    decreases raw.len(),
{
    if raw.len() == 0 {
        Seq::empty()
    } else {
        let before = raw_annotations(raw.drop_last());
        match raw.last() {
            RawRowView::Annotation(line) => before.push(line),
            _ => before,
        }
    }
}

proof fn lemma_sides_add(left: Seq<RowView>, right: Seq<RowView>)
    ensures
        old_side(left + right) == old_side(left) + old_side(right),
        new_side(left + right) == new_side(left) + new_side(right),
        annotations(left + right) == annotations(left) + annotations(right),
    decreases right.len(),
{
    let whole = left + right;
    if right.len() == 0 {
        assert(whole =~= left);
        assert(old_side(left) + old_side(right) =~= old_side(left));
        assert(new_side(left) + new_side(right) =~= new_side(left));
        assert(annotations(left) + annotations(right) =~= annotations(left));
    } else {
        assert(whole.drop_last() =~= left + right.drop_last());
        lemma_sides_add(left, right.drop_last());
        assert(old_side(whole) =~= old_side(left) + old_side(right));
        assert(new_side(whole) =~= new_side(left) + new_side(right));
        assert(annotations(whole) =~= annotations(left) + annotations(right));
    }
}

proof fn lemma_block_sides(deleted: Seq<Seq<char>>, inserted: Seq<Seq<char>>, n: nat)
    requires
        n <= change_block(deleted, inserted).len(),
    ensures
        ({
            let part = change_block(deleted, inserted).take(n as int);
            &&& old_side(part) == if n <= deleted.len() {
                deleted.take(n as int)
            } else {
                deleted
            }
            &&& new_side(part) == if n <= inserted.len() {
                inserted.take(n as int)
            } else {
                inserted
            }
            &&& annotations(part) == Seq::<Seq<char>>::empty()
        }),
    decreases n,
{
    let part = change_block(deleted, inserted).take(n as int);
    if n == 0 {
        assert(deleted.take(0) =~= Seq::<Seq<char>>::empty());
        assert(inserted.take(0) =~= Seq::<Seq<char>>::empty());
    } else {
        assert(part.drop_last() =~= change_block(deleted, inserted).take(n - 1));
        lemma_block_sides(deleted, inserted, (n - 1) as nat);
        assert(old_side(part) =~= if n <= deleted.len() {
            deleted.take(n as int)
        } else {
            deleted
        });
        assert(new_side(part) =~= if n <= inserted.len() {
            inserted.take(n as int)
        } else {
            inserted
        });
    }
}

proof fn lemma_closed_sides(state: RowsInProgress)
    ensures
        old_side(state.closed()) == old_side(state.rows) + state.deleted,
        new_side(state.closed()) == new_side(state.rows) + state.inserted,
        annotations(state.closed()) == annotations(state.rows),
{
    let block = change_block(state.deleted, state.inserted);
    lemma_sides_add(state.rows, block);
    lemma_block_sides(state.deleted, state.inserted, block.len());
    assert(block.take(block.len() as int) =~= block);
    assert(state.deleted.take(state.deleted.len() as int) =~= state.deleted);
    assert(state.inserted.take(state.inserted.len() as int) =~= state.inserted);
    assert(annotations(state.rows) + Seq::<Seq<char>>::empty() =~= annotations(state.rows));
}

proof fn lemma_sides_in_progress(raw: Seq<RawRowView>)
    ensures
        ({
            let state = rows_in_progress(raw);
            &&& old_side(state.rows) + state.deleted == raw_old_side(raw)
            &&& new_side(state.rows) + state.inserted == raw_new_side(raw)
            &&& annotations(state.rows) == raw_annotations(raw)
        }),
    decreases raw.len(),
{
    let state = rows_in_progress(raw);
    if raw.len() == 0 {
        assert(old_side(state.rows) + state.deleted =~= raw_old_side(raw));
        assert(new_side(state.rows) + state.inserted =~= raw_new_side(raw));
    } else {
        let before = rows_in_progress(raw.drop_last());
        lemma_sides_in_progress(raw.drop_last());
        lemma_closed_sides(before);
        match raw.last() {
            RawRowView::Context(line) => {
                assert(state.rows.drop_last() =~= before.closed());
            },
            RawRowView::Annotation(line) => {
                assert(state.rows.drop_last() =~= before.closed());
            },
            _ => {},
        }
        assert(old_side(state.rows) + state.deleted =~= raw_old_side(raw));
        assert(new_side(state.rows) + state.inserted =~= raw_new_side(raw));
        assert(annotations(state.rows) =~= raw_annotations(raw));
    }
}

/// Putting changed lines side by side loses nothing and reorders neither side:
/// the rows of a hunk have on the left the lines that the diff has there, in
/// the same order, the same on the right, and the same annotations.
pub proof fn lemma_rows_keep_sides(raw: Seq<RawRowView>)
    ensures
        old_side(rows_of(raw)) == raw_old_side(raw),
        new_side(rows_of(raw)) == raw_new_side(raw),
        annotations(rows_of(raw)) == raw_annotations(raw),
{
    lemma_sides_in_progress(raw);
    lemma_closed_sides(rows_in_progress(raw));
}

/// The number of lines of the diff that a row stands for.
pub open spec fn row_lines(row: RowView) -> nat {
    match row {
        RowView::Change { old, new } => 2,
        _ => 1,
    }
}

/// The number of lines of the diff that `rows` stand for.
pub open spec fn rows_lines(rows: Seq<RowView>) -> nat
    decreases rows.len(),
{
    if rows.len() == 0 {
        0
    } else {
        rows_lines(rows.drop_last()) + row_lines(rows.last())
    }
}

/// The number of lines of the diff that `items` stand for.
pub open spec fn items_lines(items: Seq<ItemView>) -> nat
    decreases items.len(),
{
    if items.len() == 0 {
        0
    } else {
        items_lines(items.drop_last()) + match items.last() {
            ItemView::Hunk(hunk) => 1 + rows_lines(hunk.rows),
            _ => 1,
        }
    }
}

proof fn lemma_block_lines(deleted: Seq<Seq<char>>, inserted: Seq<Seq<char>>, n: nat)
    requires
        n <= change_block(deleted, inserted).len(),
    ensures
        rows_lines(change_block(deleted, inserted).take(n as int)) == (if n <= deleted.len() {
            n
        } else {
            deleted.len()
        }) + (if n <= inserted.len() {
            n
        } else {
            inserted.len()
        }),
    decreases n,
{
    let part = change_block(deleted, inserted).take(n as int);
    if n > 0 {
        assert(part.drop_last() =~= change_block(deleted, inserted).take(n - 1));
        lemma_block_lines(deleted, inserted, (n - 1) as nat);
    }
}

proof fn lemma_rows_lines_add(left: Seq<RowView>, right: Seq<RowView>)
    ensures
        rows_lines(left + right) == rows_lines(left) + rows_lines(right),
    decreases right.len(),
{
    if right.len() == 0 {
        assert(left + right =~= left);
    } else {
        assert((left + right).drop_last() =~= left + right.drop_last());
        lemma_rows_lines_add(left, right.drop_last());
    }
}

proof fn lemma_closed_lines(state: RowsInProgress)
    ensures
        rows_lines(state.closed()) == rows_lines(state.rows) + state.deleted.len()
            + state.inserted.len(),
{
    let block = change_block(state.deleted, state.inserted);
    lemma_rows_lines_add(state.rows, block);
    lemma_block_lines(state.deleted, state.inserted, block.len());
    assert(block.take(block.len() as int) =~= block);
}

proof fn lemma_lines_in_progress(raw: Seq<RawRowView>)
    ensures
        rows_lines(rows_in_progress(raw).rows) + rows_in_progress(raw).deleted.len()
            + rows_in_progress(raw).inserted.len() == raw.len(),
    decreases raw.len(),
{
    if raw.len() > 0 {
        let before = rows_in_progress(raw.drop_last());
        let state = rows_in_progress(raw);
        lemma_lines_in_progress(raw.drop_last());
        lemma_closed_lines(before);
        match raw.last() {
            RawRowView::Context(line) => {
                assert(state.rows.drop_last() =~= before.closed());
            },
            RawRowView::Annotation(line) => {
                assert(state.rows.drop_last() =~= before.closed());
            },
            _ => {},
        }
    }
}

/// The rows of a hunk stand for as many lines as the diff has in it.
pub proof fn lemma_rows_stand_for_all_lines(raw: Seq<RawRowView>)
    ensures
        rows_lines(rows_of(raw)) == raw.len(),
{
    lemma_lines_in_progress(raw);
    lemma_closed_lines(rows_in_progress(raw));
}

/// The number of lines that a parse state holds.
pub open spec fn state_lines(state: ParseState) -> nat {
    items_lines(state.items) + state.raw.len() + if state.header is Some {
        1nat
    } else {
        0nat
    }
}

proof fn lemma_closed_state_lines(state: ParseState)
    requires
        state.header is None ==> state.raw.len() == 0,
    ensures
        state_lines(state.closed()) == state_lines(state),
        state.closed().header is None,
        state.closed().raw.len() == 0,
{
    match state.header {
        Some(header) => {
            lemma_rows_stand_for_all_lines(state.raw);
            assert(state.closed().items.drop_last() =~= state.items);
        },
        None => {},
    }
}

proof fn lemma_state_lines(lines: Seq<Seq<char>>)
    ensures
        state_lines(parse_state(lines)) == lines.len(),
        parse_state(lines).header is None ==> parse_state(lines).raw.len() == 0,
    decreases lines.len(),
{
    if lines.len() > 0 {
        let before = parse_state(lines.drop_last());
        let line = lines.last();
        lemma_state_lines(lines.drop_last());
        lemma_closed_state_lines(before);
        if !opens_hunk(line) {
            if before.header is None {
                assert(before.with_meta(line).items.drop_last() =~= before.items);
            } else if raw_row_of(line) is None {
                assert(before.closed().with_meta(line).items.drop_last()
                    =~= before.closed().items);
            }
        }
    }
}

/// Reading a diff loses no line and makes none up: the document stands for as
/// many lines as the input has.
pub proof fn lemma_parse_keeps_every_line(input: Seq<char>)
    ensures
        items_lines(parsed(input)) == text::lines(input).len(),
{
    lemma_state_lines(text::lines(input));
    lemma_closed_state_lines(parse_state(text::lines(input)));
}

/// The file list of a filtered document is the filtered file list.
pub proof fn lemma_filter_matches_file_list(items: Seq<ItemView>, query: Seq<char>)
    ensures
        header_paths(filtered(items, query)) == matching(header_paths(items), query),
    decreases items.len(),
{
    if items.len() > 0 {
        let before = filtered(items.drop_last(), query);
        lemma_filter_matches_file_list(items.drop_last(), query);
        assert(before.push(items.last()).drop_last() =~= before);
        match items.last() {
            ItemView::FileHeader(path) => {
                assert(header_paths(items).drop_last() =~= header_paths(items.drop_last()));
            },
            _ => {},
        }
    }
}

proof fn lemma_everything_contains_nothing(text: Seq<char>)
    ensures
        text::contains(text, Seq::empty()),
{
    assert(text.subrange(0, 0) =~= Seq::<char>::empty());
    assert(text::occurs_at(text, 0, Seq::empty()));
}

/// An empty filter keeps the whole document and the whole file list.
pub proof fn lemma_empty_filter_keeps_all(items: Seq<ItemView>, files: Seq<Seq<char>>)
    ensures
        filtered(items, Seq::empty()) == items,
        matching(files, Seq::empty()) == files,
    decreases items.len() + files.len(),
{
    if items.len() > 0 {
        lemma_everything_contains_nothing(section_path(items));
        lemma_empty_filter_keeps_all(items.drop_last(), files);
        assert(items.drop_last().push(items.last()) =~= items);
    } else if files.len() > 0 {
        lemma_everything_contains_nothing(files.last());
        lemma_empty_filter_keeps_all(items, files.drop_last());
        assert(files.drop_last().push(files.last()) =~= files);
        assert(filtered(items, Seq::empty()) =~= items);
    } else {
        assert(filtered(items, Seq::empty()) =~= items);
        assert(matching(files, Seq::empty()) =~= files);
    }
}

/// The hunks of `items`, in order.
pub open spec fn hunks_of(items: Seq<ItemView>) -> Seq<HunkView>
    decreases items.len(),
{
    if items.len() == 0 {
        Seq::empty()
    } else {
        let before = hunks_of(items.drop_last());
        match items.last() {
            ItemView::Hunk(hunk) => before.push(hunk),
            _ => before,
        }
    }
}

proof fn lemma_hunks_push(items: Seq<ItemView>, item: ItemView)
    ensures
        hunks_of(items.push(item)) == match item {
            ItemView::Hunk(hunk) => hunks_of(items).push(hunk),
            _ => hunks_of(items),
        },
{
    assert(items.push(item).drop_last() =~= items);
}

proof fn lemma_hunks_meta(items: Seq<ItemView>, pending: Seq<Seq<char>>)
    ensures
        hunks_of(items + meta_items(pending)) == hunks_of(items),
    decreases pending.len(),
{
    if pending.len() == 0 {
        assert(items + meta_items(pending) =~= items);
    } else {
        let fewer = pending.drop_last();
        lemma_hunks_meta(items, fewer);
        assert(items + meta_items(pending) =~= (items + meta_items(fewer)).push(
            ItemView::Meta(pending.last()),
        ));
        lemma_hunks_push(items + meta_items(fewer), ItemView::Meta(pending.last()));
    }
}

proof fn lemma_header_state_keeps_hunks(items: Seq<ItemView>)
    ensures
        hunks_of(header_state(items).items) == hunks_of(items),
    decreases items.len(),
{
    if items.len() > 0 {
        let before = header_state(items.drop_last());
        lemma_header_state_keeps_hunks(items.drop_last());
        lemma_hunks_meta(before.items, before.pending);
        let item = items.last();
        match item {
            ItemView::Hunk(_) => match announced_path(before.pending) {
                Some(path) => {
                    lemma_hunks_push(before.items, ItemView::FileHeader(path));
                    lemma_hunks_push(before.items.push(ItemView::FileHeader(path)), item);
                },
                None => {
                    lemma_hunks_push(before.closed(), item);
                },
            },
            ItemView::FileHeader(_) => {
                lemma_hunks_push(before.closed(), item);
            },
            ItemView::Meta(_) => {},
        }
    }
}

/// Putting in file headers changes no hunk and moves none.
pub proof fn lemma_headers_keep_hunks(items: Seq<ItemView>)
    ensures
        hunks_of(with_headers(items)) == hunks_of(items),
{
    let state = header_state(items);
    lemma_header_state_keeps_hunks(items);
    lemma_hunks_meta(state.items, state.pending);
}

/// A filtered diff holds nothing that the diff does not hold.
pub proof fn lemma_filter_adds_nothing(items: Seq<ItemView>, query: Seq<char>, i: int)
    requires
        0 <= i < filtered(items, query).len(),
    ensures
        items.contains(filtered(items, query)[i]),
    decreases items.len(),
{
    if items.len() > 0 {
        let fewer = items.drop_last();
        let before = filtered(fewer, query);
        let kept = filtered(items, query)[i];
        if i < before.len() {
            assert(kept == before[i]);
            lemma_filter_adds_nothing(fewer, query, i);
            let k = choose|k: int| 0 <= k < fewer.len() && fewer[k] == kept;
            assert(items[k] == kept);
        } else {
            assert(kept == items[items.len() - 1]);
        }
    }
}

} // verus!
