use mdiff::unified_diff::parse;
use mdiff::unified_diff::parse_hunk_header;
use mdiff::unified_diff::Document;
use mdiff::unified_diff::Hunk;
use mdiff::unified_diff::Item;
use mdiff::unified_diff::Row;

#[test]
fn parses_context_and_change_rows() {
    let input = "\
diff --git a/a.txt b/a.txt
@@ -1,2 +1,2 @@
-old
+new
 same
";

    let doc = parse(input);
    assert_eq!(doc.items.len(), 2);

    let Item::Hunk(hunk) = &doc.items[1] else {
        panic!("expected hunk");
    };

    assert_eq!(
        hunk.rows,
        vec![
            Row::Change {
                old: "old".into(),
                new: "new".into(),
            },
            Row::Context("same".into()),
        ]
    );
}

#[test]
fn keeps_annotations_separate() {
    let input = "\
@@ -1 +1 @@
-before
+after
\\ No newline at end of file
";

    let doc = parse(input);
    let Item::Hunk(hunk) = &doc.items[0] else {
        panic!("expected hunk");
    };

    assert_eq!(
        hunk.rows,
        vec![
            Row::Change {
                old: "before".into(),
                new: "after".into(),
            },
            Row::Annotation("\\ No newline at end of file".into()),
        ]
    );
}

fn only_hunk(input: &str) -> Hunk {
    let doc = parse(input);
    assert_eq!(doc.items.len(), 1);
    match doc.items.into_iter().next() {
        Some(Item::Hunk(hunk)) => hunk,
        _ => panic!("expected hunk"),
    }
}

#[test]
fn uneven_change_blocks_leave_single_sides() {
    let hunk = only_hunk("@@ -1,3 +1,1 @@\n-a\n-b\n-c\n+x\n");
    assert_eq!(
        hunk.rows,
        vec![
            Row::Change {
                old: "a".into(),
                new: "x".into(),
            },
            Row::Delete("b".into()),
            Row::Delete("c".into()),
        ]
    );
    let hunk = only_hunk("@@ -0,0 +1,2 @@\n+x\n+y\n");
    assert_eq!(
        hunk.rows,
        vec![Row::Insert("x".into()), Row::Insert("y".into())]
    );
}

#[test]
fn insertions_before_deletions_still_pair_up() {
    let hunk = only_hunk("@@ -1,1 +1,1 @@\n+x\n-a\n");
    assert_eq!(
        hunk.rows,
        vec![Row::Change {
            old: "a".into(),
            new: "x".into(),
        }]
    );
}

#[test]
fn hunk_headers_give_line_numbers() {
    assert_eq!(parse_hunk_header("@@ -15,7 +16,9 @@ fn main"), Some((15, 16, 9)));
    assert_eq!(parse_hunk_header("@@ -3 +4 @@"), Some((3, 4, 1)));
    assert_eq!(parse_hunk_header("@@ nothing @@"), None);
    let hunk = only_hunk("@@ -15,7 +16,9 @@\n x\n");
    assert_eq!((hunk.old_start, hunk.new_start, hunk.new_len), (15, 16, 9));
    assert_eq!(hunk.header, "@@ -15,7 +16,9 @@");
    let hunk = only_hunk("@@ nothing\n x\n");
    assert_eq!((hunk.old_start, hunk.new_start, hunk.new_len), (0, 0, 0));
}

#[test]
fn lines_outside_hunks_are_kept_as_they_are() {
    let doc = parse("one\ntwo\r\n@@ -1 +1 @@\n x\nthree");
    let metas: Vec<&str> = doc
        .items
        .iter()
        .filter_map(|item| match item {
            Item::Meta(line) => Some(line.as_str()),
            _ => None,
        })
        .collect();
    assert_eq!(metas, vec!["one", "two", "three"]);
    assert_eq!(doc.items.len(), 4);
    assert!(parse("").items.is_empty());
    assert!(Document::default().items.is_empty());
}

const TWO_FILES: &str = "\
diff --git a/src/a.go b/src/a.go
index 1..2 100644
--- a/src/a.go
+++ b/src/a.go
@@ -1 +1 @@
-x
+y
diff --git a/b.rs b/b.rs
deleted file mode 100644
--- a/b.rs
+++ /dev/null
@@ -1 +0,0 @@
-z
";

#[test]
fn file_headers_replace_announcements() {
    let doc = parse(TWO_FILES).with_file_headers();
    assert_eq!(doc.file_paths(), vec!["src/a.go".to_owned(), "b.rs".to_owned()]);
    assert_eq!(doc.items.len(), 4);
    assert!(matches!(&doc.items[0], Item::FileHeader(path) if path == "src/a.go"));
    assert!(matches!(&doc.items[1], Item::Hunk(_)));
}

#[test]
fn filtering_keeps_whole_files() {
    let doc = parse(TWO_FILES).with_file_headers();
    let filtered = doc.filter_files(".go");
    assert_eq!(filtered.file_paths(), vec!["src/a.go".to_owned()]);
    assert_eq!(filtered.items.len(), 2);
    assert_eq!(doc.filter_files("").items.len(), doc.items.len());
    assert!(doc.filter_files("nowhere").items.is_empty());
}
