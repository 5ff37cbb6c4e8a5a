use mdiff::text::char_bytes;
use mdiff::text::contains_text;
use mdiff::text::decimal_string;
use mdiff::text::same_text;
use mdiff::text::split_lines;
use mdiff::text::split_text;
use mdiff::text::text_bytes;
use mdiff::text::trim_text_end;
use mdiff::text::white_space;
use mdiff::width::char_width;
use mdiff::width::clip_text;
use mdiff::width::text_columns;
use unicode_width::UnicodeWidthChar;

fn all_chars() -> impl Iterator<Item = char> {
    (0u32..=0x10ffff).filter_map(char::from_u32)
}

#[test]
fn widths_are_those_of_the_tables() {
    for ch in all_chars() {
        if ch == '\t' {
            assert_eq!(char_width(ch, 8), 8);
            assert_eq!(char_width(ch, 0), 0);
        } else {
            assert_eq!(char_width(ch, 8), UnicodeWidthChar::width(ch).unwrap_or(0));
        }
    }
}

#[test]
fn widths_are_within_what_is_claimed_of_them() {
    for ch in all_chars() {
        let width = UnicodeWidthChar::width(ch);
        let control = ch <= '\u{1f}' || ('\u{7f}'..='\u{9f}').contains(&ch);
        assert_eq!(width.is_none(), control);
        if (' '..='~').contains(&ch) {
            assert_eq!(width, Some(1));
        }
        if let Some(width) = width {
            assert!(width <= 2 || (width == 3 && ch == '\u{17d8}'));
            assert!(width <= ch.len_utf8());
        }
    }
}

#[test]
fn white_space_and_bytes_are_those_of_the_standard_library() {
    for ch in all_chars() {
        assert_eq!(white_space(ch), ch.is_whitespace());
        assert_eq!(char_bytes(ch), ch.len_utf8());
    }
}

#[test]
fn clipping_stops_at_the_first_that_does_not_fit() {
    assert_eq!(clip_text("a宽b", 2, 0), "a");
    assert_eq!(clip_text("a宽b", 3, 0), "a宽");
    assert_eq!(clip_text("ab\u{301}c", 2, 0), "ab\u{301}");
    assert_eq!(clip_text("\tx", 7, 8), "");
    assert_eq!(clip_text("", 5, 8), "");
    assert_eq!(text_columns("a\tb", 8), 10);
    assert_eq!(text_columns("a\tb", 0), 2);
}

#[test]
fn lines_are_those_of_the_standard_library() {
    for text in [
        "", "\n", "a", "a\n", "a\nb", "a\r\nb\r\n", "a\r", "\r\n", "\n\n", "a\rb\n", "é\n\nü\r\n\r",
    ] {
        let expected: Vec<&str> = text.lines().collect();
        assert_eq!(split_lines(text), expected);
    }
}

#[test]
fn parts_are_those_of_the_standard_library() {
    for text in ["", ";", "a;b", ";a;", "48;5;240", "x"] {
        let expected: Vec<&str> = text.split(';').collect();
        assert_eq!(split_text(text, ';'), expected);
    }
}

#[test]
fn substrings_are_found() {
    assert!(contains_text("abcde", "cd"));
    assert!(contains_text("abc", ""));
    assert!(contains_text("", ""));
    assert!(!contains_text("abc", "ac"));
    assert!(!contains_text("ab", "abc"));
    assert!(same_text("é", "é"));
    assert!(!same_text("a", "ab"));
}

#[test]
fn numbers_and_trimming() {
    assert_eq!(decimal_string(0), "0");
    assert_eq!(decimal_string(1204), "1204");
    assert_eq!(decimal_string(usize::MAX), usize::MAX.to_string());
    assert_eq!(trim_text_end(" a \t\u{3000}\n"), " a");
    assert_eq!(trim_text_end("  "), "");
    assert_eq!(text_bytes("aé宽😀"), 10);
}
