use editor_core::buffer::{Buffer, OutOfBounds};

#[test]
fn new_buffer_is_empty_and_unmodified() {
    let buffer = Buffer::new();
    assert_eq!(buffer.text(), "");
    assert_eq!(buffer.len(), 0);
    assert!(!buffer.is_modified());
    assert_eq!(buffer.filename(), None);
    assert_eq!(buffer.line_count(), 1);
}

#[test]
fn from_str_holds_content_and_filename() {
    let buffer = Buffer::from_str("ab\ncd", Some("main.rs".to_string()));
    assert_eq!(buffer.text(), "ab\ncd");
    assert_eq!(buffer.len(), 5);
    assert!(!buffer.is_modified());
    assert_eq!(buffer.filename(), Some("main.rs"));
}

#[test]
fn insert_splices_text_and_marks_modified() {
    let buffer = Buffer::from_str("ab\ncd", Some("main.rs".to_string()));
    let edited = buffer.insert(2, "XY").unwrap();
    assert_eq!(edited.text(), "abXY\ncd");
    assert_eq!(edited.len(), 7);
    assert!(edited.is_modified());
    assert_eq!(edited.filename(), Some("main.rs"));
}

#[test]
fn insert_at_start_and_end() {
    let buffer = Buffer::from_str("abc", None);
    assert_eq!(buffer.insert(0, "X").unwrap().text(), "Xabc");
    assert_eq!(buffer.insert(3, "X").unwrap().text(), "abcX");
}

#[test]
fn insert_leaves_receiver_unchanged() {
    let buffer = Buffer::from_str("abc", None);
    let edited = buffer.insert(1, "ZZ").unwrap();
    assert_eq!(edited.text(), "aZZbc");
    assert_eq!(buffer.text(), "abc");
    assert!(!buffer.is_modified());
}

#[test]
fn insert_empty_text_keeps_text_and_marks_modified() {
    let buffer = Buffer::from_str("héllo\nworld", None);
    let length = buffer.len();
    let mut offset = 0;
    while offset <= length {
        let edited = buffer.insert(offset, "").unwrap();
        assert_eq!(edited.text(), buffer.text());
        assert!(edited.is_modified());
        offset += 1;
    }
}

#[test]
fn insert_beyond_end_is_out_of_bounds() {
    let buffer = Buffer::from_str("abc", None);
    assert_eq!(buffer.insert(4, "x"), Err(OutOfBounds));
    assert_eq!(buffer.insert(usize::MAX, ""), Err(OutOfBounds));
    assert_eq!(buffer.text(), "abc");
    assert!(!buffer.is_modified());
}

#[test]
fn insert_into_empty_buffer() {
    let buffer = Buffer::new();
    assert_eq!(buffer.insert(0, "hi").unwrap().text(), "hi");
    assert_eq!(buffer.insert(1, "hi"), Err(OutOfBounds));
}

#[test]
fn delete_removes_range_and_marks_modified() {
    let buffer = Buffer::from_str("ab\ncd", Some("main.rs".to_string()));
    let edited = buffer.delete(1, 2).unwrap();
    assert_eq!(edited.text(), "acd");
    assert!(edited.is_modified());
    assert_eq!(edited.filename(), Some("main.rs"));
    assert_eq!(buffer.text(), "ab\ncd");
    assert!(!buffer.is_modified());
}

#[test]
fn delete_nothing_still_marks_modified() {
    let buffer = Buffer::from_str("abc", None);
    let edited = buffer.delete(3, 0).unwrap();
    assert_eq!(edited.text(), "abc");
    assert!(edited.is_modified());
}

#[test]
fn delete_whole_text() {
    let buffer = Buffer::from_str("abc", None);
    assert_eq!(buffer.delete(0, 3).unwrap().text(), "");
}

#[test]
fn delete_beyond_end_is_out_of_bounds() {
    let buffer = Buffer::from_str("abc", None);
    assert_eq!(buffer.delete(2, 2), Err(OutOfBounds));
    assert_eq!(buffer.delete(4, 0), Err(OutOfBounds));
    assert_eq!(buffer.delete(0, 4), Err(OutOfBounds));
    assert_eq!(buffer.text(), "abc");
    assert!(!buffer.is_modified());
}

#[test]
fn delete_with_overflowing_range_is_out_of_bounds() {
    let buffer = Buffer::from_str("abc", None);
    assert_eq!(buffer.delete(usize::MAX, 2), Err(OutOfBounds));
    assert_eq!(buffer.delete(2, usize::MAX), Err(OutOfBounds));
}

#[test]
fn delete_then_insert_restores_text() {
    let text = "fn main() {\n    let é = 1;\n}\n";
    let buffer = Buffer::from_str(text, None);
    let chars: Vec<char> = text.chars().collect();
    let length = buffer.len();
    let mut offset = 0;
    while offset <= length {
        let mut count = 0;
        while offset + count <= length {
            let removed: String = chars[offset..offset + count].iter().collect();
            let shorter = buffer.delete(offset, count).unwrap();
            assert_eq!(shorter.len(), length - count);
            let restored = shorter.insert(offset, &removed).unwrap();
            assert_eq!(restored.text(), text);
            count += 1;
        }
        offset += 1;
    }
}

#[test]
fn indices_count_characters_not_bytes() {
    let buffer = Buffer::from_str("héllo", None);
    assert_eq!(buffer.len(), 5);
    assert_eq!(buffer.insert(2, "X").unwrap().text(), "héXllo");
    assert_eq!(buffer.delete(1, 1).unwrap().text(), "hllo");
    assert_eq!(buffer.insert(6, "X"), Err(OutOfBounds));
}

#[test]
fn line_count_of_empty_text_is_one() {
    assert_eq!(Buffer::new().line_count(), 1);
    assert_eq!(Buffer::from_str("", None).line_count(), 1);
}

#[test]
fn line_count_with_one_line_break_is_two() {
    assert_eq!(Buffer::from_str("ab\ncd", None).line_count(), 2);
    assert_eq!(Buffer::from_str("\n", None).line_count(), 2);
    assert_eq!(Buffer::from_str("ab\n", None).line_count(), 2);
}

#[test]
fn line_count_counts_last_partial_line() {
    assert_eq!(Buffer::from_str("abc", None).line_count(), 1);
    assert_eq!(Buffer::from_str("a\nb\nc", None).line_count(), 3);
    assert_eq!(Buffer::from_str("a\nb\nc\n", None).line_count(), 4);
}

#[test]
fn only_line_feeds_break_lines() {
    assert_eq!(Buffer::from_str("a\rb", None).line_count(), 1);
    assert_eq!(Buffer::from_str("a\r\nb", None).line_count(), 2);
    assert_eq!(Buffer::from_str("a\u{2028}b\u{0085}c\u{000B}d", None).line_count(), 1);
}

#[test]
fn line_returns_text_without_terminator() {
    let buffer = Buffer::from_str("ab\ncd\n\nef", None);
    assert_eq!(buffer.line(0), Some("ab".to_string()));
    assert_eq!(buffer.line(1), Some("cd".to_string()));
    assert_eq!(buffer.line(2), Some("".to_string()));
    assert_eq!(buffer.line(3), Some("ef".to_string()));
    assert_eq!(buffer.line(4), None);
}

#[test]
fn line_after_trailing_break_is_empty() {
    let buffer = Buffer::from_str("ab\n", None);
    assert_eq!(buffer.line(0), Some("ab".to_string()));
    assert_eq!(buffer.line(1), Some("".to_string()));
    assert_eq!(buffer.line(2), None);
}

#[test]
fn line_of_empty_buffer() {
    let buffer = Buffer::new();
    assert_eq!(buffer.line(0), Some("".to_string()));
    assert_eq!(buffer.line(1), None);
    assert_eq!(buffer.line(usize::MAX), None);
}

#[test]
fn line_keeps_carriage_return() {
    let buffer = Buffer::from_str("a\r\nb", None);
    assert_eq!(buffer.line(0), Some("a\r".to_string()));
    assert_eq!(buffer.line(1), Some("b".to_string()));
}

#[test]
fn line_with_wide_characters() {
    let buffer = Buffer::from_str("日本語\né", None);
    assert_eq!(buffer.line(0), Some("日本語".to_string()));
    assert_eq!(buffer.line(1), Some("é".to_string()));
}

#[test]
fn lines_agree_with_splitting_at_line_feeds() {
    let text = "one\n\ntwo\r\nthree\n";
    let buffer = Buffer::from_str(text, None);
    let expected: Vec<&str> = text.split('\n').collect();
    assert_eq!(buffer.line_count(), expected.len());
    let mut index = 0;
    while index < expected.len() {
        assert_eq!(buffer.line(index), Some(expected[index].to_string()));
        index += 1;
    }
}

#[test]
fn clone_is_an_equal_snapshot() {
    let buffer = Buffer::from_str("abc", Some("a.txt".to_string()));
    let edited = buffer.insert(3, "d").unwrap();
    let snapshot = edited.clone();
    assert_eq!(snapshot, edited);
    assert_eq!(snapshot.text(), "abcd");
    assert!(snapshot.is_modified());
    assert_eq!(snapshot.filename(), Some("a.txt"));
    let later = edited.delete(0, 1).unwrap();
    assert_eq!(later.text(), "bcd");
    assert_eq!(snapshot.text(), "abcd");
}

#[test]
fn large_text_round_trip() {
    let mut text = String::new();
    let mut i = 0;
    while i < 5000 {
        text.push_str("line of text\n");
        i += 1;
    }
    let buffer = Buffer::from_str(&text, None);
    assert_eq!(buffer.line_count(), 5001);
    assert_eq!(buffer.len(), 13 * 5000);
    assert_eq!(buffer.line(4999), Some("line of text".to_string()));
    let edited = buffer.insert(13 * 2500, "X\n").unwrap();
    assert_eq!(edited.line_count(), 5002);
    assert_eq!(edited.line(2500), Some("X".to_string()));
    assert_eq!(edited.delete(13 * 2500, 2).unwrap().text(), text);
}
