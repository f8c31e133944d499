use editor_core::cursor::CursorPosition;

#[test]
fn cursor_on_second_line() {
    assert_eq!(
        CursorPosition::locate("ab\ncd", 4),
        CursorPosition { offset: 4, line: 1, column: 1 }
    );
}

#[test]
fn cursor_at_start() {
    assert_eq!(
        CursorPosition::locate("ab\ncd", 0),
        CursorPosition { offset: 0, line: 0, column: 0 }
    );
    assert_eq!(CursorPosition::locate("", 0), CursorPosition { offset: 0, line: 0, column: 0 });
}

#[test]
fn cursor_before_and_after_line_break() {
    assert_eq!(
        CursorPosition::locate("ab\ncd", 2),
        CursorPosition { offset: 2, line: 0, column: 2 }
    );
    assert_eq!(
        CursorPosition::locate("ab\ncd", 3),
        CursorPosition { offset: 3, line: 1, column: 0 }
    );
}

#[test]
fn cursor_at_end_of_text() {
    assert_eq!(
        CursorPosition::locate("ab\ncd", 5),
        CursorPosition { offset: 5, line: 1, column: 2 }
    );
    assert_eq!(
        CursorPosition::locate("ab\n", 3),
        CursorPosition { offset: 3, line: 1, column: 0 }
    );
}

#[test]
fn cursor_counts_characters_not_bytes() {
    assert_eq!(
        CursorPosition::locate("é\n日本語", 4),
        CursorPosition { offset: 4, line: 1, column: 2 }
    );
}

#[test]
fn cursor_on_consecutive_line_breaks() {
    assert_eq!(
        CursorPosition::locate("a\n\n\nb", 3),
        CursorPosition { offset: 3, line: 2, column: 0 }
    );
    assert_eq!(
        CursorPosition::locate("a\n\n\nb", 5),
        CursorPosition { offset: 5, line: 3, column: 1 }
    );
}

#[test]
fn cursor_beyond_end_counts_from_last_line_start() {
    assert_eq!(
        CursorPosition::locate("ab\ncd", 9),
        CursorPosition { offset: 9, line: 1, column: 6 }
    );
}

#[test]
fn cursor_agrees_with_counting_line_breaks() {
    let text = "fn main() {\n    let x = 1;\n\n}\n";
    let chars: Vec<char> = text.chars().collect();
    let mut offset = 0;
    while offset <= chars.len() {
        let before = &chars[..offset];
        let line = before.iter().filter(|c| **c == '\n').count();
        let start = before.iter().rposition(|c| *c == '\n').map(|i| i + 1).unwrap_or(0);
        assert_eq!(
            CursorPosition::locate(text, offset),
            CursorPosition { offset, line, column: offset - start }
        );
        offset += 1;
    }
}

#[test]
fn default_cursor_is_start() {
    assert_eq!(CursorPosition::default(), CursorPosition { offset: 0, line: 0, column: 0 });
}

#[test]
fn equal_positions_compare_equal() {
    let first = CursorPosition::locate("ab\ncd", 4);
    let second = CursorPosition::locate("xy\nzw", 4);
    assert_eq!(first, second);
    assert_ne!(first, CursorPosition::locate("ab\ncd", 3));
}
