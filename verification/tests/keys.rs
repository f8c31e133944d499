use editor_core::buffer::{Buffer, OutOfBounds};
use editor_core::cursor::CursorPosition;
use editor_core::keys::insert_tab;

#[test]
fn tab_inserts_four_spaces_and_moves_the_cursor() {
    let buffer = Buffer::from_str("ab\ncd", None);
    let cursor = CursorPosition::locate("ab\ncd", 4);
    let (after, moved) = insert_tab(&buffer, cursor).unwrap();
    assert_eq!(after.text(), "ab\nc    d");
    assert!(after.is_modified());
    assert_eq!(moved, CursorPosition { offset: 8, line: 1, column: 5 });
    assert_eq!(moved, CursorPosition::locate(&after.text(), 8));
    assert_eq!(buffer.text(), "ab\ncd");
}

#[test]
fn tab_at_start_and_end() {
    let buffer = Buffer::from_str("x", None);
    let (after, moved) = insert_tab(&buffer, CursorPosition::default()).unwrap();
    assert_eq!(after.text(), "    x");
    assert_eq!(moved, CursorPosition { offset: 4, line: 0, column: 4 });
    let (after, moved) = insert_tab(&buffer, CursorPosition::locate("x", 1)).unwrap();
    assert_eq!(after.text(), "x    ");
    assert_eq!(moved, CursorPosition { offset: 5, line: 0, column: 5 });
}

#[test]
fn tab_keeps_the_cursor_consistent_everywhere() {
    let text = "fn f() {\n\treturn é;\n}\n";
    let buffer = Buffer::from_str(text, None);
    let mut offset = 0;
    while offset <= buffer.len() {
        let cursor = CursorPosition::locate(text, offset);
        let (after, moved) = insert_tab(&buffer, cursor).unwrap();
        assert_eq!(after.len(), buffer.len() + 4);
        assert_eq!(moved, CursorPosition::locate(&after.text(), offset + 4));
        offset += 1;
    }
}

#[test]
fn tab_beyond_end_is_out_of_bounds() {
    let buffer = Buffer::from_str("ab", None);
    let cursor = CursorPosition { offset: 3, line: 0, column: 3 };
    assert_eq!(insert_tab(&buffer, cursor), Err(OutOfBounds));
}

#[test]
fn tab_with_overflowing_column_is_out_of_bounds() {
    let buffer = Buffer::from_str("ab", None);
    let cursor = CursorPosition { offset: 1, line: 0, column: usize::MAX - 3 };
    assert_eq!(insert_tab(&buffer, cursor), Err(OutOfBounds));
    let cursor = CursorPosition { offset: 1, line: 0, column: usize::MAX - 4 };
    assert!(insert_tab(&buffer, cursor).is_ok());
}
