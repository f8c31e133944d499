//! What the keys that the editor handles itself do to a buffer and its cursor.

use vstd::prelude::*;
use crate::buffer::{Buffer, OutOfBounds};
use crate::cursor::{lemma_insert_shifts_cursor, CursorPosition};

verus! {

/// What the tab key inserts: four spaces.
pub open spec fn tab_text() -> Seq<char> {
    seq![' ', ' ', ' ', ' ']
}

/// The effect of the tab key: `buffer` with four spaces inserted at the
/// cursor, and the cursor four columns further right.  `OutOfBounds` where
/// the cursor's offset lies beyond the end of the text or its column cannot
/// grow by four.
pub fn insert_tab(buffer: &Buffer, cursor: CursorPosition) -> (edited: Result<
    (Buffer, CursorPosition),
    OutOfBounds,
>)
    ensures
        match edited {
            Ok((after, moved)) => {
                &&& buffer@.insert(cursor.offset as int, tab_text()) == Some(after@)
                &&& moved.offset == cursor.offset + 4
                &&& moved.line == cursor.line
                &&& moved.column == cursor.column + 4
                &&& cursor.consistent_with(buffer@.text) ==> moved.consistent_with(after@.text)
            },
            Err(_) => cursor.offset > buffer@.text.len() || cursor.column + 4 > usize::MAX,
        },
{
    if cursor.column > usize::MAX - 4 {
        return Err(OutOfBounds);
    }
    proof {
        reveal_strlit("    ");
        assert("    "@ =~= tab_text());
    }
    match buffer.insert(cursor.offset, "    ") {
        Ok(after) => {
            let length = after.len();
            assert(cursor.offset + 4 <= length);
            proof {
                lemma_insert_shifts_cursor(buffer@, cursor.offset as int, tab_text());
            }
            let moved = CursorPosition {
                offset: cursor.offset + 4,
                line: cursor.line,
                column: cursor.column + 4,
            };
            Ok((after, moved))
        },
        Err(error) => Err(error),
    }
}

} // verus!
