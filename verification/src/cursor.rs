//! The cursor: an absolute character offset together with the line and the
//! column that the offset falls on.

use vstd::prelude::*;
use crate::buffer::BufferView;
use crate::lines::{
    count_breaks, last_line_start, lemma_count_breaks_bound, lemma_count_breaks_concat,
    lemma_last_line_start, lemma_unbroken_suffix, line_count, unbroken, LINE_BREAK,
};

verus! {

/// A position in a text.  `line` and `column` count from 0 and are derived
/// from `offset`: the three are computed together and compared together.
#[derive(Debug, Clone, Copy, PartialEq, Eq, Structural)]
pub struct CursorPosition {
    pub offset: usize,
    pub line: usize,
    pub column: usize,
}

/// The part of `text` in front of `offset`; all of it where `offset` lies
/// beyond its end.
pub open spec fn text_before(text: Seq<char>, offset: int) -> Seq<char> {
    if offset <= 0 {
        Seq::empty()
    } else if offset >= text.len() {
        text
    } else {
        text.take(offset)
    }
}

/// The line that `offset` falls on: the number of line breaks in front of it.
pub open spec fn line_of(text: Seq<char>, offset: int) -> nat {
    count_breaks(text_before(text, offset))
}

/// The column that `offset` falls on: its distance from the position just
/// after the last line break in front of it, or from the start of the text
/// if there is none.
pub open spec fn column_of(text: Seq<char>, offset: int) -> int {
    offset - last_line_start(text_before(text, offset))
}

impl Default for CursorPosition {
    /// The start of a text.
    fn default() -> (position: CursorPosition)
        ensures
            position == (CursorPosition { offset: 0, line: 0, column: 0 }),
    {
        CursorPosition { offset: 0, line: 0, column: 0 }
    }
}

impl CursorPosition {
    /// The offset, line and column agree with each other for `text`.
    pub open spec fn consistent_with(self, text: Seq<char>) -> bool {
        &&& self.line == line_of(text, self.offset as int)
        &&& self.column == column_of(text, self.offset as int)
    }

    /// The position of character offset `offset` in `text`.
    pub fn locate(text: &str, offset: usize) -> (position: CursorPosition)
        ensures
            position.offset == offset,
            position.consistent_with(text@),
    {
        let mut line: usize = 0;
        let mut line_start: usize = 0;
        let mut seen: usize = 0;
        assert(text@.take(0) =~= Seq::<char>::empty());
        for c in it: text.chars()
            invariant
                it.seq() == text@,
                seen == if it.index() < offset {
                    it.index()
                } else {
                    offset as int
                },
                line == count_breaks(text@.take(seen as int)),
                line_start == last_line_start(text@.take(seen as int)),
        {
            if seen < offset {
                proof {
                    let longer = text@.take(seen + 1);
                    assert(longer.drop_last() =~= text@.take(seen as int));
                    assert(longer.last() == c);
                    lemma_count_breaks_bound(text@.take(seen as int));
                }
                if c == LINE_BREAK {
                    line += 1;
                    line_start = seen + 1;
                }
                seen += 1;
            }
        }
        proof {
            assert(text@.take(text@.len() as int) =~= text@);
            assert(text@.take(seen as int) == text_before(text@, offset as int));
            lemma_last_line_start(text@.take(seen as int));
        }
        CursorPosition { offset, line, column: offset - line_start }
    }
}

/// The column never exceeds the offset, no line break lies between the start
/// of the cursor's line and the cursor, and the cursor's line starts either
/// at the start of the text or just after a line break.
pub proof fn lemma_cursor_line(text: Seq<char>, offset: int)
    requires
        0 <= offset <= text.len(),
    ensures
        0 <= column_of(text, offset) <= offset,
        line_of(text, offset) <= offset,
        unbroken(text, offset - column_of(text, offset), offset),
        column_of(text, offset) < offset ==> text[offset - column_of(text, offset) - 1]
            == LINE_BREAK,
{
    let before = text_before(text, offset);
    assert(before =~= text.take(offset));
    lemma_last_line_start(before);
    lemma_count_breaks_bound(before);
    let start = last_line_start(before);
    assert forall|i: int| start <= i < offset implies #[trigger] text[i] != LINE_BREAK by {
        assert(before[i] == text[i]);
    }
    if start > 0 {
        assert(before[start - 1] == text[start - 1]);
    }
}

/// The line that a cursor falls on is one of the lines of the text.
pub proof fn lemma_cursor_within_lines(text: Seq<char>, offset: int)
    ensures
        line_of(text, offset) < line_count(text),
{
    let before = text_before(text, offset);
    if 0 < offset < text.len() {
        lemma_count_breaks_concat(before, text.skip(offset));
        assert(before + text.skip(offset) == text);
    }
}

/// After text without line breaks is inserted at a cursor, the cursor that
/// stands behind the inserted text is on the same line, as many columns to
/// the right as characters were inserted.
pub proof fn lemma_insert_shifts_cursor(buffer: BufferView, offset: int, inserted: Seq<char>)
    requires
        0 <= offset <= buffer.text.len(),
        unbroken(inserted, 0, inserted.len() as int),
    ensures
        line_of(buffer.insert(offset, inserted).unwrap().text, offset + inserted.len()) == line_of(
            buffer.text,
            offset,
        ),
        column_of(buffer.insert(offset, inserted).unwrap().text, offset + inserted.len())
            == column_of(buffer.text, offset) + inserted.len(),
{
    let before = buffer.text.take(offset);
    let after = buffer.insert(offset, inserted).unwrap().text;
    assert(text_before(buffer.text, offset) =~= before);
    assert(text_before(after, offset + inserted.len()) =~= before + inserted);
    lemma_unbroken_suffix(before, inserted);
}

} // verus!
