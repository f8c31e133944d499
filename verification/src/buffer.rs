//! The text buffer: a document held in a rope, edited by character index.
//! Every edit yields a new buffer and leaves the one it started from as it was.

use vstd::prelude::*;
use ropey::Rope;
use crate::lines::{lemma_line_without_break, line_at, line_count, LINE_BREAK};
use crate::rope::{
    rope_clone, rope_from_str, rope_insert, rope_len_chars, rope_len_lines, rope_line, rope_new,
    rope_remove, rope_text, rope_to_string,
};

verus! {

/// The error of an edit whose character indices reach beyond the text.
#[derive(Debug, Clone, Copy, PartialEq, Eq)]
pub struct OutOfBounds;

/// A document: its text, whether it was edited since it was created, and
/// the name of the file it belongs to, if any.
#[derive(Debug, PartialEq)]
pub struct Buffer {
    rope: Rope,
    modified: bool,
    filename: Option<String>,
}

/// What a buffer holds.
pub struct BufferView {
    pub text: Seq<char>,
    pub modified: bool,
    pub filename: Option<Seq<char>>,
}

impl BufferView {
    /// The buffer that results from inserting `text` at `offset`, or `None`
    /// where `offset` lies beyond the end of the text.
    pub open spec fn insert(self, offset: int, text: Seq<char>) -> Option<BufferView> {
        if 0 <= offset <= self.text.len() {
            Some(
                BufferView {
                    text: self.text.take(offset) + text + self.text.skip(offset),
                    modified: true,
                    filename: self.filename,
                },
            )
        } else {
            None
        }
    }

    /// The buffer that results from deleting `count` characters at `offset`,
    /// or `None` where that range reaches beyond the end of the text.
    pub open spec fn delete(self, offset: int, count: int) -> Option<BufferView> {
        if 0 <= offset && 0 <= count && offset + count <= self.text.len() {
            Some(
                BufferView {
                    text: self.text.take(offset) + self.text.skip(offset + count),
                    modified: true,
                    filename: self.filename,
                },
            )
        } else {
            None
        }
    }
}

/// The name that a buffer's filename field stands for.
pub open spec fn name_view(filename: Option<String>) -> Option<Seq<char>> {
    match filename {
        Some(name) => Some(name@),
        None => None,
    }
}

impl View for Buffer {
    type V = BufferView;

    closed spec fn view(&self) -> BufferView {
        BufferView {
            text: rope_text(self.rope),
            modified: self.modified,
            filename: name_view(self.filename),
        }
    }
}

impl Clone for Buffer {
    /// A snapshot of the buffer.  It shares the text's storage with `self`.
    fn clone(&self) -> (copy: Buffer)
        ensures
            copy@ == self@,
    {
        Buffer {
            rope: rope_clone(&self.rope),
            modified: self.modified,
            filename: match &self.filename {
                Some(name) => Some(name.clone()),
                None => None,
            },
        }
    }
}

impl Buffer {
    /// An empty, unmodified buffer without a filename.
    pub fn new() -> (buffer: Buffer)
        ensures
            buffer@ == (BufferView { text: Seq::empty(), modified: false, filename: None }),
    {
        Buffer { rope: rope_new(), modified: false, filename: None }
    }

    /// An unmodified buffer that holds `content`.
    pub fn from_str(content: &str, filename: Option<String>) -> (buffer: Buffer)
        ensures
            buffer@ == (BufferView {
                text: content@,
                modified: false,
                filename: name_view(filename),
            }),
    {
        Buffer { rope: rope_from_str(content), modified: false, filename }
    }

    /// The number of characters in the text.
    pub fn len(&self) -> (n: usize)
        ensures
            n == self@.text.len(),
    {
        rope_len_chars(&self.rope)
    }

    /// A buffer with `text` inserted in front of the character at `offset`;
    /// `OutOfBounds` where `offset` lies beyond the end of the text.
    pub fn insert(&self, offset: usize, text: &str) -> (edited: Result<Buffer, OutOfBounds>)
        ensures
            match edited {
                Ok(buffer) => self@.insert(offset as int, text@) == Some(buffer@),
                Err(_) => self@.insert(offset as int, text@) is None,
            },
    {
        if offset <= rope_len_chars(&self.rope) {
            let mut new_rope = rope_clone(&self.rope);
            rope_insert(&mut new_rope, offset, text);
            Ok(Buffer { rope: new_rope, modified: true, filename: self.filename.clone() })
        } else {
            Err(OutOfBounds)
        }
    }

    /// A buffer without the `count` characters that start at `offset`;
    /// `OutOfBounds` where that range reaches beyond the end of the text.
    pub fn delete(&self, offset: usize, count: usize) -> (edited: Result<Buffer, OutOfBounds>)
        ensures
            match edited {
                Ok(buffer) => self@.delete(offset as int, count as int) == Some(buffer@),
                Err(_) => self@.delete(offset as int, count as int) is None,
            },
    {
        let length = rope_len_chars(&self.rope);
        if offset <= length && count <= length - offset {
            let mut new_rope = rope_clone(&self.rope);
            rope_remove(&mut new_rope, offset, offset + count);
            Ok(Buffer { rope: new_rope, modified: true, filename: self.filename.clone() })
        } else {
            Err(OutOfBounds)
        }
    }

    /// The whole text as one string.
    pub fn text(&self) -> (text: String)
        ensures
            text@ == self@.text,
    {
        rope_to_string(&self.rope)
    }

    /// The number of lines: one more than the number of line breaks.
    pub fn line_count(&self) -> (n: usize)
        ensures
            n == line_count(self@.text),
    {
        rope_len_lines(&self.rope)
    }

    /// The text of line `index`, counted from 0, without the line break that
    /// ends it; `None` where the text has no such line.
    pub fn line(&self, index: usize) -> (line: Option<String>)
        ensures
            match line {
                Some(text) => index < line_count(self@.text) && text@ == line_at(
                    self@.text,
                    index as nat,
                ),
                None => index >= line_count(self@.text),
            },
    {
        if index < rope_len_lines(&self.rope) {
            let raw = rope_line(&self.rope, index);
            proof {
                lemma_line_without_break(self@.text, index as nat);
            }
            let n = raw.as_str().unicode_len();
            if n > 0 && raw.as_str().get_char(n - 1) == LINE_BREAK {
                Some(raw.as_str().substring_char(0, n - 1).to_string())
            } else {
                Some(raw)
            }
        } else {
            None
        }
    }

    /// The name of the file that the buffer belongs to, if it has one.
    pub fn filename(&self) -> (name: Option<&str>)
        ensures
            match name {
                Some(n) => self@.filename == Some(n@),
                None => self@.filename is None,
            },
    {
        match &self.filename {
            Some(name) => Some(name.as_str()),
            None => None,
        }
    }

    /// Whether the buffer is the result of an edit.
    pub fn is_modified(&self) -> (modified: bool)
        ensures
            modified == self@.modified,
    {
        self.modified
    }
}

/// Inserting the empty text at an offset within the text succeeds and leaves
/// the text as it was; the result counts as modified.
pub proof fn lemma_insert_empty(buffer: BufferView, offset: int)
    requires
        0 <= offset <= buffer.text.len(),
    ensures
        buffer.insert(offset, Seq::empty()) == Some(
            BufferView { text: buffer.text, modified: true, filename: buffer.filename },
        ),
{
    assert(buffer.text.take(offset) + Seq::<char>::empty() + buffer.text.skip(offset)
        =~= buffer.text);
}

/// Deleting a range that lies within the text succeeds, and inserting the
/// deleted characters again at the same offset restores the text.
pub proof fn lemma_delete_then_insert(buffer: BufferView, offset: int, count: int)
    requires
        0 <= offset,
        0 <= count,
        offset + count <= buffer.text.len(),
    ensures
        buffer.delete(offset, count) is Some,
        buffer.delete(offset, count).unwrap().insert(
            offset,
            buffer.text.subrange(offset, offset + count),
        ) == Some(BufferView { text: buffer.text, modified: true, filename: buffer.filename }),
{
    let shorter = buffer.delete(offset, count).unwrap().text;
    assert(shorter.take(offset) =~= buffer.text.take(offset));
    assert(shorter.skip(offset) =~= buffer.text.skip(offset + count));
    assert(shorter.take(offset) + buffer.text.subrange(offset, offset + count) + shorter.skip(
        offset,
    ) =~= buffer.text);
}

/// An edit whose indices reach beyond the text is rejected: an insertion at
/// an offset after the end, and a deletion of a range that ends after it.
pub proof fn lemma_out_of_range_rejected(
    buffer: BufferView,
    offset: int,
    count: int,
    text: Seq<char>,
)
    requires
        0 <= offset,
        0 <= count,
    ensures
        offset > buffer.text.len() ==> buffer.insert(offset, text) is None,
        offset + count > buffer.text.len() ==> buffer.delete(offset, count) is None,
{
}

} // verus!
