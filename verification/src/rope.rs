//! The rope that holds a document's text.  The rope itself comes from the
//! `ropey` crate; this module states what the editor relies on from it.
//! Nothing here is proved: each contract restates what `ropey` documents.
//! The two contracts on lines hold of `ropey` built without its default
//! features, as this crate builds it: with `cr_lines` or `unicode_lines` on,
//! other characters than the line feed would end a line.

use vstd::prelude::*;
use ropey::Rope;
use crate::lines::{line_count, raw_line_at};

verus! {

/// `ropey::Rope`, a text held as a balanced tree of chunks.  Nothing of its
/// inside is visible here; `rope_text` stands for what it holds.
#[verifier::external_type_specification]
#[verifier::external_body]
pub struct ExRope(Rope);

/// The characters that a rope holds, in order.
pub uninterp spec fn rope_text(rope: Rope) -> Seq<char>;

/// `Rope::new`: the empty rope.
#[verifier::external_body]
pub(crate) fn rope_new() -> (rope: Rope)
    ensures
        rope_text(rope) == Seq::<char>::empty(),
{
    Rope::new()
}

/// `Rope::from_str`: a rope that holds the characters of `text`.
#[verifier::external_body]
pub(crate) fn rope_from_str(text: &str) -> (rope: Rope)
    ensures
        rope_text(rope) == text@,
{
    Rope::from_str(text)
}

/// `Rope::clone`: a rope with the same text, sharing storage with `rope`.
#[verifier::external_body]
pub(crate) fn rope_clone(rope: &Rope) -> (copy: Rope)
    ensures
        rope_text(copy) == rope_text(*rope),
{
    rope.clone()
}

/// `Rope::len_chars`: the number of characters in the rope.
#[verifier::external_body]
pub(crate) fn rope_len_chars(rope: &Rope) -> (n: usize)
    ensures
        n == rope_text(*rope).len(),
{
    rope.len_chars()
}

/// `Rope::insert`: puts the characters of `text` in front of the character at
/// index `char_idx`.  It panics where `char_idx` exceeds the length, which the
/// precondition rules out.
#[verifier::external_body]
pub(crate) fn rope_insert(rope: &mut Rope, char_idx: usize, text: &str)
    requires
        char_idx <= rope_text(*old(rope)).len(),
    ensures
        rope_text(*final(rope)) == rope_text(*old(rope)).take(char_idx as int) + text@ + rope_text(
            *old(rope),
        ).skip(char_idx as int),
{
    rope.insert(char_idx, text)
}

/// `Rope::remove` on the range `start..end` of character indices: removes
/// those characters.  It panics where `start` exceeds `end` or `end` exceeds
/// the length, which the precondition rules out.
#[verifier::external_body]
pub(crate) fn rope_remove(rope: &mut Rope, start: usize, end: usize)
    requires
        start <= end <= rope_text(*old(rope)).len(),
    ensures
        rope_text(*final(rope)) == rope_text(*old(rope)).take(start as int) + rope_text(
            *old(rope),
        ).skip(end as int),
{
    rope.remove(start..end)
}

/// The rope's `to_string`: its whole text as one string.
#[verifier::external_body]
pub(crate) fn rope_to_string(rope: &Rope) -> (text: String)
    ensures
        text@ == rope_text(*rope),
{
    rope.to_string()
}

/// `Rope::len_lines`: the number of lines.  The crate is built without its
/// `cr_lines` and `unicode_lines` features, so a line ends at a line feed and
/// nowhere else, and the count is one more than the number of line feeds.
#[verifier::external_body]
pub(crate) fn rope_len_lines(rope: &Rope) -> (n: usize)
    ensures
        n == line_count(rope_text(*rope)),
{
    rope.len_lines()
}

/// `Rope::line`, as a string: the text of line `line_idx`, including the line
/// feed that ends it.  As for `rope_len_lines`, this holds of the crate as it
/// is built here, where a line ends at a line feed and nowhere else.  It panics where `line_idx` is not below the number of
/// lines, which the precondition rules out.
#[verifier::external_body]
pub(crate) fn rope_line(rope: &Rope, line_idx: usize) -> (line: String)
    requires
        line_idx < line_count(rope_text(*rope)),
    ensures
        line@ == raw_line_at(rope_text(*rope), line_idx as nat),
{
    rope.line(line_idx).to_string()
}

} // verus!
