//! Spans: runs of text with the class that decides their colour, and the
//! markup that they are rendered to.

use vstd::prelude::*;
use crate::theme::ThemeView;

verus! {

/// The classes of text that are shown in a colour of their own.
#[derive(Debug, Clone, Copy, PartialEq, Eq)]
pub enum TokenClass {
    Keyword,
    StringLiteral,
    Comment,
    Bracket,
    Number,
}

/// The name under which a theme is asked for the colour of a class.
pub open spec fn class_name(class: TokenClass) -> Seq<char> {
    match class {
        TokenClass::Keyword => "keyword"@,
        TokenClass::StringLiteral => "string"@,
        TokenClass::Comment => "comment"@,
        TokenClass::Bracket => "bracket"@,
        TokenClass::Number => "number"@,
    }
}

impl TokenClass {
    /// The name under which a theme is asked for the colour of this class.
    pub fn name(&self) -> (name: &'static str)
        ensures
            name@ == class_name(*self),
    {
        match self {
            TokenClass::Keyword => "keyword",
            TokenClass::StringLiteral => "string",
            TokenClass::Comment => "comment",
            TokenClass::Bracket => "bracket",
            TokenClass::Number => "number",
        }
    }
}

/// A run of characters of one line together with its class, or with `None`
/// where it is shown unstyled.
pub struct Span {
    pub class: Option<TokenClass>,
    pub text: Seq<char>,
}

/// What stands for one character of text in markup: a character that
/// markup gives a meaning of its own is written as an entity, every other
/// character as itself.
pub open spec fn escape_char(c: char) -> Seq<char> {
    if c == '&' {
        "&amp;"@
    } else if c == '<' {
        "&lt;"@
    } else if c == '>' {
        "&gt;"@
    } else {
        seq![c]
    }
}

/// What stands for a text in markup: what stands for each of its
/// characters, in order.
pub open spec fn escape(text: Seq<char>) -> Seq<char>
    decreases text.len(),
{
    if text.len() == 0 {
        Seq::empty()
    } else {
        escape(text.drop_last()) + escape_char(text.last())
    }
}

/// The markup of one span: its text, escaped, and wrapped in a colour
/// annotation if it has a class.
pub open spec fn render_span(theme: ThemeView, span: Span) -> Seq<char> {
    match span.class {
        Some(class) => "<span style=\"color: "@ + theme.color(class_name(class)) + "\">"@
            + escape(span.text) + "</span>"@,
        None => escape(span.text),
    }
}

/// The markup of a sequence of spans: that of each span, in order.
pub open spec fn render(theme: ThemeView, spans: Seq<Span>) -> Seq<char>
    decreases spans.len(),
{
    if spans.len() == 0 {
        Seq::empty()
    } else {
        render(theme, spans.drop_last()) + render_span(theme, spans.last())
    }
}

/// The texts of `spans`, joined in order.
pub open spec fn spans_text(spans: Seq<Span>) -> Seq<char>
    decreases spans.len(),
{
    if spans.len() == 0 {
        Seq::empty()
    } else {
        spans_text(spans.drop_last()) + spans.last().text
    }
}

/// The markup of spans that follow one another is the markup of the first
/// followed by that of the second.
pub proof fn lemma_render_concat(theme: ThemeView, a: Seq<Span>, b: Seq<Span>)
    ensures
        render(theme, a + b) == render(theme, a) + render(theme, b),
    decreases b.len(),
{
    if b.len() == 0 {
        assert(a + b == a);
    } else {
        assert((a + b).drop_last() == a + b.drop_last());
        lemma_render_concat(theme, a, b.drop_last());
    }
}

/// The markup of a single span.
pub proof fn lemma_render_one(theme: ThemeView, span: Span)
    ensures
        render(theme, seq![span]) == render_span(theme, span),
{
    assert(seq![span].drop_last() =~= Seq::<Span>::empty());
    assert(render(theme, Seq::<Span>::empty()) == Seq::<char>::empty());
    assert(Seq::<char>::empty() + render_span(theme, span) =~= render_span(theme, span));
}

/// The text of spans that follow one another is the text of the first
/// followed by that of the second.
pub proof fn lemma_spans_text_concat(a: Seq<Span>, b: Seq<Span>)
    ensures
        spans_text(a + b) == spans_text(a) + spans_text(b),
    decreases b.len(),
{
    if b.len() == 0 {
        assert(a + b == a);
    } else {
        assert((a + b).drop_last() == a + b.drop_last());
        lemma_spans_text_concat(a, b.drop_last());
    }
}

/// The text of a single span.
pub proof fn lemma_spans_text_one(span: Span)
    ensures
        spans_text(seq![span]) == span.text,
{
    assert(seq![span].drop_last() =~= Seq::<Span>::empty());
    assert(spans_text(Seq::<Span>::empty()) == Seq::<char>::empty());
}

/// What stands for a character in markup holds no angle bracket.
proof fn lemma_escape_char_has_no_tag(c: char)
    ensures
        forall|i: int|
            0 <= i < escape_char(c).len() ==> #[trigger] escape_char(c)[i] != '<' && escape_char(
                c,
            )[i] != '>',
{
    reveal_strlit("&amp;");
    reveal_strlit("&lt;");
    reveal_strlit("&gt;");
}

/// Escaped text holds no angle bracket: nothing in it opens or closes a
/// tag.
pub proof fn lemma_escape_has_no_tag(text: Seq<char>)
    ensures
        forall|i: int|
            0 <= i < escape(text).len() ==> #[trigger] escape(text)[i] != '<' && escape(text)[i]
                != '>',
    decreases text.len(),
{
    if text.len() > 0 {
        let front = escape(text.drop_last());
        let last = escape_char(text.last());
        lemma_escape_has_no_tag(text.drop_last());
        lemma_escape_char_has_no_tag(text.last());
        assert forall|i: int| 0 <= i < escape(text).len() implies #[trigger] escape(text)[i] != '<'
            && escape(text)[i] != '>' by {
            if i < front.len() {
                assert(escape(text)[i] == front[i]);
            } else {
                assert(escape(text)[i] == last[i - front.len()]);
            }
        }
    }
}

/// What stands for a text of one character is what stands for the
/// character.
pub proof fn lemma_escape_one(c: char)
    ensures
        escape(seq![c]) == escape_char(c),
{
    assert(seq![c].drop_last() == Seq::<char>::empty());
    assert(escape(Seq::<char>::empty()) == Seq::<char>::empty());
    assert(Seq::<char>::empty() + escape_char(c) == escape_char(c));
}

/// Text without `&`, `<` and `>` is its own escaped form.
pub proof fn lemma_escape_plain(text: Seq<char>)
    requires
        forall|i: int|
            0 <= i < text.len() ==> #[trigger] text[i] != '&' && text[i] != '<' && text[i] != '>',
    ensures
        escape(text) == text,
    decreases text.len(),
{
    if text.len() > 0 {
        let front = text.drop_last();
        assert forall|i: int| 0 <= i < front.len() implies #[trigger] front[i] != '&' && front[i]
            != '<' && front[i] != '>' by {
            assert(front[i] == text[i]);
        }
        lemma_escape_plain(front);
        assert(front + seq![text.last()] == text);
    }
}

/// Appends to `result` what stands for `c` in markup.
pub fn push_escaped_char(result: &mut String, c: char)
    ensures
        final(result)@ == old(result)@ + escape_char(c),
{
    if c == '&' {
        result.append("&amp;");
    } else if c == '<' {
        result.append("&lt;");
    } else if c == '>' {
        result.append("&gt;");
    } else {
        result.push(c);
        assert(old(result)@.push(c) == old(result)@ + seq![c]);
    }
}

/// Appends to `result` what stands for `text` in markup.
pub fn push_escaped(result: &mut String, text: &str)
    ensures
        final(result)@ == old(result)@ + escape(text@),
{
    assert(text@.take(0) == Seq::<char>::empty());
    assert(old(result)@ + Seq::<char>::empty() == old(result)@);
    for c in it: text.chars()
        invariant
            it.seq() == text@,
            result@ == old(result)@ + escape(text@.take(it.index())),
    {
        let ghost before = text@.take(it.index());
        assert(text@.take(it.index() + 1).drop_last() == before);
        assert(text@.take(it.index() + 1).last() == c);
        push_escaped_char(result, c);
        assert((old(result)@ + escape(before)) + escape_char(c) == old(result)@ + (escape(before)
            + escape_char(c)));
    }
    assert(text@.take(text@.len() as int) == text@);
}

} // verus!
