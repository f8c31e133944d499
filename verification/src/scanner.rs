//! The line scanner: a single pass over the characters of a line that cuts
//! it into spans of keywords, string literals, comments, brackets, numbers
//! and plain text.

use vstd::prelude::*;
use crate::chars::{alphanumeric, whitespace};
use crate::number::is_float_literal;
use crate::spans::{lemma_spans_text_concat, lemma_spans_text_one, spans_text, Span, TokenClass};

verus! {

/// The keywords of a language; a language without a keyword list has none.
pub open spec fn keywords_of(language: Seq<char>) -> Seq<Seq<char>> {
    if language == "rust"@ {
        seq![
            "fn"@,
            "let"@,
            "mut"@,
            "pub"@,
            "impl"@,
            "struct"@,
            "enum"@,
            "trait"@,
            "use"@,
            "mod"@,
            "match"@,
            "if"@,
            "else"@,
            "for"@,
            "while"@,
            "loop"@,
            "return"@,
            "self"@,
            "super"@,
            "where"@,
        ]
    } else if language == "javascript"@ {
        seq![
            "function"@,
            "var"@,
            "let"@,
            "const"@,
            "class"@,
            "import"@,
            "export"@,
            "from"@,
            "return"@,
            "if"@,
            "else"@,
            "for"@,
            "while"@,
            "switch"@,
            "case"@,
            "default"@,
            "break"@,
            "continue"@,
        ]
    } else {
        Seq::empty()
    }
}

/// The class of a pending word when it is flushed: a keyword of the
/// language, else a number if the whole word reads as one, else none.
pub open spec fn classify_word(language: Seq<char>, word: Seq<char>) -> Option<TokenClass> {
    if keywords_of(language).contains(word) {
        Some(TokenClass::Keyword)
    } else if is_float_literal(word) {
        Some(TokenClass::Number)
    } else {
        None
    }
}

/// The span that a flushed word becomes.
pub open spec fn word_span(language: Seq<char>, word: Seq<char>) -> Span {
    Span { class: classify_word(language, word), text: word }
}

/// What flushing the pending word yields: nothing if no word is pending.
pub open spec fn flush(language: Seq<char>, word: Seq<char>) -> Seq<Span> {
    if word.len() == 0 {
        Seq::empty()
    } else {
        seq![word_span(language, word)]
    }
}

/// One of the characters `(){}[]`.
pub open spec fn is_bracket(c: char) -> bool {
    c == '(' || c == ')' || c == '{' || c == '}' || c == '[' || c == ']'
}

/// A line comment starts at position `at` of `s`: two slashes stand there.
pub open spec fn comment_at(s: Seq<char>, at: int) -> bool {
    0 <= at && at + 1 < s.len() && s[at] == '/' && s[at + 1] == '/'
}

/// What the scanner does with one character.
#[derive(Debug, Clone, Copy, PartialEq, Eq)]
pub enum Step {
    /// A quote outside a string: flush the pending word, start a string.
    OpenString,
    /// A quote inside a string: the string, quotes included, is complete.
    CloseString,
    /// Two slashes outside a string: the rest of the line is a comment.
    StartComment,
    /// The character joins the pending word or string.
    Extend,
    /// A bracket: flush the pending word, emit the bracket on its own.
    Bracket,
    /// Any other character: flush the pending word, emit it unstyled.
    Other,
}

/// The step taken for character `c`, given whether a comment starts at it,
/// whether the scanner is inside a string, and whether `c` is alphanumeric.
pub open spec fn step_of(c: char, comment_here: bool, in_string: bool, alphanumeric: bool) -> Step {
    if c == '"' {
        if in_string {
            Step::CloseString
        } else {
            Step::OpenString
        }
    } else if comment_here && !in_string {
        Step::StartComment
    } else if in_string || alphanumeric || c == '_' {
        Step::Extend
    } else if is_bracket(c) {
        Step::Bracket
    } else {
        Step::Other
    }
}

/// The spans of `s` from position `i` on, where the scanner is inside a
/// string or not and the pending word is `s[start..i]`.
pub open spec fn scan(
    language: Seq<char>,
    s: Seq<char>,
    i: int,
    in_string: bool,
    start: int,
) -> Seq<Span>
    decreases s.len() - i,
{
    if !(0 <= start <= i < s.len()) {
        flush(language, s.subrange(start, i))
    } else {
        let c = s[i];
        match step_of(c, comment_at(s, i), in_string, alphanumeric(c)) {
            Step::CloseString => seq![
                Span { class: Some(TokenClass::StringLiteral), text: s.subrange(start, i + 1) },
            ] + scan(language, s, i + 1, false, i + 1),
            Step::OpenString => flush(language, s.subrange(start, i)) + scan(
                language,
                s,
                i + 1,
                true,
                i,
            ),
            Step::StartComment => flush(language, s.subrange(start, i)).push(
                Span { class: Some(TokenClass::Comment), text: s.skip(i) },
            ),
            Step::Extend => scan(language, s, i + 1, in_string, start),
            Step::Bracket => flush(language, s.subrange(start, i)).push(
                Span { class: Some(TokenClass::Bracket), text: seq![c] },
            ) + scan(language, s, i + 1, false, i + 1),
            Step::Other => flush(language, s.subrange(start, i)).push(
                Span { class: None, text: seq![c] },
            ) + scan(language, s, i + 1, false, i + 1),
        }
    }
}

/// The number of whitespace characters at the start of `s`.
pub open spec fn leading_whitespace(s: Seq<char>) -> int
    decreases s.len(),
{
    if s.len() > 0 && whitespace(s[0]) {
        1 + leading_whitespace(s.skip(1))
    } else {
        0
    }
}

/// The first characters of `s` after its leading whitespace are two slashes.
pub open spec fn is_comment_line(s: Seq<char>) -> bool {
    comment_at(s, leading_whitespace(s))
}

/// The spans of one line: the whole line as a comment if it is a comment
/// line, else what the scanner finds in it.
pub open spec fn line_spans(language: Seq<char>, line: Seq<char>) -> Seq<Span> {
    if is_comment_line(line) {
        seq![Span { class: Some(TokenClass::Comment), text: line }]
    } else {
        scan(language, line, 0, false, 0)
    }
}

/// Whether a line comment starts at position `at` of `chars`.
pub fn comment_starts_at(chars: &Vec<char>, at: usize) -> (b: bool)
    ensures
        b == comment_at(chars@, at as int),
{
    at < chars.len() && chars.len() - at > 1 && chars[at] == '/' && chars[at + 1] == '/'
}

/// The step that the scanner takes for character `c`.
pub fn next_step(c: char, comment_here: bool, in_string: bool, alphanumeric: bool) -> (step: Step)
    ensures
        step == step_of(c, comment_here, in_string, alphanumeric),
{
    if c == '"' {
        if in_string {
            Step::CloseString
        } else {
            Step::OpenString
        }
    } else if comment_here && !in_string {
        Step::StartComment
    } else if in_string || alphanumeric || c == '_' {
        Step::Extend
    } else if c == '(' || c == ')' || c == '{' || c == '}' || c == '[' || c == ']' {
        Step::Bracket
    } else {
        Step::Other
    }
}

/// The number of whitespace characters at the start of `chars`.
pub(crate) fn count_leading_whitespace(chars: &Vec<char>) -> (n: usize)
    ensures
        n == leading_whitespace(chars@),
{
    let mut n: usize = 0;
    assert(chars@.skip(0) =~= chars@);
    while n < chars.len() && chars[n].is_whitespace()
        invariant
            n <= chars.len(),
            leading_whitespace(chars@) == n + leading_whitespace(chars@.skip(n as int)),
        decreases chars.len() - n,
    {
        assert(chars@.skip(n as int).skip(1) == chars@.skip(n + 1));
        n += 1;
    }
    n
}

/// A line that starts with two slashes is a single comment span that holds
/// the whole line, whatever the language.
pub proof fn lemma_comment_from_start(language: Seq<char>, line: Seq<char>)
    requires
        comment_at(line, 0),
    ensures
        line_spans(language, line) == seq![Span { class: Some(TokenClass::Comment), text: line }],
{
    assert(line.skip(0) == line);
    assert(line.subrange(0, 0) == Seq::<char>::empty());
    assert(Seq::<Span>::empty().push(Span { class: Some(TokenClass::Comment), text: line })
        == seq![Span { class: Some(TokenClass::Comment), text: line }]);
}

/// No character of `s` from `lo` up to `hi` is a quote.
pub open spec fn quote_free(s: Seq<char>, lo: int, hi: int) -> bool {
    forall|k: int| lo <= k < hi ==> #[trigger] s[k] != '"'
}

/// Inside a string the scanner takes every character as it is, up to the
/// next quote.
proof fn lemma_string_body(language: Seq<char>, s: Seq<char>, open: int, at: int, close: int)
    requires
        0 <= open < at <= close < s.len(),
        s[close] == '"',
        quote_free(s, at, close),
    ensures
        scan(language, s, at, true, open) == seq![
            Span { class: Some(TokenClass::StringLiteral), text: s.subrange(open, close + 1) },
        ] + scan(language, s, close + 1, false, close + 1),
    decreases close - at,
{
    if at < close {
        assert(s[at] != '"');
        lemma_string_body(language, s, open, at + 1, close);
    }
}

/// A quote outside a string and the next quote after it enclose one string
/// span, quotes included, whatever stands between them; the word pending
/// before the string is flushed, and the scan goes on after the closing quote.
pub proof fn lemma_string_span(
    language: Seq<char>,
    s: Seq<char>,
    start: int,
    open: int,
    close: int,
)
    requires
        0 <= start <= open < close < s.len(),
        s[open] == '"',
        s[close] == '"',
        quote_free(s, open + 1, close),
    ensures
        scan(language, s, open, false, start) == flush(language, s.subrange(start, open)) + (seq![
            Span { class: Some(TokenClass::StringLiteral), text: s.subrange(open, close + 1) },
        ] + scan(language, s, close + 1, false, close + 1)),
{
    lemma_string_body(language, s, open, open + 1, close);
}

/// The text of a flushed word is the word.
proof fn lemma_flush_text(language: Seq<char>, word: Seq<char>)
    ensures
        spans_text(flush(language, word)) == word,
{
    if word.len() > 0 {
        lemma_spans_text_one(word_span(language, word));
    }
}

/// The text of a flushed word and a span after it is the word and the
/// text of the span.
proof fn lemma_flush_push_text(language: Seq<char>, word: Seq<char>, span: Span)
    ensures
        spans_text(flush(language, word).push(span)) == word + span.text,
{
    lemma_flush_text(language, word);
    assert(flush(language, word).push(span).drop_last() == flush(language, word));
}

/// The state in which the scanner goes on after the character at `i`:
/// whether it is inside a string, and where the pending word starts.
spec fn state_after(s: Seq<char>, i: int, in_string: bool, start: int) -> (bool, int) {
    match step_of(s[i], comment_at(s, i), in_string, alphanumeric(s[i])) {
        Step::OpenString => (true, i),
        Step::Extend => (in_string, start),
        _ => (false, i + 1),
    }
}

/// If what the scanner yields after the character at `i` holds the rest of
/// the line, what it yields from `i` on holds the rest from the pending
/// word on.
proof fn lemma_scan_step_covers(
    language: Seq<char>,
    s: Seq<char>,
    i: int,
    in_string: bool,
    start: int,
)
    requires
        0 <= start <= i < s.len(),
        spans_text(
            scan(
                language,
                s,
                i + 1,
                state_after(s, i, in_string, start).0,
                state_after(s, i, in_string, start).1,
            ),
        ) == s.skip(state_after(s, i, in_string, start).1),
    ensures
        spans_text(scan(language, s, i, in_string, start)) == s.skip(start),
{
    let c = s[i];
    let word = s.subrange(start, i);
    let all = scan(language, s, i, in_string, start);
    let flushed = flush(language, word);
    let rest = scan(language, s, i + 1, false, i + 1);
    match step_of(c, comment_at(s, i), in_string, alphanumeric(c)) {
        Step::CloseString => {
            let span = Span {
                class: Some(TokenClass::StringLiteral),
                text: s.subrange(start, i + 1),
            };
            assert(all == seq![span] + rest);
            lemma_spans_text_one(span);
            lemma_spans_text_concat(seq![span], rest);
            assert(spans_text(all) == span.text + s.skip(i + 1));
            assert(s.subrange(start, i + 1) + s.skip(i + 1) == s.skip(start));
        },
        Step::OpenString => {
            let inside = scan(language, s, i + 1, true, i);
            assert(all == flushed + inside);
            lemma_flush_text(language, word);
            lemma_spans_text_concat(flushed, inside);
            assert(spans_text(all) == word + s.skip(i));
            assert(word + s.skip(i) == s.skip(start));
        },
        Step::StartComment => {
            let span = Span { class: Some(TokenClass::Comment), text: s.skip(i) };
            assert(all == flushed.push(span));
            lemma_flush_push_text(language, word, span);
            assert(word + s.skip(i) == s.skip(start));
        },
        Step::Extend => {
            assert(all == scan(language, s, i + 1, in_string, start));
        },
        Step::Bracket => {
            let span = Span { class: Some(TokenClass::Bracket), text: seq![c] };
            assert(all == flushed.push(span) + rest);
            lemma_flush_push_text(language, word, span);
            lemma_spans_text_concat(flushed.push(span), rest);
            assert(spans_text(all) == (word + seq![c]) + s.skip(i + 1));
            assert((word + seq![c]) + s.skip(i + 1) == s.skip(start));
        },
        Step::Other => {
            let span = Span { class: None, text: seq![c] };
            assert(all == flushed.push(span) + rest);
            lemma_flush_push_text(language, word, span);
            lemma_spans_text_concat(flushed.push(span), rest);
            assert(spans_text(all) == (word + seq![c]) + s.skip(i + 1));
            assert((word + seq![c]) + s.skip(i + 1) == s.skip(start));
        },
    }
}

/// What the scanner yields from a position on holds the pending word and
/// the characters from the position on.
proof fn lemma_scan_covers(language: Seq<char>, s: Seq<char>, i: int, in_string: bool, start: int)
    requires
        0 <= start <= i <= s.len(),
    ensures
        spans_text(scan(language, s, i, in_string, start)) == s.skip(start),
    decreases s.len() - i,
{
    if i == s.len() {
        lemma_flush_text(language, s.subrange(start, i));
        assert(s.subrange(start, i) == s.skip(start));
    } else {
        let next = state_after(s, i, in_string, start);
        lemma_scan_covers(language, s, i + 1, next.0, next.1);
        lemma_scan_step_covers(language, s, i, in_string, start);
    }
}

/// Highlighting loses and adds no character: the texts of the spans of a
/// line, joined in order, are the line.
pub proof fn lemma_spans_cover_line(language: Seq<char>, line: Seq<char>)
    ensures
        spans_text(line_spans(language, line)) == line,
{
    if is_comment_line(line) {
        lemma_spans_text_one(Span { class: Some(TokenClass::Comment), text: line });
    } else {
        lemma_scan_covers(language, line, 0, false, 0);
        assert(line.skip(0) == line);
    }
}

} // verus!
