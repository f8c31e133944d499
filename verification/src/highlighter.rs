//! The highlighter: renders a text as markup, line by line, in the colours
//! of a theme.

use vstd::prelude::*;
use crate::chars::{text_matches, to_chars};
use crate::lines::{
    first_break, lemma_first_break, lemma_first_break_at, lemma_line_count_step, line_at,
    line_count, unbroken, LINE_BREAK,
};
use crate::number::reads_as_float;
use crate::scanner::{
    comment_starts_at, count_leading_whitespace, flush, is_comment_line, keywords_of, line_spans,
    next_step, scan, word_span, Step,
};
use crate::spans::{
    lemma_escape_one, lemma_render_concat, lemma_render_one, push_escaped, push_escaped_char,
    render, render_span, Span, TokenClass,
};
use crate::theme::{Theme, ThemeView};

verus! {

/// What a highlighter is bound to: a language and a theme.
pub struct HighlighterView {
    pub language: Seq<char>,
    pub theme: ThemeView,
}

impl HighlighterView {
    /// The markup of one line.
    pub open spec fn line_markup(self, line: Seq<char>) -> Seq<char> {
        render(self.theme, line_spans(self.language, line))
    }

    /// The markup of a text: the markup of its lines, joined with line
    /// breaks.  A text of n lines has n - 1 line breaks in its markup, none
    /// after the last line; the empty text is one empty line.
    pub open spec fn markup(self, text: Seq<char>) -> Seq<char>
        decreases text.len(),
    {
        let k = first_break(text);
        if 0 <= k < text.len() {
            self.line_markup(text.take(k)).push(LINE_BREAK) + self.markup(text.skip(k + 1))
        } else {
            self.line_markup(text)
        }
    }

    /// The markup of the first `n` lines of `text`, joined with line breaks.
    pub open spec fn lines_markup(self, text: Seq<char>, n: nat) -> Seq<char>
        decreases n,
    {
        if n == 0 {
            Seq::empty()
        } else if n == 1 {
            self.line_markup(line_at(text, 0))
        } else {
            self.lines_markup(text, (n - 1) as nat).push(LINE_BREAK) + self.line_markup(
                line_at(text, (n - 1) as nat),
            )
        }
    }
}

/// The markup of the lines after the first is that of the lines of what
/// follows the first line break.
proof fn lemma_lines_markup_step(highlighter: HighlighterView, text: Seq<char>, n: nat)
    requires
        first_break(text) < text.len(),
        n >= 1,
    ensures
        highlighter.lines_markup(text, n + 1) == highlighter.line_markup(
            line_at(text, 0),
        ).push(LINE_BREAK) + highlighter.lines_markup(text.skip(first_break(text) + 1), n),
    decreases n,
{
    let rest = text.skip(first_break(text) + 1);
    let first = highlighter.line_markup(line_at(text, 0)).push(LINE_BREAK);
    let last = highlighter.line_markup(line_at(text, n));
    assert(line_at(text, n) == line_at(rest, (n - 1) as nat));
    assert(highlighter.lines_markup(text, n + 1) == highlighter.lines_markup(text, n).push(
        LINE_BREAK,
    ) + last);
    if n == 1 {
        assert(highlighter.lines_markup(text, 1) == highlighter.line_markup(line_at(text, 0)));
        assert(highlighter.lines_markup(rest, 1) == last);
    } else {
        lemma_lines_markup_step(highlighter, text, (n - 1) as nat);
        let before = highlighter.lines_markup(rest, (n - 1) as nat);
        assert(highlighter.lines_markup(text, n) == first + before);
        assert(highlighter.lines_markup(rest, n) == before.push(LINE_BREAK) + last);
        assert((first + before).push(LINE_BREAK) + last == first + (before.push(LINE_BREAK)
            + last));
    }
}

/// The markup of a text is the markup of its lines, taken one by one without
/// the line breaks that end them and joined with line breaks.
pub proof fn lemma_markup_by_lines(highlighter: HighlighterView, text: Seq<char>)
    ensures
        highlighter.markup(text) == highlighter.lines_markup(text, line_count(text)),
    decreases text.len(),
{
    lemma_first_break(text);
    lemma_line_count_step(text);
    let k = first_break(text);
    if k < text.len() {
        let rest = text.skip(k + 1);
        lemma_markup_by_lines(highlighter, rest);
        lemma_lines_markup_step(highlighter, text, line_count(rest));
    } else {
        assert(text.take(k) == text);
        assert(highlighter.lines_markup(text, 1) == highlighter.line_markup(line_at(text, 0)));
    }
}

/// The markup of two texts joined with a line break is their markups
/// joined with a line break: every line is classified on its own.
pub proof fn lemma_markup_join(highlighter: HighlighterView, a: Seq<char>, b: Seq<char>)
    ensures
        highlighter.markup(a.push(LINE_BREAK) + b) == highlighter.markup(a).push(LINE_BREAK)
            + highlighter.markup(b),
    decreases a.len(),
{
    let joined = a.push(LINE_BREAK) + b;
    let k = first_break(a);
    lemma_first_break(a);
    assert forall|i: int| 0 <= i < k implies #[trigger] joined[i] != LINE_BREAK by {
        assert(joined[i] == a[i]);
    }
    if k < a.len() {
        assert(joined[k] == a[k]);
        lemma_first_break_at(joined, k);
        assert(joined.take(k) == a.take(k));
        assert(joined.skip(k + 1) == a.skip(k + 1).push(LINE_BREAK) + b);
        lemma_markup_join(highlighter, a.skip(k + 1), b);
        let head = highlighter.line_markup(a.take(k)).push(LINE_BREAK);
        let rest = highlighter.markup(a.skip(k + 1));
        assert(highlighter.markup(a) == head + rest);
        assert(highlighter.markup(joined) == head + (rest.push(LINE_BREAK) + highlighter.markup(
            b,
        )));
        assert(head + (rest.push(LINE_BREAK) + highlighter.markup(b)) == (head + rest).push(
            LINE_BREAK,
        ) + highlighter.markup(b));
    } else {
        assert(joined[k] == LINE_BREAK);
        lemma_first_break_at(joined, k);
        assert(joined.take(k) == a);
        assert(joined.skip(k + 1) == b);
    }
}

/// The markup of a text of one line that is a comment line is a single
/// comment span that holds the whole line, whatever the language.
pub proof fn lemma_comment_line_markup(highlighter: HighlighterView, line: Seq<char>)
    requires
        unbroken(line, 0, line.len() as int),
        is_comment_line(line),
    ensures
        highlighter.markup(line) == render_span(
            highlighter.theme,
            Span { class: Some(TokenClass::Comment), text: line },
        ),
{
    lemma_first_break_at(line, line.len() as int);
    lemma_render_one(highlighter.theme, Span { class: Some(TokenClass::Comment), text: line });
}

/// The markup depends on nothing but the highlighter's language and theme and
/// the text: any two results for the same highlighter and text are the same.
pub proof fn lemma_markup_repeatable(
    highlighter: HighlighterView,
    text: Seq<char>,
    first: Seq<char>,
    second: Seq<char>,
)
    requires
        first == highlighter.markup(text),
        second == highlighter.markup(text),
    ensures
        first == second,
{
}

/// The strings of `words`, as character sequences.
spec fn spellings(words: Seq<&'static str>) -> Seq<Seq<char>> {
    Seq::new(words.len(), |i: int| words[i]@)
}

/// The keyword list of `language`.
fn keyword_list(language: &str) -> (words: Vec<&'static str>)
    ensures
        spellings(words@) == keywords_of(language@),
{
    let name = to_chars(language);
    let words = if text_matches("rust", &name) {
        vec![
            "fn", "let", "mut", "pub", "impl", "struct", "enum", "trait", "use", "mod", "match",
            "if", "else", "for", "while", "loop", "return", "self", "super", "where",
        ]
    } else if text_matches("javascript", &name) {
        vec![
            "function", "var", "let", "const", "class", "import", "export", "from", "return",
            "if", "else", "for", "while", "switch", "case", "default", "break", "continue",
        ]
    } else {
        Vec::new()
    };
    assert(spellings(words@) =~= keywords_of(language@));
    words
}

/// A highlighter for one language, with the theme whose colours it uses.
pub struct SyntaxHighlighter {
    language: String,
    theme: Theme,
    keywords: Vec<&'static str>,
}

impl View for SyntaxHighlighter {
    type V = HighlighterView;

    closed spec fn view(&self) -> HighlighterView {
        HighlighterView { language: self.language@, theme: self.theme@ }
    }
}

impl SyntaxHighlighter {
    #[verifier::type_invariant]
    spec fn keywords_fit_language(&self) -> bool {
        spellings(self.keywords@) == keywords_of(self.language@)
    }

    /// A highlighter for `language` that takes its colours from `theme`.
    pub fn new(language: String, theme: Theme) -> (highlighter: SyntaxHighlighter)
        ensures
            highlighter@.language == language@,
            highlighter@.theme == theme@,
    {
        let keywords = keyword_list(language.as_str());
        SyntaxHighlighter { language, theme, keywords }
    }

    /// Whether `word` is a keyword of the language.
    fn is_keyword(&self, word: &Vec<char>) -> (b: bool)
        ensures
            b == keywords_of(self@.language).contains(word@),
    {
        proof {
            use_type_invariant(self);
        }
        let ghost all = keywords_of(self@.language);
        let mut i: usize = 0;
        while i < self.keywords.len()
            invariant
                i <= self.keywords.len(),
                spellings(self.keywords@) == all,
                all == keywords_of(self@.language),
                forall|j: int| 0 <= j < i ==> all[j] != word@,
            decreases self.keywords.len() - i,
        {
            assert(spellings(self.keywords@)[i as int] == self.keywords@[i as int]@);
            if text_matches(self.keywords[i], word) {
                assert(all[i as int] == word@);
                return true;
            }
            i += 1;
        }
        false
    }

    /// Appends `text` to `result`, wrapped in the colour of `class`.
    fn push_styled(&self, result: &mut String, class: TokenClass, text: &str)
        ensures
            final(result)@ == old(result)@ + render_span(
                self@.theme,
                Span { class: Some(class), text: text@ },
            ),
    {
        let color = self.theme.get_color(class.name());
        result.append("<span style=\"color: ");
        result.append(color.as_str());
        result.append("\">");
        push_escaped(result, text);
        result.append("</span>");
        assert(final(result)@ =~= old(result)@ + render_span(
            self@.theme,
            Span { class: Some(class), text: text@ },
        ));
    }

    /// Appends `word` to `result`: in the keyword colour if it is a keyword of
    /// the language, in the number colour if it reads as a number, and
    /// unstyled otherwise.
    pub fn add_highlighted_word(&self, result: &mut String, word: &str)
        ensures
            final(result)@ == old(result)@ + render_span(
                self@.theme,
                word_span(self@.language, word@),
            ),
    {
        let chars = to_chars(word);
        if self.is_keyword(&chars) {
            self.push_styled(result, TokenClass::Keyword, word);
        } else if reads_as_float(&chars) {
            self.push_styled(result, TokenClass::Number, word);
        } else {
            push_escaped(result, word);
        }
    }

    /// Appends the pending word to `result`, if there is one, and clears it.
    fn flush_word(&self, result: &mut String, current_word: &mut String)
        ensures
            final(result)@ == old(result)@ + render(
                self@.theme,
                flush(self@.language, old(current_word)@),
            ),
            final(current_word)@ == Seq::<char>::empty(),
    {
        if !current_word.as_str().is_empty() {
            proof {
                lemma_render_one(self@.theme, word_span(self@.language, current_word@));
            }
            self.add_highlighted_word(result, current_word.as_str());
            *current_word = String::new();
        } else {
            assert(current_word@ =~= Seq::<char>::empty());
            assert(final(result)@ =~= old(result)@ + Seq::<char>::empty());
        }
    }

    /// The markup of one line.
    pub fn highlight_line(&self, line: &str) -> (markup: String)
        ensures
            markup@ == self@.line_markup(line@),
    {
        let mut result = String::new();
        let chars = to_chars(line);
        let ghost theme = self@.theme;
        let ghost language = self@.language;
        let ghost s = line@;

        if comment_starts_at(&chars, count_leading_whitespace(&chars)) {
            self.push_styled(&mut result, TokenClass::Comment, line);
            proof {
                lemma_render_one(theme, Span { class: Some(TokenClass::Comment), text: s });
            }
            return result;
        }
        let mut in_string = false;
        let mut current_word = String::new();
        let ghost start: int = 0;
        let ghost done: Seq<Span> = Seq::empty();
        let mut i: usize = 0;
        assert(s.subrange(0, 0) =~= Seq::<char>::empty());
        while i < chars.len()
            invariant
                chars@ == s,
                s == line@,
                theme == self@.theme,
                language == self@.language,
                0 <= start <= i <= s.len(),
                current_word@ == s.subrange(start, i as int),
                result@ == render(theme, done),
                done + scan(language, s, i as int, in_string, start) == scan(
                    language,
                    s,
                    0,
                    false,
                    0,
                ),
                !is_comment_line(s),
            decreases chars.len() - i,
        {
            let c = chars[i];
            let comment_here = comment_starts_at(&chars, i);
            let ghost word = s.subrange(start, i as int);
            let ghost rest = scan(language, s, i + 1, false, i + 1);
            assert(s.subrange(i + 1, i + 1) =~= Seq::<char>::empty());
            match next_step(c, comment_here, in_string, c.is_alphanumeric()) {
                Step::CloseString => {
                    current_word.push(c);
                    assert(current_word@ =~= s.subrange(start, i + 1));
                    self.push_styled(
                        &mut result,
                        TokenClass::StringLiteral,
                        current_word.as_str(),
                    );
                    current_word = String::new();
                    in_string = false;
                    proof {
                        let span = Span {
                            class: Some(TokenClass::StringLiteral),
                            text: s.subrange(start, i + 1),
                        };
                        lemma_render_one(theme, span);
                        lemma_render_concat(theme, done, seq![span]);
                        assert((done + seq![span]) + rest =~= done + (seq![span] + rest));
                        done = done + seq![span];
                        start = i + 1;
                    }
                },
                Step::OpenString => {
                    self.flush_word(&mut result, &mut current_word);
                    current_word.push(c);
                    in_string = true;
                    proof {
                        let flushed = flush(language, word);
                        let after = scan(language, s, i + 1, true, i as int);
                        lemma_render_concat(theme, done, flushed);
                        assert((done + flushed) + after =~= done + (flushed + after));
                        done = done + flushed;
                        start = i as int;
                        assert(current_word@ =~= s.subrange(start, i + 1));
                    }
                },
                Step::StartComment => {
                    self.flush_word(&mut result, &mut current_word);
                    let comment = line.substring_char(i, chars.len());
                    self.push_styled(&mut result, TokenClass::Comment, comment);
                    proof {
                        let flushed = flush(language, word);
                        let span = Span { class: Some(TokenClass::Comment), text: s.skip(i as int) };
                        assert(comment@ =~= s.skip(i as int));
                        lemma_render_one(theme, span);
                        lemma_render_concat(theme, done, flushed);
                        lemma_render_concat(theme, done + flushed, seq![span]);
                        assert(flushed.push(span) =~= flushed + seq![span]);
                        assert(done + (flushed + seq![span]) =~= (done + flushed) + seq![span]);
                    }
                    return result;
                },
                Step::Extend => {
                    current_word.push(c);
                    assert(current_word@ =~= s.subrange(start, i + 1));
                },
                Step::Bracket => {
                    self.flush_word(&mut result, &mut current_word);
                    let mut bracket = String::new();
                    bracket.push(c);
                    self.push_styled(&mut result, TokenClass::Bracket, bracket.as_str());
                    proof {
                        let flushed = flush(language, word);
                        let span = Span { class: Some(TokenClass::Bracket), text: seq![c] };
                        assert(bracket@ =~= seq![c]);
                        lemma_render_one(theme, span);
                        lemma_render_concat(theme, done, flushed);
                        lemma_render_concat(theme, done + flushed, seq![span]);
                        assert(flushed.push(span) =~= flushed + seq![span]);
                        assert(((done + flushed) + seq![span]) + rest =~= done + ((flushed
                            + seq![span]) + rest));
                        done = (done + flushed) + seq![span];
                        start = i + 1;
                    }
                },
                Step::Other => {
                    self.flush_word(&mut result, &mut current_word);
                    push_escaped_char(&mut result, c);
                    proof {
                        let flushed = flush(language, word);
                        let span = Span { class: None, text: seq![c] };
                        lemma_render_one(theme, span);
                        lemma_render_concat(theme, done, flushed);
                        lemma_render_concat(theme, done + flushed, seq![span]);
                        assert(flushed.push(span) =~= flushed + seq![span]);
                        assert(((done + flushed) + seq![span]) + rest =~= done + ((flushed
                            + seq![span]) + rest));
                        lemma_escape_one(c);
                        done = (done + flushed) + seq![span];
                        start = i + 1;
                    }
                },
            }
            i += 1;
        }
        proof {
            lemma_render_concat(theme, done, flush(language, current_word@));
        }
        self.flush_word(&mut result, &mut current_word);
        result
    }

    /// The markup of `text`: the markup of its lines, in order, joined with
    /// line breaks.
    pub fn highlight(&self, text: &str) -> (markup: String)
        ensures
            markup@ == self@.markup(text@),
    {
        let mut result = String::new();
        let mut line = String::new();
        let ghost line_start: int = 0;
        assert(text@.skip(0) =~= text@);
        assert(text@.subrange(0, 0) =~= Seq::<char>::empty());
        for c in it: text.chars()
            invariant
                it.seq() == text@,
                0 <= line_start <= it.index(),
                line@ == text@.subrange(line_start, it.index()),
                unbroken(text@, line_start, it.index()),
                result@ + self@.markup(text@.skip(line_start)) == self@.markup(text@),
        {
            let ghost at = it.index();
            let ghost tail = text@.skip(line_start);
            if c == LINE_BREAK {
                let highlighted_line = self.highlight_line(line.as_str());
                let ghost before = result@;
                result.append(highlighted_line.as_str());
                result.push(LINE_BREAK);
                line = String::new();
                proof {
                    assert(tail[at - line_start] == text@[at]);
                    assert forall|j: int| 0 <= j < at - line_start implies #[trigger] tail[j]
                        != LINE_BREAK by {
                        assert(tail[j] == text@[line_start + j]);
                    }
                    lemma_first_break_at(tail, at - line_start);
                    assert(tail.take(at - line_start) =~= text@.subrange(line_start, at));
                    assert(tail.skip(at - line_start + 1) =~= text@.skip(at + 1));
                    let head = self@.line_markup(text@.subrange(line_start, at)).push(LINE_BREAK);
                    assert(result@ =~= before + head);
                    assert((before + head) + self@.markup(text@.skip(at + 1)) =~= before + (head
                        + self@.markup(text@.skip(at + 1))));
                    line_start = at + 1;
                    assert(text@.subrange(line_start, at + 1) =~= Seq::<char>::empty());
                }
            } else {
                line.push(c);
                assert(line@ =~= text@.subrange(line_start, at + 1));
            }
        }
        let highlighted_line = self.highlight_line(line.as_str());
        proof {
            let tail = text@.skip(line_start);
            assert forall|j: int| 0 <= j < tail.len() implies #[trigger] tail[j] != LINE_BREAK by {
                assert(tail[j] == text@[line_start + j]);
            }
            lemma_first_break_at(tail, tail.len() as int);
            assert(tail =~= text@.subrange(line_start, text@.len() as int));
        }
        result.append(highlighted_line.as_str());
        result
    }
}

} // verus!
