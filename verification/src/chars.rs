//! Character-level helpers: classification of single characters and
//! conversions between strings and character vectors.

use vstd::prelude::*;

verus! {

/// Whether a character beyond ASCII is alphanumeric in the sense of the
/// Unicode character database (alphabetic or numeric), as reported by the
/// standard library.
pub uninterp spec fn unicode_alphanumeric(c: char) -> bool;

/// Whether a character beyond ASCII carries the Unicode `White_Space`
/// property, as reported by the standard library.
pub uninterp spec fn unicode_whitespace(c: char) -> bool;

/// An ASCII letter or digit.
pub open spec fn ascii_letter_or_digit(c: char) -> bool {
    'a' <= c <= 'z' || 'A' <= c <= 'Z' || '0' <= c <= '9'
}

/// An ASCII whitespace character: the space and the controls from the
/// horizontal tab to the carriage return.
pub open spec fn ascii_space(c: char) -> bool {
    c == ' ' || '\x09' <= c <= '\x0d'
}

/// Whether `c` is alphanumeric: within ASCII a letter or a digit, beyond it
/// what the Unicode character database says.
pub open spec fn alphanumeric(c: char) -> bool {
    if c <= '\x7f' {
        ascii_letter_or_digit(c)
    } else {
        unicode_alphanumeric(c)
    }
}

/// Whether `c` is whitespace: within ASCII the space and the controls from
/// the horizontal tab to the carriage return, beyond it what the Unicode
/// character database says.
pub open spec fn whitespace(c: char) -> bool {
    if c <= '\x7f' {
        ascii_space(c)
    } else {
        unicode_whitespace(c)
    }
}

/// `char::is_alphanumeric` tells whether the character is alphabetic or
/// numeric by the Unicode character database.  Within ASCII these are the
/// letters and the digits; beyond ASCII the result is a function of the
/// character alone, and nothing is claimed about which characters it accepts.
pub assume_specification[ char::is_alphanumeric ](c: char) -> (b: bool)
    ensures
        c <= '\x7f' ==> b == ascii_letter_or_digit(c),
        c > '\x7f' ==> b == unicode_alphanumeric(c),
;

/// `char::is_whitespace` tells whether the character has the Unicode
/// `White_Space` property.  Within ASCII these are the space and the
/// controls U+0009 to U+000D; beyond ASCII the result is a function of the
/// character alone, and nothing is claimed about which characters it accepts.
pub assume_specification[ char::is_whitespace ](c: char) -> (b: bool)
    ensures
        c <= '\x7f' ==> b == ascii_space(c),
        c > '\x7f' ==> b == unicode_whitespace(c),
;

/// `String::push` appends the given character to the end of the string.
pub assume_specification[ String::push ](s: &mut String, c: char)
    ensures
        final(s)@ == old(s)@.push(c),
;

/// The characters of `text`, in order.
pub fn to_chars(text: &str) -> (chars: Vec<char>)
    ensures
        chars@ == text@,
{
    let mut chars: Vec<char> = Vec::new();
    for c in it: text.chars()
        invariant
            it.seq() == text@,
            chars@ == text@.take(it.index()),
    {
        chars.push(c);
    }
    chars
}

/// Whether `text` consists of exactly the characters `chars`.
pub fn text_matches(text: &str, chars: &Vec<char>) -> (same: bool)
    ensures
        same == (text@ == chars@),
{
    let mut same = true;
    let mut n: usize = 0;
    for c in it: text.chars()
        invariant
            it.seq() == text@,
            same ==> n == it.index() <= chars.len(),
            same ==> text@.take(it.index()) == chars@.take(it.index()),
            !same ==> text@ != chars@,
    {
        if same {
            if n < chars.len() && chars[n] == c {
                assert(text@.take(n + 1) == text@.take(n as int).push(c));
                assert(chars@.take(n + 1) == chars@.take(n as int).push(c));
                n += 1;
            } else {
                assert(text@[n as int] == c);
                same = false;
            }
        }
    }
    proof {
        if same {
            assert(text@.take(text@.len() as int) == text@);
            if n == chars.len() {
                assert(chars@.take(chars@.len() as int) == chars@);
            }
        }
    }
    same && n == chars.len()
}

/// `part` occurs in `s` at position `at`.
pub open spec fn occurs_at(s: Seq<char>, part: Seq<char>, at: int) -> bool {
    0 <= at && at + part.len() <= s.len() && s.subrange(at, at + part.len()) == part
}

/// `part` occurs somewhere in `s`.
pub open spec fn contains_text(s: Seq<char>, part: Seq<char>) -> bool {
    exists|at: int| occurs_at(s, part, at)
}

/// Whether `part` occurs in `chars` at position `at`.
fn found_at(chars: &Vec<char>, part: &Vec<char>, at: usize) -> (b: bool)
    requires
        at + part.len() <= chars.len(),
    ensures
        b == occurs_at(chars@, part@, at as int),
{
    let ghost window = chars@.subrange(at as int, at + part.len());
    let mut i: usize = 0;
    while i < part.len()
        invariant
            at + part.len() <= chars.len(),
            window == chars@.subrange(at as int, at + part.len()),
            i <= part.len(),
            forall|j: int| 0 <= j < i ==> window[j] == part@[j],
        decreases part.len() - i,
    {
        assert(window[i as int] == chars@[at + i]);
        if chars[at + i] != part[i] {
            return false;
        }
        i += 1;
    }
    assert(window =~= part@);
    true
}

/// Whether `part` occurs somewhere in `text`.
pub fn text_contains(text: &str, part: &str) -> (b: bool)
    ensures
        b == contains_text(text@, part@),
{
    let chars = to_chars(text);
    let wanted = to_chars(part);
    if wanted.len() > chars.len() {
        return false;
    }
    let last = chars.len() - wanted.len();
    let mut at: usize = 0;
    loop
        invariant
            last + wanted.len() == chars.len(),
            at <= last,
            chars@ == text@,
            wanted@ == part@,
            forall|j: int| 0 <= j < at ==> !occurs_at(text@, part@, j),
        decreases last - at,
    {
        if found_at(&chars, &wanted, at) {
            return true;
        }
        if at == last {
            return false;
        }
        at += 1;
    }
}

} // verus!
