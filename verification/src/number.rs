//! The textual form of a floating-point number, as accepted when a word is
//! classified as a number.

use vstd::prelude::*;

verus! {

/// An ASCII decimal digit.
pub open spec fn is_digit(c: char) -> bool {
    '0' <= c <= '9'
}

/// A plus or minus sign.
pub open spec fn is_sign(c: char) -> bool {
    c == '+' || c == '-'
}

/// The letter that introduces an exponent, in either case.
pub open spec fn is_exponent_mark(c: char) -> bool {
    c == 'e' || c == 'E'
}

/// `Digit*`: every character is a digit.
pub open spec fn all_digits(s: Seq<char>) -> bool {
    forall|i: int| 0 <= i < s.len() ==> is_digit(#[trigger] s[i])
}

/// `Digit+`: at least one character, all of them digits.
pub open spec fn is_digits(s: Seq<char>) -> bool {
    s.len() > 0 && all_digits(s)
}

/// `c` with an ASCII capital letter replaced by its small letter.
pub open spec fn ascii_lower(c: char) -> char {
    if 'A' <= c <= 'Z' {
        ((c as u32) + 32) as char
    } else {
        c
    }
}

/// `s` spells `word` when ASCII letters are compared without regard to case.
pub open spec fn spells(s: Seq<char>, word: Seq<char>) -> bool {
    s.len() == word.len() && forall|i: int|
        0 <= i < s.len() ==> ascii_lower(#[trigger] s[i]) == word[i]
}

/// `'inf' | 'infinity' | 'nan'`, in any mixture of cases.
pub open spec fn is_special(s: Seq<char>) -> bool {
    spells(s, seq!['i', 'n', 'f']) || spells(s, seq!['i', 'n', 'f', 'i', 'n', 'i', 't', 'y'])
        || spells(s, seq!['n', 'a', 'n'])
}

/// `Digit+ | Digit+ '.' Digit* | Digit* '.' Digit+`: digits with at most one
/// decimal point among them, and at least one digit.
pub open spec fn is_mantissa(s: Seq<char>) -> bool {
    is_digits(s) || exists|dot: int|
        0 <= dot < s.len() && #[trigger] s[dot] == '.' && s.len() > 1 && all_digits(s.take(dot))
            && all_digits(s.skip(dot + 1))
}

/// `'e' Sign? Digit+`.
pub open spec fn is_exponent(s: Seq<char>) -> bool {
    s.len() > 0 && is_exponent_mark(s[0]) && (is_digits(s.skip(1)) || (s.len() > 1 && is_sign(s[1])
        && is_digits(s.skip(2))))
}

/// `Number ::= Mantissa Exponent?`.
pub open spec fn is_number(s: Seq<char>) -> bool {
    is_mantissa(s) || exists|e: int|
        0 <= e < s.len() && is_exponent_mark(#[trigger] s[e]) && is_mantissa(s.take(e))
            && is_exponent(s.skip(e))
}

/// `s` without its leading sign, if it has one.
pub open spec fn unsigned_part(s: Seq<char>) -> Seq<char> {
    if s.len() > 0 && is_sign(s[0]) {
        s.skip(1)
    } else {
        s
    }
}

/// `Float ::= Sign? ( 'inf' | 'infinity' | 'nan' | Number )`: the strings
/// that read as a floating-point number.
pub open spec fn is_float_literal(s: Seq<char>) -> bool {
    is_special(unsigned_part(s)) || is_number(unsigned_part(s))
}

/// `c` in lower case, if it is an ASCII capital letter.
fn lower(c: char) -> (l: char)
    ensures
        l == ascii_lower(c),
{
    if 'A' <= c && c <= 'Z' {
        ((c as u8) + 32) as char
    } else {
        c
    }
}

/// Whether `c` is an ASCII decimal digit.
fn digit(c: char) -> (b: bool)
    ensures
        b == is_digit(c),
{
    '0' <= c && c <= '9'
}

/// Every character of `s` from `lo` up to `hi` is a digit.
spec fn digits_in(s: Seq<char>, lo: int, hi: int) -> bool {
    forall|i: int| lo <= i < hi ==> is_digit(#[trigger] s[i])
}

/// `hi` is where the run of digits that starts at `lo` ends.
spec fn digit_run(s: Seq<char>, lo: int, hi: int) -> bool {
    &&& 0 <= lo <= hi <= s.len()
    &&& digits_in(s, lo, hi)
    &&& hi < s.len() ==> !is_digit(s[hi])
}

/// A decimal point stands at position `at`.
spec fn point_at(u: Seq<char>, at: int) -> bool {
    0 <= at < u.len() && u[at] == '.'
}

/// Where the digits of the exponent start whose mark stands at `mark`:
/// after the mark, and after the sign if one follows the mark.
spec fn exponent_digits(u: Seq<char>, mark: int) -> int {
    if mark + 1 < u.len() && is_sign(u[mark + 1]) {
        mark + 2
    } else {
        mark + 1
    }
}

/// An exponent starts at `mark` and fills the rest of `u`.
spec fn exponent_from(u: Seq<char>, mark: int) -> bool {
    &&& 0 <= mark < u.len()
    &&& is_exponent_mark(u[mark])
    &&& exponent_digits(u, mark) < u.len()
    &&& digits_in(u, exponent_digits(u, mark), u.len() as int)
}

/// Where the digits before the point end at `dot` and the mantissa ends at
/// `end`, the mantissa has a digit.
spec fn mantissa_has_digit(u: Seq<char>, dot: int, end: int) -> bool {
    if point_at(u, dot) {
        end > 1
    } else {
        end > 0
    }
}

/// The runs of digits of the mantissa: one from the start to `dot`, and, if
/// a decimal point stands at `dot`, one from after it to `end`.
spec fn mantissa_runs(u: Seq<char>, dot: int, end: int) -> bool {
    &&& digit_run(u, 0, dot)
    &&& if point_at(u, dot) {
        digit_run(u, dot + 1, end)
    } else {
        end == dot
    }
}

/// Digits of a text are digits of what is left when its start is skipped.
proof fn lemma_skip_digits(s: Seq<char>, start: int, lo: int, hi: int)
    requires
        0 <= start <= lo <= hi <= s.len(),
    ensures
        digits_in(s, lo, hi) <==> digits_in(s.skip(start), lo - start, hi - start),
{
    let u = s.skip(start);
    if digits_in(s, lo, hi) {
        assert forall|i: int| lo - start <= i < hi - start implies is_digit(#[trigger] u[i]) by {
            assert(u[i] == s[i + start]);
        }
    }
    if digits_in(u, lo - start, hi - start) {
        assert forall|i: int| lo <= i < hi implies is_digit(#[trigger] s[i]) by {
            assert(u[i - start] == s[i]);
        }
    }
}

/// A run of digits of a text is a run of what is left when its start is
/// skipped.
proof fn lemma_skip_run(s: Seq<char>, start: int, lo: int, hi: int)
    requires
        0 <= start <= lo,
        digit_run(s, lo, hi),
    ensures
        digit_run(s.skip(start), lo - start, hi - start),
{
    lemma_skip_digits(s, start, lo, hi);
    if hi < s.len() {
        assert(s.skip(start)[hi - start] == s[hi]);
    }
}

/// A mantissa of the given runs that has a digit is a mantissa.
proof fn lemma_mantissa_found(u: Seq<char>, dot: int, end: int)
    requires
        mantissa_runs(u, dot, end),
        mantissa_has_digit(u, dot, end),
    ensures
        is_mantissa(u.take(end)),
{
    let m = u.take(end);
    if point_at(u, dot) {
        assert(m[dot] == '.');
        assert forall|i: int| 0 <= i < m.take(dot).len() implies is_digit(
            #[trigger] m.take(dot)[i],
        ) by {
            assert(m.take(dot)[i] == u[i]);
        }
        assert forall|i: int| 0 <= i < m.skip(dot + 1).len() implies is_digit(
            #[trigger] m.skip(dot + 1)[i],
        ) by {
            assert(m.skip(dot + 1)[i] == u[dot + 1 + i]);
        }
    } else {
        assert forall|i: int| 0 <= i < m.len() implies is_digit(#[trigger] m[i]) by {
            assert(m[i] == u[i]);
        }
    }
}

/// A mantissa that ends where neither a digit nor a point follows ends
/// where the runs of digits end, and has a digit.
proof fn lemma_mantissa_unique(u: Seq<char>, dot: int, end: int, n: int)
    requires
        mantissa_runs(u, dot, end),
        0 <= n <= u.len(),
        n < u.len() ==> !is_digit(u[n]) && u[n] != '.',
        is_mantissa(u.take(n)),
    ensures
        n == end,
        mantissa_has_digit(u, dot, end),
{
    let m = u.take(n);
    if is_digits(m) {
        assert forall|i: int| 0 <= i < n implies is_digit(#[trigger] u[i]) by {
            assert(m[i] == u[i]);
        }
        if dot < n {
            assert(is_digit(u[dot]));
        }
        if dot > n {
            assert(is_digit(u[n]));
        }
    } else {
        let d = choose|d: int|
            0 <= d < m.len() && #[trigger] m[d] == '.' && m.len() > 1 && all_digits(m.take(d))
                && all_digits(m.skip(d + 1));
        assert(u[d] == '.');
        assert forall|i: int| 0 <= i < d implies is_digit(#[trigger] u[i]) by {
            assert(m.take(d)[i] == u[i]);
        }
        assert forall|i: int| d + 1 <= i < n implies is_digit(#[trigger] u[i]) by {
            assert(m.skip(d + 1)[i - d - 1] == u[i]);
        }
        if dot < d {
            assert(is_digit(u[dot]));
        }
        if dot > d {
            assert(is_digit(u[d]));
        }
        assert(dot == d);
        if end < n {
            assert(is_digit(u[end]));
        }
        if end > n {
            assert(is_digit(u[n]));
        }
    }
}

/// What starts with a mark, an optional sign and digits to the end is an
/// exponent.
proof fn lemma_exponent_found(u: Seq<char>, mark: int)
    requires
        exponent_from(u, mark),
    ensures
        is_exponent(u.skip(mark)),
{
    let x = u.skip(mark);
    let digits = exponent_digits(u, mark);
    assert(x[0] == u[mark]);
    if digits == mark + 1 {
        assert forall|i: int| 0 <= i < x.skip(1).len() implies is_digit(#[trigger] x.skip(1)[i]) by {
            assert(x.skip(1)[i] == u[mark + 1 + i]);
        }
    } else {
        assert(x[1] == u[mark + 1]);
        assert forall|i: int| 0 <= i < x.skip(2).len() implies is_digit(#[trigger] x.skip(2)[i]) by {
            assert(x.skip(2)[i] == u[mark + 2 + i]);
        }
    }
}

/// An exponent starts with a mark and has digits to the end, after a sign
/// if there is one.
proof fn lemma_exponent_unique(u: Seq<char>, mark: int)
    requires
        0 <= mark < u.len(),
        is_exponent(u.skip(mark)),
    ensures
        exponent_from(u, mark),
{
    let x = u.skip(mark);
    assert(x[0] == u[mark]);
    if is_digits(x.skip(1)) {
        assert(x.skip(1)[0] == u[mark + 1]);
        assert forall|i: int| mark + 1 <= i < u.len() implies is_digit(#[trigger] u[i]) by {
            assert(x.skip(1)[i - mark - 1] == u[i]);
        }
    } else {
        assert(x[1] == u[mark + 1]);
        assert forall|i: int| mark + 2 <= i < u.len() implies is_digit(#[trigger] u[i]) by {
            assert(x.skip(2)[i - mark - 2] == u[i]);
        }
    }
}

/// A number is a mantissa with a digit that either fills `u` or is followed
/// by an exponent that fills the rest.
proof fn lemma_number_shape(u: Seq<char>, dot: int, end: int)
    requires
        mantissa_runs(u, dot, end),
    ensures
        is_number(u) <==> mantissa_has_digit(u, dot, end) && (end == u.len() || exponent_from(
            u,
            end,
        )),
{
    if mantissa_has_digit(u, dot, end) && (end == u.len() || exponent_from(u, end)) {
        lemma_mantissa_found(u, dot, end);
        if end == u.len() {
            assert(u.take(end) == u);
        } else {
            lemma_exponent_found(u, end);
        }
    }
    if is_number(u) {
        if is_mantissa(u) {
            assert(u.take(u.len() as int) == u);
            lemma_mantissa_unique(u, dot, end, u.len() as int);
        } else {
            let e = choose|e: int|
                0 <= e < u.len() && is_exponent_mark(#[trigger] u[e]) && is_mantissa(u.take(e))
                    && is_exponent(u.skip(e));
            lemma_mantissa_unique(u, dot, end, e);
            lemma_exponent_unique(u, e);
        }
    }
}

/// The end of the run of digits that starts at `from`.
fn digits_end(word: &Vec<char>, from: usize) -> (to: usize)
    requires
        from <= word.len(),
    ensures
        digit_run(word@, from as int, to as int),
{
    let mut to: usize = from;
    while to < word.len() && digit(word[to])
        invariant
            from <= to <= word.len(),
            digits_in(word@, from as int, to as int),
        decreases word.len() - to,
    {
        to += 1;
    }
    to
}

/// Whether the characters of `word` from `from` on spell `name`.
fn spells_from(word: &Vec<char>, from: usize, name: &Vec<char>) -> (b: bool)
    requires
        from <= word.len(),
    ensures
        b == spells(word@.skip(from as int), name@),
{
    if word.len() - from != name.len() {
        return false;
    }
    let mut i: usize = 0;
    while i < name.len()
        invariant
            from <= word.len(),
            word.len() - from == name.len(),
            i <= name.len(),
            forall|j: int|
                0 <= j < i ==> ascii_lower(#[trigger] word@.skip(from as int)[j]) == name@[j],
        decreases name.len() - i,
    {
        assert(word@.skip(from as int)[i as int] == word@[from + i]);
        if lower(word[from + i]) != name[i] {
            return false;
        }
        i += 1;
    }
    true
}

/// Whether an exponent starts at `mark` and fills the rest of what follows
/// `start` in `word`.
fn reads_exponent(word: &Vec<char>, start: usize, mark: usize) -> (b: bool)
    requires
        start <= mark < word.len(),
    ensures
        b == exponent_from(word@.skip(start as int), mark - start),
{
    let n = word.len();
    let ghost u = word@.skip(start as int);
    assert(u[mark - start] == word@[mark as int]);
    if word[mark] != 'e' && word[mark] != 'E' {
        return false;
    }
    let signed = n - mark > 1 && (word[mark + 1] == '+' || word[mark + 1] == '-');
    proof {
        if n - mark > 1 {
            assert(u[mark - start + 1] == word@[mark + 1]);
        }
    }
    if n - mark <= 1 || (signed && n - mark <= 2) {
        return false;
    }
    let digits: usize = if signed {
        mark + 2
    } else {
        mark + 1
    };
    assert(digits - start == exponent_digits(u, mark - start));
    let last = digits_end(word, digits);
    proof {
        lemma_skip_run(word@, start as int, digits as int, last as int);
        if last < n {
            assert(!is_digit(u[last - start]));
        }
    }
    last == n
}

/// Whether what follows `start` in `word` is a number.
fn reads_number(word: &Vec<char>, start: usize) -> (b: bool)
    requires
        start <= word.len(),
    ensures
        b == is_number(word@.skip(start as int)),
{
    let n = word.len();
    let ghost u = word@.skip(start as int);
    let dot = digits_end(word, start);
    let pointed = dot < n && word[dot] == '.';
    let end = if pointed {
        digits_end(word, dot + 1)
    } else {
        dot
    };
    proof {
        lemma_skip_run(word@, start as int, start as int, dot as int);
        if dot < n {
            assert(u[dot - start] == word@[dot as int]);
        }
        if pointed {
            lemma_skip_run(word@, start as int, dot + 1, end as int);
        }
        assert(mantissa_runs(u, dot - start, end - start));
        lemma_number_shape(u, dot - start, end - start);
    }
    let has_digit = if pointed {
        end - start > 1
    } else {
        end > start
    };
    if !has_digit {
        false
    } else if end == n {
        true
    } else {
        reads_exponent(word, start, end)
    }
}

/// Whether the characters of `word` read as a floating-point number.
pub fn reads_as_float(word: &Vec<char>) -> (b: bool)
    ensures
        b == is_float_literal(word@),
{
    let start: usize = if word.len() > 0 && (word[0] == '+' || word[0] == '-') {
        1
    } else {
        0
    };
    assert(word@.skip(start as int) == unsigned_part(word@));
    spells_from(word, start, &vec!['i', 'n', 'f']) || spells_from(
        word,
        start,
        &vec!['i', 'n', 'f', 'i', 'n', 'i', 't', 'y'],
    ) || spells_from(word, start, &vec!['n', 'a', 'n']) || reads_number(word, start)
}

} // verus!
