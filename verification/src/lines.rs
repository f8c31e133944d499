//! The line structure of a text: where its line breaks are, how many lines
//! it has, and what each line holds.

use vstd::prelude::*;

verus! {

/// The character that ends a line.
pub const LINE_BREAK: char = '\n';

/// The number of line breaks in `s`.
pub open spec fn count_breaks(s: Seq<char>) -> nat
    decreases s.len(),
{
    if s.len() == 0 {
        0
    } else {
        count_breaks(s.drop_last()) + if s.last() == LINE_BREAK {
            1nat
        } else {
            0nat
        }
    }
}

/// The number of lines of `s`: one more than its line breaks, so that the
/// empty text has one line and a trailing line break opens a last, empty line.
pub open spec fn line_count(s: Seq<char>) -> nat {
    count_breaks(s) + 1
}

/// The position of the first line break of `s`, or the length of `s` if it
/// has none.
pub open spec fn first_break(s: Seq<char>) -> int
    decreases s.len(),
{
    if s.len() == 0 || s[0] == LINE_BREAK {
        0
    } else {
        1 + first_break(s.skip(1))
    }
}

/// The position just after the last line break of `s`, or 0 if it has none:
/// where the last line of `s` starts.
pub open spec fn last_line_start(s: Seq<char>) -> int
    decreases s.len(),
{
    if s.len() == 0 {
        0
    } else if s.last() == LINE_BREAK {
        s.len() as int
    } else {
        last_line_start(s.drop_last())
    }
}

/// Line `n` of `s`, counted from 0, with the line break that ends it (the
/// last line has none).  Empty where `s` has no such line.
pub open spec fn raw_line_at(s: Seq<char>, n: nat) -> Seq<char>
    decreases n,
{
    let k = first_break(s);
    if n == 0 {
        if k < s.len() {
            s.take(k + 1)
        } else {
            s
        }
    } else if k < s.len() {
        raw_line_at(s.skip(k + 1), (n - 1) as nat)
    } else {
        Seq::empty()
    }
}

/// Line `n` of `s`, counted from 0, without the line break that ends it.
/// Empty where `s` has no such line.
pub open spec fn line_at(s: Seq<char>, n: nat) -> Seq<char>
    decreases n,
{
    let k = first_break(s);
    if n == 0 {
        s.take(k)
    } else if k < s.len() {
        line_at(s.skip(k + 1), (n - 1) as nat)
    } else {
        Seq::empty()
    }
}

/// The first `n` lines of `s`, each with the line break that ends it,
/// joined in order.
pub open spec fn raw_lines(s: Seq<char>, n: nat) -> Seq<char>
    decreases n,
{
    if n == 0 {
        Seq::empty()
    } else {
        raw_lines(s, (n - 1) as nat) + raw_line_at(s, (n - 1) as nat)
    }
}

/// `s` without the line break at its end, if it ends in one.
pub open spec fn without_break(s: Seq<char>) -> Seq<char> {
    if s.len() > 0 && s.last() == LINE_BREAK {
        s.drop_last()
    } else {
        s
    }
}

/// No character of `s` from `lo` up to `hi` is a line break.
pub open spec fn unbroken(s: Seq<char>, lo: int, hi: int) -> bool {
    forall|i: int| lo <= i < hi ==> #[trigger] s[i] != LINE_BREAK
}

/// `first_break` lies within the text, nothing before it is a line break, and
/// it is one unless it is the end of the text.
pub proof fn lemma_first_break(s: Seq<char>)
    ensures
        0 <= first_break(s) <= s.len(),
        unbroken(s, 0, first_break(s)),
        first_break(s) < s.len() ==> s[first_break(s)] == LINE_BREAK,
    decreases s.len(),
{
    if !(s.len() == 0 || s[0] == LINE_BREAK) {
        let rest = s.skip(1);
        lemma_first_break(rest);
        assert forall|i: int| 0 <= i < first_break(s) implies #[trigger] s[i] != LINE_BREAK by {
            if i > 0 {
                assert(rest[i - 1] == s[i]);
            }
        }
    }
}

/// A position with nothing but other characters before it, which is a line
/// break or the end of the text, is the first line break.
pub proof fn lemma_first_break_at(s: Seq<char>, k: int)
    requires
        0 <= k <= s.len(),
        unbroken(s, 0, k),
        k < s.len() ==> s[k] == LINE_BREAK,
    ensures
        first_break(s) == k,
{
    lemma_first_break(s);
    let f = first_break(s);
    if f < k {
        assert(s[f] != LINE_BREAK);
    }
    if k < f {
        assert(s[k] != LINE_BREAK);
    }
}

/// `last_line_start` lies within the text, no line break follows it, and a
/// line break stands just before it unless it is the start of the text.
pub proof fn lemma_last_line_start(s: Seq<char>)
    ensures
        0 <= last_line_start(s) <= s.len(),
        unbroken(s, last_line_start(s), s.len() as int),
        last_line_start(s) > 0 ==> s[last_line_start(s) - 1] == LINE_BREAK,
    decreases s.len(),
{
    if s.len() > 0 && s.last() != LINE_BREAK {
        let front = s.drop_last();
        lemma_last_line_start(front);
        assert forall|i: int| last_line_start(s) <= i < s.len() implies #[trigger] s[i]
            != LINE_BREAK by {
            if i < front.len() {
                assert(front[i] == s[i]);
            }
        }
        if last_line_start(s) > 0 {
            assert(front[last_line_start(s) - 1] == s[last_line_start(s) - 1]);
        }
    }
}

/// The number of line breaks never exceeds the number of characters.
pub proof fn lemma_count_breaks_bound(s: Seq<char>)
    ensures
        count_breaks(s) <= s.len(),
    decreases s.len(),
{
    if s.len() > 0 {
        lemma_count_breaks_bound(s.drop_last());
    }
}

/// The line breaks of a text in two parts are those of the parts.
pub proof fn lemma_count_breaks_concat(a: Seq<char>, b: Seq<char>)
    ensures
        count_breaks(a + b) == count_breaks(a) + count_breaks(b),
    decreases b.len(),
{
    if b.len() == 0 {
        assert(a + b == a);
    } else {
        assert((a + b).drop_last() == a + b.drop_last());
        lemma_count_breaks_concat(a, b.drop_last());
    }
}

/// Text without line breaks that follows `a` adds no line and leaves the
/// start of the last line where it was.
pub proof fn lemma_unbroken_suffix(a: Seq<char>, b: Seq<char>)
    requires
        unbroken(b, 0, b.len() as int),
    ensures
        count_breaks(a + b) == count_breaks(a),
        last_line_start(a + b) == last_line_start(a),
    decreases b.len(),
{
    if b.len() == 0 {
        assert(a + b == a);
    } else {
        let front = b.drop_last();
        assert((a + b).drop_last() == a + front);
        assert((a + b).last() == b[b.len() - 1]);
        assert forall|i: int| 0 <= i < front.len() implies #[trigger] front[i] != LINE_BREAK by {
            assert(front[i] == b[i]);
        }
        lemma_unbroken_suffix(a, front);
    }
}

/// A line with its line break taken off is the line without it.
pub proof fn lemma_line_without_break(s: Seq<char>, n: nat)
    ensures
        without_break(raw_line_at(s, n)) == line_at(s, n),
    decreases n,
{
    lemma_first_break(s);
    let k = first_break(s);
    if n == 0 {
        if k < s.len() {
            assert(s.take(k + 1).drop_last() == s.take(k));
        } else {
            assert(s.take(k) == s);
        }
    } else if k < s.len() {
        lemma_line_without_break(s.skip(k + 1), (n - 1) as nat);
    }
}

/// Text without line breaks has none to count.
pub proof fn lemma_unbroken_count(s: Seq<char>)
    requires
        unbroken(s, 0, s.len() as int),
    ensures
        count_breaks(s) == 0,
{
    lemma_unbroken_suffix(Seq::empty(), s);
    assert(Seq::<char>::empty() + s == s);
}

/// A text that has a line break has one line more than what follows its
/// first line break; a text without line breaks has one line.
pub proof fn lemma_line_count_step(s: Seq<char>)
    ensures
        line_count(s) == if first_break(s) < s.len() {
            1 + line_count(s.skip(first_break(s) + 1))
        } else {
            1
        },
{
    lemma_first_break(s);
    let k = first_break(s);
    if k < s.len() {
        let head = s.take(k + 1);
        assert(head.drop_last() == s.take(k));
        assert forall|i: int| 0 <= i < k implies #[trigger] s.take(k)[i] != LINE_BREAK by {
            assert(s.take(k)[i] == s[i]);
        }
        lemma_unbroken_count(s.take(k));
        lemma_count_breaks_concat(head, s.skip(k + 1));
        assert(head + s.skip(k + 1) == s);
    } else {
        lemma_unbroken_count(s);
    }
}

/// The lines after the first are the lines of what follows the first line
/// break.
proof fn lemma_raw_lines_step(s: Seq<char>, n: nat)
    requires
        first_break(s) < s.len(),
    ensures
        raw_lines(s, n + 1) == raw_line_at(s, 0) + raw_lines(s.skip(first_break(s) + 1), n),
    decreases n,
{
    let rest = s.skip(first_break(s) + 1);
    if n == 0 {
        assert(raw_lines(s, 0) == Seq::<char>::empty());
        assert(raw_lines(s, 1) == raw_lines(s, 0) + raw_line_at(s, 0));
        assert(raw_lines(s, 1) == raw_line_at(s, 0) + raw_lines(rest, 0));
    } else {
        lemma_raw_lines_step(s, (n - 1) as nat);
        assert(raw_line_at(s, n) == raw_line_at(rest, (n - 1) as nat));
        assert(raw_lines(s, n + 1) == raw_lines(s, n) + raw_line_at(s, n));
        assert(raw_lines(rest, n) == raw_lines(rest, (n - 1) as nat) + raw_line_at(
            rest,
            (n - 1) as nat,
        ));
        assert(raw_lines(s, n + 1) == raw_line_at(s, 0) + raw_lines(rest, n));
    }
}

/// The lines of a text, each with the line break that ends it, joined in
/// order, are the text.
pub proof fn lemma_lines_make_text(s: Seq<char>)
    ensures
        raw_lines(s, line_count(s)) == s,
    decreases s.len(),
{
    lemma_first_break(s);
    lemma_line_count_step(s);
    let k = first_break(s);
    if k < s.len() {
        let rest = s.skip(k + 1);
        lemma_lines_make_text(rest);
        lemma_raw_lines_step(s, line_count(rest));
        assert(s.take(k + 1) + rest == s);
    } else {
        assert(raw_lines(s, 0) == Seq::<char>::empty());
        assert(raw_lines(s, 1) == raw_lines(s, 0) + raw_line_at(s, 0));
        assert(Seq::<char>::empty() + s == s);
    }
}

} // verus!
