//! The lines of a text as the patch engine counts them.
//!
//! The engine works on a rope of the `ropey` crate, which takes each of
//! seven characters as the end of a line, and a carriage return with a
//! line feed behind it as one end, not two. Line 0 starts at the start of
//! the text, and each further line starts right behind a line end; a text
//! that ends with a line end has an empty last line.

use crate::text::{lemma_split_nonempty, split_lines};
use vstd::prelude::*;

verus! {

/// Whether a character ends a line: line feed, vertical tab, form feed,
/// carriage return, next line, line separator, paragraph separator.
pub open spec fn is_line_break(c: char) -> bool {
    ||| c == '\u{000A}'
    ||| c == '\u{000B}'
    ||| c == '\u{000C}'
    ||| c == '\u{000D}'
    ||| c == '\u{0085}'
    ||| c == '\u{2028}'
    ||| c == '\u{2029}'
}

/// Whether a line end stands right before index `i`: the character before
/// `i` ends a line, unless it is a carriage return with a line feed at
/// `i`, which end the line together.
pub open spec fn ends_before(text: Seq<char>, i: int) -> bool {
    &&& 0 < i <= text.len()
    &&& is_line_break(text[i - 1])
    &&& !(text[i - 1] == '\u{000D}' && i < text.len() && text[i] == '\u{000A}')
}

/// The number of line ends that stand before an index up to `n`.
pub open spec fn breaks_before(text: Seq<char>, n: int) -> nat
    decreases n,
{
    if n <= 0 {
        0
    } else {
        breaks_before(text, n - 1) + if ends_before(text, n) {
            1nat
        } else {
            0nat
        }
    }
}

/// The number of lines of a text: one more than it has line ends.
pub open spec fn line_count(text: Seq<char>) -> nat {
    breaks_before(text, text.len() as int) + 1
}

/// The first index at or behind `n` before which `line` line ends stand,
/// or the length of the text where there is none.
pub open spec fn start_from(text: Seq<char>, line: nat, n: nat) -> nat
    decreases text.len() - n,
{
    if n >= text.len() {
        text.len()
    } else if breaks_before(text, n as int) >= line {
        n
    } else {
        start_from(text, line, n + 1)
    }
}

/// The index at which line `line` starts; lines count from zero. For a
/// line that the text does not have it is the length of the text.
pub open spec fn line_start(text: Seq<char>, line: nat) -> nat {
    start_from(text, line, 0)
}

/// The number of line ends before an index never shrinks as the index
/// grows.
pub proof fn lemma_breaks_grow(text: Seq<char>, m: int, n: int)
    requires
        m <= n,
    ensures
        breaks_before(text, m) <= breaks_before(text, n),
    decreases n - m,
{
    if m < n {
        lemma_breaks_grow(text, m, n - 1);
    }
}

/// No more line ends stand before an index than characters.
pub proof fn lemma_breaks_bound(text: Seq<char>, n: int)
    ensures
        n >= 0 ==> breaks_before(text, n) <= n,
        n <= 0 ==> breaks_before(text, n) == 0,
    decreases n,
{
    if n > 0 {
        lemma_breaks_bound(text, n - 1);
    }
}

/// What the scan for the start of a line finds: an index within the text
/// before which fewer line ends stand at every earlier index, and at
/// which enough stand unless the text has run out.
pub proof fn lemma_start_from(text: Seq<char>, line: nat, n: nat)
    requires
        n <= text.len(),
        forall|m: int| 0 <= m < n ==> breaks_before(text, m) < line,
    ensures
        n <= start_from(text, line, n) <= text.len(),
        forall|m: int| 0 <= m < start_from(text, line, n) ==> breaks_before(text, m) < line,
        start_from(text, line, n) < text.len() ==> breaks_before(
            text,
            start_from(text, line, n) as int,
        ) >= line,
    decreases text.len() - n,
{
    if n < text.len() && breaks_before(text, n as int) < line {
        lemma_start_from(text, line, n + 1);
    }
}

/// The start of a line that the text has: exactly `line` line ends stand
/// before it and fewer before every earlier index; it is the start of the
/// text or stands right behind a line end.
pub proof fn lemma_line_start(text: Seq<char>, line: nat)
    ensures
        line_start(text, line) <= text.len(),
        forall|m: int| 0 <= m < line_start(text, line) ==> breaks_before(text, m) < line,
        line < line_count(text) ==> breaks_before(text, line_start(text, line) as int) == line,
        line < line_count(text) ==> line_start(text, line) == 0 || ends_before(
            text,
            line_start(text, line) as int,
        ),
        line >= line_count(text) ==> line_start(text, line) == text.len(),
{
    lemma_start_from(text, line, 0);
    let r = line_start(text, line) as int;
    if line < line_count(text) {
        if r == text.len() {
            assert(breaks_before(text, r) >= line);
        }
        if r > 0 {
            assert(breaks_before(text, r - 1) < line);
        } else {
            lemma_breaks_bound(text, 0);
        }
    } else {
        if r < text.len() {
            lemma_breaks_grow(text, r, text.len() as int);
        }
    }
}

/// Line 0 starts at the start of the text.
pub proof fn lemma_first_line_starts_at_zero(text: Seq<char>)
    ensures
        line_start(text, 0) == 0,
        line_count(text) >= 1,
{
    lemma_breaks_bound(text, 0);
}

/// The starts of the lines grow with the line numbers, and strictly so
/// among the lines that the text has.
pub proof fn lemma_starts_grow(text: Seq<char>, j: nat, k: nat)
    requires
        j <= k,
    ensures
        line_start(text, j) <= line_start(text, k),
        j < k < line_count(text) ==> line_start(text, j) < line_start(text, k),
{
    lemma_line_start(text, j);
    lemma_line_start(text, k);
    let a = line_start(text, j) as int;
    let b = line_start(text, k) as int;
    if b < a {
        // Fewer than `j` line ends stand before `b`, which lies before `a`.
        assert(breaks_before(text, b) < j);
        if k < line_count(text) {
            assert(breaks_before(text, b) == k);
        } else {
            assert(b == text.len());
        }
    }
    if j < k && k < line_count(text) && a == b {
        assert(breaks_before(text, a) == j);
        assert(breaks_before(text, b) == k);
    }
}

/// Two texts that hold the same characters before index `p` have the same
/// line ends before every index below `p`.
pub proof fn lemma_same_breaks(t: Seq<char>, u: Seq<char>, p: int, n: int)
    requires
        0 <= p <= t.len(),
        p <= u.len(),
        forall|i: int| 0 <= i < p ==> t[i] == u[i],
        n < p,
    ensures
        breaks_before(t, n) == breaks_before(u, n),
    decreases n,
{
    if n > 0 {
        lemma_same_breaks(t, u, p, n - 1);
        assert(t[n - 1] == u[n - 1]);
        assert(t[n] == u[n]);
    }
}

/// A change behind a line leaves the line where it starts: if two texts
/// hold the same characters before index `p`, a line that starts before
/// `p` in the one starts at the same index in the other.
pub proof fn lemma_start_kept(t: Seq<char>, u: Seq<char>, p: int, line: nat)
    requires
        0 <= p <= t.len(),
        p <= u.len(),
        forall|i: int| 0 <= i < p ==> t[i] == u[i],
        line_start(t, line) < p,
    ensures
        line_start(u, line) == line_start(t, line),
        line < line_count(t) <==> line < line_count(u),
{
    lemma_line_start(t, line);
    lemma_line_start(u, line);
    let a = line_start(t, line) as int;
    let b = line_start(u, line) as int;
    lemma_start_from(t, line, 0);
    // Enough line ends stand before `a` in `t`, and so in `u`.
    assert(a < t.len());
    assert(breaks_before(t, a) >= line);
    lemma_same_breaks(t, u, p, a);
    if b > a {
        assert(breaks_before(u, a) < line);
    }
    if b < a {
        lemma_same_breaks(t, u, p, b);
        lemma_start_from(u, line, 0);
        if b < u.len() {
            assert(breaks_before(u, b) >= line);
        }
        assert(breaks_before(t, b) < line);
    }
    lemma_breaks_grow(t, a, t.len() as int);
    lemma_breaks_grow(u, a, u.len() as int);
}

/// A change at a line leaves the line where it starts, unless it splits or
/// joins a carriage return and a line feed: if two texts hold the same
/// characters before index `p`, a line of the one that starts at `p`
/// starts there in the other too, provided that no carriage return stands
/// right before `p`, or that a line feed stands at `p` in both or in
/// neither.
pub proof fn lemma_start_kept_at(t: Seq<char>, u: Seq<char>, p: int, line: nat)
    requires
        0 <= p <= t.len(),
        p <= u.len(),
        forall|i: int| 0 <= i < p ==> t[i] == u[i],
        line < line_count(t),
        line_start(t, line) == p,
        p == 0 || t[p - 1] != '\u{000D}' || ((p < t.len() && t[p] == '\u{000A}') <==> (p < u.len()
            && u[p] == '\u{000A}')),
    ensures
        line_start(u, line) == p,
        line < line_count(u),
{
    lemma_line_start(t, line);
    lemma_line_start(u, line);
    lemma_start_from(u, line, 0);
    lemma_breaks_bound(t, 0);
    lemma_breaks_bound(u, 0);
    if p > 0 {
        lemma_same_breaks(t, u, p, p - 1);
        assert(t[p - 1] == u[p - 1]);
        assert(ends_before(t, p) == ends_before(u, p));
    }
    assert(breaks_before(u, p) == line);
    let b = line_start(u, line) as int;
    if b < p {
        lemma_same_breaks(t, u, p, b);
        assert(breaks_before(t, b) < line);
        assert(b < u.len());
    }
    if b > p {
        assert(breaks_before(u, p) < line);
    }
    lemma_breaks_grow(u, p, u.len() as int);
}

/// Whether line feeds are the only characters of a text that end a line.
pub open spec fn line_feeds_only(text: Seq<char>) -> bool {
    forall|i: int|
        0 <= i < text.len() && is_line_break(#[trigger] text[i]) ==> text[i] == '\u{000A}'
}

/// In a text in which only line feeds end lines, a text and a text that
/// goes on behind it have the same line ends up to the end of the first.
pub proof fn lemma_same_breaks_without_cr(t: Seq<char>, u: Seq<char>, n: int)
    requires
        line_feeds_only(t),
        t.len() <= u.len(),
        forall|i: int| 0 <= i < t.len() ==> t[i] == u[i],
        n <= t.len(),
    ensures
        breaks_before(t, n) == breaks_before(u, n),
    decreases n,
{
    if n > 0 {
        lemma_same_breaks_without_cr(t, u, n - 1);
        assert(t[n - 1] == u[n - 1]);
        if is_line_break(t[n - 1]) {
            assert(t[n - 1] == '\u{000A}');
        }
    }
}

/// Where only line feeds end lines, the engine counts the lines that
/// stand between the line feeds: as many as `split_lines` gives.
pub proof fn lemma_count_of_split_lines(text: Seq<char>)
    requires
        line_feeds_only(text),
    ensures
        line_count(text) == split_lines(text).len(),
    decreases text.len(),
{
    if text.len() > 0 {
        let front = text.drop_last();
        let n = text.len() as int;
        assert(line_feeds_only(front)) by {
            assert forall|i: int|
                0 <= i < front.len() && is_line_break(#[trigger] front[i]) implies front[i]
                == '\u{000A}' by {
                assert(front[i] == text[i]);
            }
        }
        lemma_count_of_split_lines(front);
        lemma_same_breaks_without_cr(front, text, n - 1);
        lemma_split_nonempty(front);
        assert(text.last() == text[n - 1]);
        if is_line_break(text[n - 1]) {
            assert(text[n - 1] == '\u{000A}');
        }
    }
}

} // verus!
