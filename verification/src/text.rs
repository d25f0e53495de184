//! Text as sequences of characters: whitespace, trimming, padding and joining.
//!
//! Every function here is stated over `Seq<char>`, the view of `str` and
//! `String`, so that the rest of the crate can speak about file contents and
//! replacement texts without caring how a string is laid out in memory.

use vstd::prelude::*;
use vstd::string::*;

verus! {

/// `String::push` of the standard library appends one character to the end
/// of the string and leaves the characters before it as they were.
pub assume_specification[ String::push ](s: &mut String, c: char)
    ensures
        final(s)@ == old(s)@.push(c),
;

/// The text that `String::from_utf8_lossy` of the standard library makes
/// of a run of bytes: the decoded text, with U+FFFD in place of each
/// malformed part.
pub uninterp spec fn utf8_lossy(bytes: Seq<u8>) -> Seq<char>;

/// Calls `String::from_utf8_lossy` and takes the text it gives as a
/// string of its own.
#[verifier::external_body]
pub(crate) fn lossy_text(bytes: &[u8]) -> (r: String)
    ensures
        r@ == utf8_lossy(bytes@),
{
    String::from_utf8_lossy(bytes).into_owned()
}

/// The line feed character.
pub open spec fn newline() -> char {
    '\n'
}

/// A one-character sequence holding a line feed.
pub open spec fn newline_seq() -> Seq<char> {
    seq!['\n']
}

/// Whether a character has the Unicode `White_Space` property.
pub open spec fn is_whitespace(c: char) -> bool {
    let u = c as u32;
    ||| 0x09 <= u <= 0x0D
    ||| u == 0x20
    ||| u == 0x85
    ||| u == 0xA0
    ||| u == 0x1680
    ||| 0x2000 <= u <= 0x200A
    ||| u == 0x2028
    ||| u == 0x2029
    ||| u == 0x202F
    ||| u == 0x205F
    ||| u == 0x3000
}

/// The text without its leading whitespace.
pub open spec fn trim_start(s: Seq<char>) -> Seq<char>
    decreases s.len(),
{
    if s.len() > 0 && is_whitespace(s[0]) {
        trim_start(s.drop_first())
    } else {
        s
    }
}

/// The text without its trailing whitespace.
pub open spec fn trim_end(s: Seq<char>) -> Seq<char>
    decreases s.len(),
{
    if s.len() > 0 && is_whitespace(s.last()) {
        trim_end(s.drop_last())
    } else {
        s
    }
}

/// The text without leading and trailing whitespace.
pub open spec fn trim(s: Seq<char>) -> Seq<char> {
    trim_end(trim_start(s))
}

/// The trimmed text between exactly one line feed before and one after.
pub open spec fn padded(s: Seq<char>) -> Seq<char> {
    newline_seq() + trim(s) + newline_seq()
}

/// The texts joined by `sep`, which stands between neighbours only.
pub open spec fn join(parts: Seq<Seq<char>>, sep: Seq<char>) -> Seq<char>
    decreases parts.len(),
{
    if parts.len() == 0 {
        Seq::empty()
    } else if parts.len() == 1 {
        parts[0]
    } else {
        join(parts.drop_last(), sep) + sep + parts.last()
    }
}

/// The lines of a text after one more character: a line feed begins a new
/// line, any other character goes to the end of the last line.
pub open spec fn push_char(lines: Seq<Seq<char>>, c: char) -> Seq<Seq<char>> {
    if c == '\n' {
        lines.push(Seq::empty())
    } else {
        lines.drop_last().push(lines.last().push(c))
    }
}

/// The lines of a text: what stands between its line feeds. A text with
/// `n` line feeds has `n + 1` lines, the last of which is empty where the
/// text ends with a line feed.
pub open spec fn split_lines(text: Seq<char>) -> Seq<Seq<char>>
    decreases text.len(),
{
    if text.len() == 0 {
        seq![Seq::empty()]
    } else {
        push_char(split_lines(text.drop_last()), text.last())
    }
}

/// A line without the carriage return at its end, if it has one.
pub open spec fn strip_cr(line: Seq<char>) -> Seq<char> {
    if line.len() > 0 && line.last() == '\r' {
        line.drop_last()
    } else {
        line
    }
}

/// Each of the lines without the carriage return at its end.
pub open spec fn stripped(lines: Seq<Seq<char>>) -> Seq<Seq<char>> {
    Seq::new(lines.len(), |i: int| strip_cr(lines[i]))
}

/// The lines of a text as `str::lines` of the standard library yields
/// them: a line ends with a line feed, or with a carriage return and a
/// line feed, neither of which belongs to the line; what follows the last
/// line feed is a line too unless it is empty, and keeps a carriage return
/// at its end.
pub open spec fn lines_of(text: Seq<char>) -> Seq<Seq<char>> {
    let pieces = split_lines(text);
    let ended = stripped(pieces.drop_last());
    if pieces.last().len() > 0 {
        ended.push(pieces.last())
    } else {
        ended
    }
}

/// A text always has at least one line.
pub proof fn lemma_split_nonempty(text: Seq<char>)
    ensures
        split_lines(text).len() >= 1,
        text.len() > 0 && text.last() == '\n' ==> split_lines(text).last().len() == 0,
    decreases text.len(),
{
    if text.len() > 0 {
        lemma_split_nonempty(text.drop_last());
    }
}

/// `n` copies of the character `c`.
pub open spec fn repeated(c: char, n: nat) -> Seq<char> {
    Seq::new(n, |i: int| c)
}

/// The views of a list of strings, in order.
pub open spec fn views(lines: Seq<String>) -> Seq<Seq<char>> {
    Seq::new(lines.len(), |i: int| lines[i]@)
}

/// Skipping `k` leading whitespace characters does not change what
/// `trim_start` gives.
pub proof fn lemma_trim_start_skip(s: Seq<char>, k: int)
    requires
        0 <= k <= s.len(),
        forall|i: int| 0 <= i < k ==> is_whitespace(#[trigger] s[i]),
    ensures
        trim_start(s) == trim_start(s.skip(k)),
    decreases k,
{
    if k == 0 {
        assert(s.skip(0) =~= s);
    } else {
        assert(is_whitespace(s[0]));
        let t = s.drop_first();
        assert forall|i: int| 0 <= i < k - 1 implies is_whitespace(#[trigger] t[i]) by {
            assert(t[i] == s[i + 1]);
        }
        lemma_trim_start_skip(t, k - 1);
        assert(t.skip(k - 1) =~= s.skip(k));
    }
}

/// Dropping trailing whitespace characters down to length `k` does not
/// change what `trim_end` gives.
pub proof fn lemma_trim_end_take(s: Seq<char>, k: int)
    requires
        0 <= k <= s.len(),
        forall|i: int| k <= i < s.len() ==> is_whitespace(#[trigger] s[i]),
    ensures
        trim_end(s) == trim_end(s.take(k)),
    decreases s.len() - k,
{
    if k == s.len() {
        assert(s.take(k) =~= s);
    } else {
        assert(is_whitespace(s.last()));
        let t = s.drop_last();
        lemma_trim_end_take(t, k);
        assert(t.take(k) =~= s.take(k));
    }
}

/// `trim_start` gives a suffix of the text that does not begin with
/// whitespace.
pub proof fn lemma_trim_start_shape(s: Seq<char>)
    ensures
        trim_start(s).len() <= s.len(),
        trim_start(s) == s.skip(s.len() - trim_start(s).len()),
        trim_start(s).len() > 0 ==> !is_whitespace(trim_start(s)[0]),
        forall|i: int|
            0 <= i < s.len() - trim_start(s).len() ==> is_whitespace(#[trigger] s[i]),
    decreases s.len(),
{
    if s.len() > 0 && is_whitespace(s[0]) {
        let t = s.drop_first();
        lemma_trim_start_shape(t);
        let r = trim_start(t);
        assert(t.skip(t.len() - r.len()) =~= s.skip(s.len() - r.len()));
        assert forall|i: int| 0 <= i < s.len() - r.len() implies is_whitespace(
            #[trigger] s[i],
        ) by {
            if i > 0 {
                assert(s[i] == t[i - 1]);
            }
        }
    } else {
        assert(s.skip(0) =~= s);
    }
}

/// `trim_end` gives a prefix of the text that does not end with whitespace.
pub proof fn lemma_trim_end_shape(s: Seq<char>)
    ensures
        trim_end(s).len() <= s.len(),
        trim_end(s) == s.take(trim_end(s).len() as int),
        trim_end(s).len() > 0 ==> !is_whitespace(trim_end(s).last()),
        forall|i: int| trim_end(s).len() <= i < s.len() ==> is_whitespace(#[trigger] s[i]),
    decreases s.len(),
{
    if s.len() > 0 && is_whitespace(s.last()) {
        let t = s.drop_last();
        lemma_trim_end_shape(t);
        let r = trim_end(t);
        assert(t.take(r.len() as int) =~= s.take(r.len() as int));
        assert forall|i: int| r.len() <= i < s.len() implies is_whitespace(#[trigger] s[i]) by {
            if i < s.len() - 1 {
                assert(s[i] == t[i]);
            }
        }
    } else {
        assert(s.take(s.len() as int) =~= s);
    }
}

/// A trimmed text neither begins nor ends with whitespace.
pub proof fn lemma_trim_edges(s: Seq<char>)
    ensures
        trim(s).len() > 0 ==> !is_whitespace(trim(s)[0]) && !is_whitespace(trim(s).last()),
        trim(s).len() <= s.len(),
{
    let a = trim_start(s);
    lemma_trim_start_shape(s);
    lemma_trim_end_shape(a);
    let b = trim_end(a);
    if b.len() > 0 {
        assert(b[0] == a[0]);
    }
}

/// Trimming sees through the padding: the trim of a padded text is the trim
/// of the text.
pub proof fn lemma_trim_padded(s: Seq<char>)
    ensures
        trim(padded(s)) == trim(s),
{
    let t = trim(s);
    let p = padded(s);
    lemma_trim_edges(s);
    assert(is_whitespace('\n'));
    assert(p[0] == '\n');
    assert(p.drop_first() =~= t + newline_seq());
    let q = t + newline_seq();
    assert(trim_start(p) == trim_start(q));
    assert(q.last() == '\n');
    assert(q.drop_last() =~= t);
    if t.len() == 0 {
        assert(q[0] == '\n');
        let e = q.drop_first();
        assert(e.len() == 0);
        assert(trim_start(e) == e);
        assert(trim_start(q) == e);
    } else {
        assert(q[0] == t[0]);
        assert(trim_start(q) == q);
        assert(trim_end(q) == trim_end(t));
    }
}

/// Padding twice is padding once.
pub proof fn lemma_padded_idempotent(s: Seq<char>)
    ensures
        padded(padded(s)) == padded(s),
{
    lemma_trim_padded(s);
}

/// Whether `c` is a whitespace character.
pub fn char_is_whitespace(c: char) -> (b: bool)
    ensures
        b == is_whitespace(c),
{
    let u: u32 = c as u32;
    (0x09 <= u && u <= 0x0D) || u == 0x20 || u == 0x85 || u == 0xA0 || u == 0x1680 || (0x2000 <= u
        && u <= 0x200A) || u == 0x2028 || u == 0x2029 || u == 0x202F || u == 0x205F || u == 0x3000
}

/// The characters of a string, in order.
pub fn to_chars(s: &str) -> (v: Vec<char>)
    ensures
        v@ == s@,
{
    let mut v: Vec<char> = Vec::new();
    for c in it: s.chars()
        invariant
            v@ == s@.take(it.index() as int),
            it.seq() == s@,
    {
        v.push(c);
    }
    v
}

/// The string made of the characters `v[from..to]`.
pub fn from_chars(v: &Vec<char>, from: usize, to: usize) -> (s: String)
    requires
        from <= to <= v.len(),
    ensures
        s@ == v@.subrange(from as int, to as int),
{
    let mut s = String::new();
    let mut i: usize = from;
    while i < to
        invariant
            from <= i <= to <= v.len(),
            s@ == v@.subrange(from as int, i as int),
        decreases to - i,
    {
        s.push(v[i]);
        assert(v@.subrange(from as int, i as int).push(v@[i as int]) =~= v@.subrange(
            from as int,
            i + 1,
        ));
        i += 1;
    }
    s
}

/// Whether two strings hold the same characters.
pub fn str_eq(a: &str, b: &str) -> (r: bool)
    ensures
        r == (a@ == b@),
{
    let x = to_chars(a);
    let y = to_chars(b);
    if x.len() != y.len() {
        return false;
    }
    let mut i: usize = 0;
    while i < x.len()
        invariant
            i <= x.len() == y.len(),
            x@ == a@,
            y@ == b@,
            forall|k: int| 0 <= k < i ==> x@[k] == y@[k],
        decreases x.len() - i,
    {
        if x[i] != y[i] {
            return false;
        }
        i += 1;
    }
    assert(x@ =~= y@);
    true
}

/// The lines of a text, each as a string of its own.
pub fn text_lines(text: &str) -> (r: Vec<String>)
    ensures
        views(r@) == lines_of(text@),
{
    let chars = to_chars(text);
    let mut done: Vec<String> = Vec::new();
    let mut cur: Vec<char> = Vec::new();
    let mut i: usize = 0;
    assert(chars@.take(0) =~= Seq::<char>::empty());
    assert(views(done@) =~= stripped(split_lines(chars@.take(0)).drop_last()));
    assert(cur@ =~= split_lines(chars@.take(0)).last());
    while i < chars.len()
        invariant
            i <= chars.len(),
            views(done@) == stripped(split_lines(chars@.take(i as int)).drop_last()),
            cur@ == split_lines(chars@.take(i as int)).last(),
        decreases chars.len() - i,
    {
        let c = chars[i];
        let ghost before = split_lines(chars@.take(i as int));
        proof {
            lemma_split_nonempty(chars@.take(i as int));
            assert(chars@.take(i + 1).drop_last() =~= chars@.take(i as int));
            assert(chars@.take(i + 1).last() == c);
            assert(split_lines(chars@.take(i + 1)) == push_char(before, c));
        }
        if c == '\n' {
            let n = cur.len();
            let end = if n > 0 && cur[n - 1] == '\r' {
                n - 1
            } else {
                n
            };
            let line = from_chars(&cur, 0, end);
            let ghost old_done = views(done@);
            done.push(line);
            cur = Vec::new();
            proof {
                let after = before.push(Seq::<char>::empty());
                assert(after.drop_last() =~= before);
                assert(line@ =~= strip_cr(before.last()));
                assert(views(done@) =~= old_done.push(line@));
                assert(before =~= before.drop_last().push(before.last()));
                assert(stripped(before) =~= stripped(before.drop_last()).push(
                    strip_cr(before.last()),
                ));
                assert(cur@ =~= after.last());
            }
        } else {
            cur.push(c);
            proof {
                let after = before.drop_last().push(before.last().push(c));
                assert(after.drop_last() =~= before.drop_last());
            }
        }
        i += 1;
    }
    assert(chars@.take(chars.len() as int) =~= chars@);
    if cur.len() > 0 {
        let ghost old_done = views(done@);
        let line = from_chars(&cur, 0, cur.len());
        assert(line@ =~= cur@);
        done.push(line);
        assert(views(done@) =~= old_done.push(line@));
    }
    done
}

/// Whether `text` is among `list`.
pub fn contains_text(list: &Vec<String>, text: &str) -> (r: bool)
    ensures
        r == views(list@).contains(text@),
{
    let mut k: usize = 0;
    while k < list.len()
        invariant
            k <= list.len(),
            forall|j: int| 0 <= j < k ==> views(list@)[j] != text@,
        decreases list.len() - k,
    {
        if str_eq(list[k].as_str(), text) {
            assert(views(list@)[k as int] == text@);
            return true;
        }
        k += 1;
    }
    false
}

/// The text without leading and trailing whitespace.
pub fn trimmed(s: &str) -> (r: String)
    ensures
        r@ == trim(s@),
{
    let v = to_chars(s);
    let n = v.len();
    let mut start: usize = 0;
    while start < n && char_is_whitespace(v[start])
        invariant
            start <= n == v.len(),
            forall|i: int| 0 <= i < start ==> is_whitespace(#[trigger] v@[i]),
        decreases n - start,
    {
        start += 1;
    }
    let mut end: usize = n;
    while end > start && char_is_whitespace(v[end - 1])
        invariant
            start <= end <= n == v.len(),
            forall|i: int| end <= i < n ==> is_whitespace(#[trigger] v@[i]),
        decreases end,
    {
        end -= 1;
    }
    proof {
        let a = v@.skip(start as int);
        lemma_trim_start_skip(v@, start as int);
        if start < n {
            assert(a[0] == v@[start as int]);
        }
        assert(trim_start(v@) == a);
        let k = end - start;
        assert forall|i: int| k <= i < a.len() implies is_whitespace(#[trigger] a[i]) by {
            assert(a[i] == v@[i + start]);
        }
        lemma_trim_end_take(a, k);
        let b = a.take(k);
        if k > 0 {
            assert(b.last() == v@[end - 1]);
        }
        assert(trim_end(b) == b);
        assert(b =~= v@.subrange(start as int, end as int));
    }
    from_chars(&v, start, end)
}

/// The trimmed text between one line feed before and one after.
pub fn pad(s: &str) -> (r: String)
    ensures
        r@ == padded(s@),
{
    let t = trimmed(s);
    let mut r = String::new();
    r.push('\n');
    r.append(t.as_str());
    r.push('\n');
    assert(r@ =~= padded(s@));
    r
}

/// The lines joined by single line feeds.
pub fn join_lines(lines: &Vec<String>) -> (r: String)
    ensures
        r@ == join(views(lines@), newline_seq()),
{
    let mut r = String::new();
    let mut i: usize = 0;
    while i < lines.len()
        invariant
            i <= lines.len(),
            r@ == join(views(lines@).take(i as int), newline_seq()),
        decreases lines.len() - i,
    {
        proof {
            let next = views(lines@).take(i + 1);
            assert(next.drop_last() =~= views(lines@).take(i as int));
            assert(next.last() == lines@[i as int]@);
        }
        if i > 0 {
            r.push('\n');
        }
        r.append(lines[i].as_str());
        proof {
            let next = views(lines@).take(i + 1);
            if i == 0 {
                assert(next[0] == lines@[0]@);
                assert(r@ =~= next[0]);
            } else {
                assert(r@ =~= join(next.drop_last(), newline_seq()) + newline_seq()
                    + next.last());
            }
        }
        i += 1;
    }
    assert(views(lines@).take(lines.len() as int) =~= views(lines@));
    r
}

/// `n` copies of the character `c`.
pub fn repeat_char(c: char, n: usize) -> (r: String)
    ensures
        r@ == repeated(c, n as nat),
{
    let mut r = String::new();
    let mut i: usize = 0;
    while i < n
        invariant
            i <= n,
            r@ == repeated(c, i as nat),
        decreases n - i,
    {
        r.push(c);
        assert(r@ =~= repeated(c, (i + 1) as nat));
        i += 1;
    }
    r
}

/// The character that stands for a single decimal digit.
pub open spec fn digit_char(d: nat) -> char
    recommends
        d < 10,
{
    if d == 0 {
        '0'
    } else if d == 1 {
        '1'
    } else if d == 2 {
        '2'
    } else if d == 3 {
        '3'
    } else if d == 4 {
        '4'
    } else if d == 5 {
        '5'
    } else if d == 6 {
        '6'
    } else if d == 7 {
        '7'
    } else if d == 8 {
        '8'
    } else {
        '9'
    }
}

/// The decimal numeral of `n`, without sign or leading zeros.
pub open spec fn decimal(n: nat) -> Seq<char>
    decreases n,
{
    if n < 10 {
        seq![digit_char(n)]
    } else {
        decimal(n / 10).push(digit_char(n % 10))
    }
}

/// The character for one decimal digit.
pub fn digit(d: u8) -> (c: char)
    requires
        d < 10,
    ensures
        c == digit_char(d as nat),
{
    if d == 0 {
        '0'
    } else if d == 1 {
        '1'
    } else if d == 2 {
        '2'
    } else if d == 3 {
        '3'
    } else if d == 4 {
        '4'
    } else if d == 5 {
        '5'
    } else if d == 6 {
        '6'
    } else if d == 7 {
        '7'
    } else if d == 8 {
        '8'
    } else {
        '9'
    }
}

/// The decimal numeral of `n`.
pub fn decimal_string(n: u64) -> (r: String)
    ensures
        r@ == decimal(n as nat),
{
    let mut low: Vec<char> = Vec::new();
    let mut m: u64 = n;
    while m >= 10
        invariant
            decimal(n as nat) == decimal(m as nat) + low@.reverse(),
        decreases m,
    {
        let d = digit((m % 10) as u8);
        proof {
            assert(decimal(m as nat) == decimal((m / 10) as nat).push(d));
            assert(low@.push(d).reverse() =~= seq![d] + low@.reverse());
            assert(decimal((m / 10) as nat).push(d) + low@.reverse() =~= decimal(
                (m / 10) as nat,
            ) + low@.push(d).reverse());
        }
        low.push(d);
        m = m / 10;
    }
    let mut r = String::new();
    r.push(digit(m as u8));
    let mut i: usize = low.len();
    while i > 0
        invariant
            i <= low.len(),
            m < 10,
            decimal(n as nat) == decimal(m as nat) + low@.reverse(),
            r@ == decimal(m as nat) + low@.reverse().take(low.len() - i),
        decreases i,
    {
        i -= 1;
        r.push(low[i]);
        proof {
            let rev = low@.reverse();
            let k = low.len() - 1 - i;
            assert(rev[k] == low@[i as int]);
            assert(rev.take(k + 1) =~= rev.take(k).push(rev[k]));
            assert(r@ =~= decimal(m as nat) + rev.take(k + 1));
        }
    }
    assert(low@.reverse().take(low.len() as int) =~= low@.reverse());
    r
}

} // verus!
