//! Replacing a half-open range of lines in a text.
//!
//! The replacement itself is done by the `textum` crate, which works on a
//! rope of the `ropey` crate. Where the lines of a text start is stated in
//! the module `lines`; this module states the replacement over it.

use crate::lines::{lemma_start_kept, line_count, line_start};
use textum::{Patch, PatchError, Rope};
use vstd::prelude::*;

verus! {

/// The error type of the `textum` crate, carried through unopened.
#[verifier::external_type_specification]
#[verifier::external_body]
pub struct ExPatchError(PatchError);

/// Whether the lines `[first, end)` of `text` can be replaced: both lines
/// exist and the range between their starts is well formed.
pub open spec fn lines_replaceable(text: Seq<char>, first: nat, end: nat) -> bool {
    &&& first < line_count(text)
    &&& end < line_count(text)
    &&& line_start(text, first) <= line_start(text, end) <= text.len()
}

/// `text` with everything from the start of line `first` up to, and not
/// including, the start of line `end` replaced by `replacement`.
pub open spec fn replace_lines(
    text: Seq<char>,
    first: nat,
    end: nat,
    replacement: Seq<char>,
) -> Seq<char> {
    text.subrange(0, line_start(text, first) as int) + replacement + text.subrange(
        line_start(text, end) as int,
        text.len() as int,
    )
}

/// Calls `textum::Patch::from_line_range(..).apply_to_string(content)`.
///
/// The patch selects the characters between the start of line `first`
/// (included) and the start of line `end` (excluded), removes them and puts
/// `replacement` in their place. It fails, leaving nothing changed, when
/// either line does not exist in `content` or the start of `first` lies
/// behind the start of `end`. Lines are those of a `ropey` rope, whose
/// count and starts the module `lines` states as that crate documents
/// them.
#[verifier::external_body]
pub(crate) fn replace_line_range(
    content: &str,
    first: usize,
    end: usize,
    replacement: &str,
) -> (r: Result<String, PatchError>)
    ensures
        r is Ok <==> lines_replaceable(content@, first as nat, end as nat),
        r matches Ok(out) ==> out@ == replace_lines(
            content@,
            first as nat,
            end as nat,
            replacement@,
        ),
{
    Patch::from_line_range(String::new(), first, end, replacement).apply_to_string(content)
}

/// Counts the lines of a text with `Rope::len_lines` on a rope built from
/// it: the count by which the patch engine decides whether a line exists,
/// one more than the text has line ends.
#[verifier::external_body]
pub(crate) fn count_lines(text: &str) -> (r: usize)
    ensures
        r == line_count(text@),
{
    Rope::from_str(text).len_lines()
}

/// The net number of lines by which `new_text` is longer than `old_text`,
/// negative where it is shorter, as far as the number type of a drift
/// reaches.
pub open spec fn net_lines(old_text: Seq<char>, new_text: Seq<char>) -> int {
    let d = line_count(new_text) - line_count(old_text);
    if d < i64::MIN {
        i64::MIN as int
    } else if d > i64::MAX {
        i64::MAX as int
    } else {
        d
    }
}

/// The net number of lines that a change from `old_text` to `new_text`
/// has added.
pub fn added_lines(old_text: &str, new_text: &str) -> (r: i64)
    ensures
        r == net_lines(old_text@, new_text@),
{
    let before = count_lines(old_text) as i128;
    let after = count_lines(new_text) as i128;
    let d = after - before;
    if d < i64::MIN as i128 {
        i64::MIN
    } else if d > i64::MAX as i128 {
        i64::MAX
    } else {
        d as i64
    }
}

/// Lines can be replaced exactly when the range is not inverted and its
/// end is a line of the text.
pub proof fn lemma_replaceable(text: Seq<char>, first: nat, end: nat)
    ensures
        lines_replaceable(text, first, end) <==> first <= end < line_count(text),
{
    crate::lines::lemma_line_start(text, first);
    crate::lines::lemma_line_start(text, end);
    if first <= end {
        crate::lines::lemma_starts_grow(text, first, end);
    } else {
        crate::lines::lemma_starts_grow(text, end, first);
    }
}

/// Calls `to_string` on a `textum::PatchError`: the message that the crate
/// words for the failure. Nothing is claimed of the wording.
#[verifier::external_body]
pub(crate) fn patch_error_message(e: &PatchError) -> (r: String) {
    e.to_string()
}

/// A replacement touches nothing outside its range: the text before line
/// `first` and the text from the start of line `end` on are carried over
/// character for character, so the line at index `end` is never changed.
pub proof fn lemma_replace_is_half_open(
    text: Seq<char>,
    first: nat,
    end: nat,
    replacement: Seq<char>,
)
    requires
        lines_replaceable(text, first, end),
    ensures
        ({
            let out = replace_lines(text, first, end, replacement);
            let a = line_start(text, first) as int;
            let b = line_start(text, end) as int;
            &&& out.len() == a + replacement.len() + (text.len() - b)
            &&& out.take(a) == text.take(a)
            &&& out.subrange(a, a + replacement.len()) == replacement
            &&& out.skip(a + replacement.len()) == text.skip(b)
        }),
{
    let out = replace_lines(text, first, end, replacement);
    let a = line_start(text, first) as int;
    let b = line_start(text, end) as int;
    assert(out.take(a) =~= text.take(a));
    assert(out.subrange(a, a + replacement.len()) =~= replacement);
    assert(out.skip(a + replacement.len()) =~= text.skip(b));
}

/// Replacing the same lines by the same text a second time changes nothing
/// exactly when, in the text that the first replacement gave, those lines
/// hold the replacement already.
pub proof fn lemma_replace_again(text: Seq<char>, first: nat, end: nat, replacement: Seq<char>)
    requires
        lines_replaceable(text, first, end),
        lines_replaceable(replace_lines(text, first, end, replacement), first, end),
    ensures
        ({
            let once = replace_lines(text, first, end, replacement);
            let twice = replace_lines(once, first, end, replacement);
            twice == once <==> once.subrange(
                line_start(once, first) as int,
                line_start(once, end) as int,
            ) == replacement
        }),
{
    let once = replace_lines(text, first, end, replacement);
    let twice = replace_lines(once, first, end, replacement);
    let a = line_start(once, first) as int;
    let b = line_start(once, end) as int;
    let mid = once.subrange(a, b);
    assert(once =~= once.subrange(0, a) + mid + once.subrange(b, once.len() as int));
    if mid == replacement {
        assert(twice =~= once);
    }
    if twice == once {
        assert(twice.len() == a + replacement.len() + (once.len() - b));
        assert(replacement.len() == b - a);
        assert forall|i: int| 0 <= i < replacement.len() implies replacement[i] == mid[i] by {
            assert(twice[a + i] == replacement[i]);
            assert(once[a + i] == mid[i]);
        }
        assert(mid =~= replacement);
    }
}

/// A replacement leaves the lines above it where they start: a line that
/// starts before the first replaced line starts at the same index in the
/// new text.
pub proof fn lemma_replace_keeps_lines_above(
    text: Seq<char>,
    first: nat,
    end: nat,
    replacement: Seq<char>,
    line: nat,
)
    requires
        lines_replaceable(text, first, end),
        line_start(text, line) < line_start(text, first),
    ensures
        line_start(replace_lines(text, first, end, replacement), line) == line_start(text, line),
        line < line_count(replace_lines(text, first, end, replacement)),
{
    let out = replace_lines(text, first, end, replacement);
    let a = line_start(text, first) as int;
    assert forall|i: int| 0 <= i < a implies text[i] == out[i] by {}
    lemma_start_kept(text, out, a, line);
    crate::lines::lemma_line_start(text, line);
    crate::lines::lemma_breaks_grow(text, line_start(text, line) as int, text.len() as int);
}

} // verus!
