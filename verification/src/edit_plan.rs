//! Edit plans: batches of line-range replacements, and what applying one to
//! the text of a file gives.

use crate::lines::{
    lemma_line_start, lemma_start_kept, lemma_start_kept_at, lemma_starts_grow, line_count,
    line_start,
};
use crate::patch::{
    lemma_replace_again, lemma_replace_is_half_open, lines_replaceable, patch_error_message,
    replace_line_range, replace_lines,
};
use crate::text::{
    contains_text, lemma_padded_idempotent, newline_seq, pad, padded, str_eq, trim, views,
};
use vstd::prelude::*;

verus! {

/// Precise coordinates and content for replacing a section in a file.
pub struct Edit {
    /// Target file path for this modification.
    pub file_name: String,
    /// First line of the section to replace (inclusive).
    pub line_start: i64,
    /// Final line of the section to replace (exclusive).
    pub line_end: i64,
    /// Starting column of the section header.
    pub column_start: i64,
    /// Ending column of the section header.
    pub column_end: i64,
    /// New content replacing the section body.
    pub doc_comment: String,
    /// Section title for tracking and debugging edits.
    pub item_name: String,
}

/// The mathematical content of an [`Edit`].
pub struct EditView {
    pub file_name: Seq<char>,
    pub line_start: int,
    pub line_end: int,
    pub column_start: int,
    pub column_end: int,
    pub doc_comment: Seq<char>,
    pub item_name: Seq<char>,
}

impl View for Edit {
    type V = EditView;

    open spec fn view(&self) -> EditView {
        EditView {
            file_name: self.file_name@,
            line_start: self.line_start as int,
            line_end: self.line_end as int,
            column_start: self.column_start as int,
            column_end: self.column_end as int,
            doc_comment: self.doc_comment@,
            item_name: self.item_name@,
        }
    }
}

impl Clone for Edit {
    /// A copy with the same content.
    fn clone(&self) -> (r: Self)
        ensures
            r@ == self@,
    {
        Edit {
            file_name: self.file_name.clone(),
            line_start: self.line_start,
            line_end: self.line_end,
            column_start: self.column_start,
            column_end: self.column_end,
            doc_comment: self.doc_comment.clone(),
            item_name: self.item_name.clone(),
        }
    }
}

/// Serialisable collection of file modifications for atomic application.
pub struct EditPlan {
    /// Individual section replacements grouped for batch processing.
    pub edits: Vec<Edit>,
}

impl View for EditPlan {
    type V = Seq<EditView>;

    open spec fn view(&self) -> Seq<EditView> {
        Seq::new(self.edits@.len(), |i: int| self.edits@[i]@)
    }
}

impl Clone for EditPlan {
    /// A copy with the same edits in the same order.
    fn clone(&self) -> (r: Self)
        ensures
            r@ == self@,
    {
        let mut edits: Vec<Edit> = Vec::new();
        let mut i: usize = 0;
        while i < self.edits.len()
            invariant
                i <= self.edits.len(),
                edits@.len() == i,
                forall|k: int| 0 <= k < i ==> edits@[k]@ == self.edits@[k]@,
            decreases self.edits.len() - i,
        {
            edits.push(self.edits[i].clone());
            i += 1;
        }
        let r = EditPlan { edits };
        assert(r@ =~= self@);
        r
    }
}

/// Why a batch of edits could not be applied to the text of a file.
#[derive(Debug)]
pub enum ApplyError {
    /// The edit at this index of the plan names a line that is negative or
    /// too large to address.
    InvalidLine { edit: usize },
    /// The two edits at these indices of the plan target the same file with
    /// overlapping line ranges.
    Overlap { first: usize, second: usize },
    /// The patch engine refused the edit at this index of the plan: one of
    /// its lines does not exist in the text, or its range is inverted.
    Rejected { edit: usize, reason: String },
}

/// Whether a line number can be handed to the patch engine.
pub open spec fn line_fits(line: int) -> bool {
    0 <= line <= usize::MAX
}

/// Whether both line numbers of an edit can be handed to the patch engine.
pub open spec fn lines_fit(e: EditView) -> bool {
    line_fits(e.line_start) && line_fits(e.line_end)
}

/// Whether the half-open line ranges of two edits share a line.
pub open spec fn ranges_overlap(a: EditView, b: EditView) -> bool {
    a.line_start < b.line_end && b.line_start < a.line_end
}

/// The text that an edit puts in place of its lines: its content, trimmed,
/// between one line feed before and one after.
pub open spec fn replacement_of(e: EditView) -> Seq<char> {
    padded(e.doc_comment)
}

/// Whether one edit can be applied to `text`.
pub open spec fn edit_applies(text: Seq<char>, e: EditView) -> bool {
    lines_fit(e) && lines_replaceable(text, e.line_start as nat, e.line_end as nat)
}

/// What applying one edit to `text` gives.
pub open spec fn apply_edit(text: Seq<char>, e: EditView) -> Seq<char> {
    replace_lines(text, e.line_start as nat, e.line_end as nat, replacement_of(e))
}

/// The indices of the edits that target `file`, in plan order.
pub open spec fn targets(edits: Seq<EditView>, file: Seq<char>) -> Seq<int>
    decreases edits.len(),
{
    if edits.len() == 0 {
        Seq::empty()
    } else {
        let rest = targets(edits.drop_last(), file);
        if edits.last().file_name == file {
            rest.push(edits.len() - 1)
        } else {
            rest
        }
    }
}

/// The position, within `idxs`, of the edit that starts furthest down the
/// file; of several that start on the same line, the first.
pub open spec fn lowest(edits: Seq<EditView>, idxs: Seq<int>) -> int
    decreases idxs.len(),
{
    if idxs.len() <= 1 {
        0
    } else {
        let p = lowest(edits, idxs.drop_last());
        if edits[idxs.last()].line_start > edits[idxs[p]].line_start {
            idxs.len() - 1
        } else {
            p
        }
    }
}

/// The order in which the edits `idxs` are applied: from the bottom of the
/// file upwards, so that an edit never moves the lines of one that is
/// still to come; edits that start on the same line keep their plan order.
pub open spec fn bottom_up(edits: Seq<EditView>, idxs: Seq<int>) -> Seq<int>
    decreases idxs.len(),
    via bottom_up_shrinks
{
    if idxs.len() == 0 {
        Seq::empty()
    } else {
        let p = lowest(edits, idxs);
        seq![idxs[p]] + bottom_up(edits, idxs.remove(p))
    }
}

#[via_fn]
proof fn bottom_up_shrinks(edits: Seq<EditView>, idxs: Seq<int>) {
    if idxs.len() > 0 {
        lemma_lowest(edits, idxs);
    }
}

/// Applying the edits `order` one after the other: the text that results,
/// or the index of the first edit that the patch engine refuses.
pub open spec fn apply_in_order(text: Seq<char>, edits: Seq<EditView>, order: Seq<int>) -> Result<
    Seq<char>,
    int,
>
    decreases order.len(),
{
    if order.len() == 0 {
        Ok(text)
    } else if edit_applies(text, edits[order[0]]) {
        apply_in_order(apply_edit(text, edits[order[0]]), edits, order.drop_first())
    } else {
        Err(order[0])
    }
}

/// Whether every edit in `idxs` has line numbers that fit.
pub open spec fn all_lines_fit(edits: Seq<EditView>, idxs: Seq<int>) -> bool {
    forall|k: int| 0 <= k < idxs.len() ==> lines_fit(#[trigger] edits[idxs[k]])
}

/// Whether no two edits in `idxs` overlap.
pub open spec fn all_disjoint(edits: Seq<EditView>, idxs: Seq<int>) -> bool {
    forall|j: int, k: int|
        0 <= j < k < idxs.len() ==> !ranges_overlap(
            #[trigger] edits[idxs[j]],
            #[trigger] edits[idxs[k]],
        )
}

/// The indices in `idxs` as integers.
pub open spec fn as_ints(idxs: Seq<usize>) -> Seq<int> {
    Seq::new(idxs.len(), |i: int| idxs[i] as int)
}

/// Every index that `targets` lists is an index of the plan whose edit
/// targets the file, and they are listed in increasing order.
pub proof fn lemma_targets(edits: Seq<EditView>, file: Seq<char>)
    ensures
        forall|k: int|
            0 <= k < targets(edits, file).len() ==> 0 <= #[trigger] targets(edits, file)[k]
                < edits.len() && edits[targets(edits, file)[k]].file_name == file,
        forall|j: int, k: int|
            0 <= j < k < targets(edits, file).len() ==> targets(edits, file)[j] < targets(
                edits,
                file,
            )[k],
        forall|i: int|
            0 <= i < edits.len() && edits[i].file_name == file ==> targets(edits, file).contains(
                i,
            ),
        targets(edits, file).len() <= edits.len(),
    decreases edits.len(),
{
    if edits.len() > 0 {
        let front = edits.drop_last();
        lemma_targets(front, file);
        let rest = targets(front, file);
        let all = targets(edits, file);
        assert forall|i: int| 0 <= i < edits.len() && edits[i].file_name == file implies all.contains(
            i,
        ) by {
            if i < edits.len() - 1 {
                assert(front[i] == edits[i]);
                assert(rest.contains(i));
                let k = choose|k: int| 0 <= k < rest.len() && rest[k] == i;
                assert(all[k] == i);
            } else {
                assert(all[all.len() - 1] == i);
            }
        }
        assert forall|k: int| 0 <= k < all.len() implies 0 <= #[trigger] all[k] < edits.len()
            && edits[all[k]].file_name == file by {
            if k < rest.len() {
                assert(front[rest[k]] == edits[rest[k]]);
            }
        }
    }
}

/// `lowest` names a position of `idxs` whose edit starts at least as far
/// down as every other, and further down than every one before it.
pub proof fn lemma_lowest(edits: Seq<EditView>, idxs: Seq<int>)
    requires
        idxs.len() > 0,
    ensures
        0 <= lowest(edits, idxs) < idxs.len(),
        forall|k: int|
            0 <= k < idxs.len() ==> edits[#[trigger] idxs[k]].line_start <= edits[idxs[lowest(
                edits,
                idxs,
            )]].line_start,
        forall|k: int|
            0 <= k < lowest(edits, idxs) ==> edits[#[trigger] idxs[k]].line_start
                < edits[idxs[lowest(edits, idxs)]].line_start,
    decreases idxs.len(),
{
    if idxs.len() > 1 {
        let front = idxs.drop_last();
        lemma_lowest(edits, front);
        let p = lowest(edits, front);
        assert forall|k: int| 0 <= k < idxs.len() implies edits[#[trigger] idxs[k]].line_start
            <= edits[idxs[lowest(edits, idxs)]].line_start by {
            if k < front.len() {
                assert(front[k] == idxs[k]);
            }
        }
        assert forall|k: int| 0 <= k < lowest(edits, idxs) implies edits[#[trigger] idxs[k]].line_start
            < edits[idxs[lowest(edits, idxs)]].line_start by {
            assert(front[k] == idxs[k]);
        }
    }
}

/// An edit with the range `[s, e)` never changes the line at index `e`:
/// the text from the start of that line on is carried over as it stands,
/// and so is the text before line `s`.
pub proof fn lemma_edit_is_half_open(text: Seq<char>, e: EditView)
    requires
        edit_applies(text, e),
    ensures
        ({
            let out = apply_edit(text, e);
            let a = line_start(text, e.line_start as nat) as int;
            let b = line_start(text, e.line_end as nat) as int;
            &&& out.take(a) == text.take(a)
            &&& out.subrange(a, a + replacement_of(e).len()) == replacement_of(e)
            &&& out.skip(a + replacement_of(e).len()) == text.skip(b)
        }),
{
    lemma_replace_is_half_open(text, e.line_start as nat, e.line_end as nat, replacement_of(e));
}

/// What an edit writes does not depend on whether its content was padded
/// before: the content is trimmed and padded anew each time.
pub proof fn lemma_replacement_is_normalised(e: EditView)
    ensures
        replacement_of(EditView { doc_comment: replacement_of(e), ..e }) == replacement_of(e),
{
    lemma_padded_idempotent(e.doc_comment);
}

/// Applying an edit a second time gives the text that applying it once
/// gave exactly when, in that text, its lines hold its replacement.
pub proof fn lemma_edit_twice(text: Seq<char>, e: EditView)
    requires
        edit_applies(text, e),
        edit_applies(apply_edit(text, e), e),
    ensures
        ({
            let once = apply_edit(text, e);
            apply_edit(once, e) == once <==> once.subrange(
                line_start(once, e.line_start as nat) as int,
                line_start(once, e.line_end as nat) as int,
            ) == replacement_of(e)
        }),
{
    lemma_replace_again(text, e.line_start as nat, e.line_end as nat, replacement_of(e));
}

/// Whether no carriage return stands right before the start of a line. A
/// carriage return there would end its line together with a line feed put
/// behind it, and every replacement begins with a line feed.
pub open spec fn safe_start(text: Seq<char>, line: nat) -> bool {
    line_start(text, line) == 0 || text[line_start(text, line) - 1] != '\u{000D}'
}

/// Whether the edits `order`, which go from the bottom of the file
/// upwards, are separate in `text`: each of them applies to `text` as it
/// stands, starts at a safe line, and ends at or above the line at which
/// each of those before it starts.
pub open spec fn separate(text: Seq<char>, edits: Seq<EditView>, order: Seq<int>) -> bool {
    &&& forall|k: int|
        0 <= k < order.len() ==> edit_applies(text, edits[#[trigger] order[k]]) && safe_start(
            text,
            edits[order[k]].line_start as nat,
        )
    &&& forall|j: int, k: int|
        #![trigger order[j], order[k]]
        0 <= j < k < order.len() ==> edits[order[k]].line_end <= edits[order[j]].line_start
}

/// The part of `text` before index `cut` in which each of the edits
/// `order` has replaced its lines, the lines being those of `text` itself:
/// what stands before the topmost edit, its replacement, what stands
/// between it and the next, and so on down to `cut`.
pub open spec fn spliced(text: Seq<char>, edits: Seq<EditView>, order: Seq<int>, cut: int) -> Seq<
    char,
>
    decreases order.len(),
{
    if order.len() == 0 {
        text.subrange(0, cut)
    } else {
        let e = edits[order[0]];
        spliced(
            text,
            edits,
            order.drop_first(),
            line_start(text, e.line_start as nat) as int,
        ) + replacement_of(e) + text.subrange(line_start(text, e.line_end as nat) as int, cut)
    }
}

/// Applying separate edits one after the other, each to the text that the
/// one before left, gives the text in which each has replaced its lines as
/// the text had them at first. `current` is a text that holds the
/// characters of `text` before index `cut` and something else behind
/// them: the edits applied so far.
pub proof fn lemma_apply_spliced(
    text: Seq<char>,
    edits: Seq<EditView>,
    order: Seq<int>,
    current: Seq<char>,
    cut: int,
)
    requires
        separate(text, edits, order),
        0 <= cut <= text.len(),
        cut <= current.len(),
        forall|i: int| 0 <= i < cut ==> current[i] == text[i],
        (current == text && cut == text.len()) || (cut < current.len() && current[cut]
            == '\u{000A}' && (cut == 0 || text[cut - 1] != '\u{000D}')),
        forall|k: int|
            0 <= k < order.len() ==> line_start(text, edits[#[trigger] order[k]].line_end as nat)
                <= cut,
    ensures
        apply_in_order(current, edits, order) == Ok::<Seq<char>, int>(
            spliced(text, edits, order, cut) + current.skip(cut),
        ),
    decreases order.len(),
{
    if order.len() == 0 {
        assert(text.subrange(0, cut) + current.skip(cut) =~= current);
    } else {
        let e = edits[order[0]];
        let first = e.line_start as nat;
        let end = e.line_end as nat;
        let a = line_start(text, first) as int;
        let b = line_start(text, end) as int;
        assert(edit_applies(text, e));
        assert(b <= cut);
        // The edit finds its lines in the current text where the text had
        // them at first.
        assert(line_start(current, first) == a && first < line_count(current) && line_start(
            current,
            end,
        ) == b && end < line_count(current)) by {
            if current == text {
            } else {
                if a < cut {
                    lemma_start_kept(text, current, cut, first);
                } else {
                    lemma_start_kept_at(text, current, cut, first);
                }
                if b < cut {
                    lemma_start_kept(text, current, cut, end);
                } else {
                    lemma_start_kept_at(text, current, cut, end);
                }
            }
        }
        assert(edit_applies(current, e));
        let r = replacement_of(e);
        let next = apply_edit(current, e);
        assert(next =~= current.subrange(0, a) + r + current.subrange(b, current.len() as int));
        assert(r[0] == '\u{000A}') by {
            assert(r =~= newline_seq() + trim(e.doc_comment) + newline_seq());
        }
        let rest = order.drop_first();
        assert(separate(text, edits, rest)) by {
            assert forall|k: int| 0 <= k < rest.len() implies edit_applies(
                text,
                edits[#[trigger] rest[k]],
            ) && safe_start(text, edits[rest[k]].line_start as nat) by {
                assert(rest[k] == order[k + 1]);
            }
            assert forall|j: int, k: int|
                #![trigger rest[j], rest[k]]
                0 <= j < k < rest.len() implies edits[rest[k]].line_end
                <= edits[rest[j]].line_start by {
                assert(rest[j] == order[j + 1]);
                assert(rest[k] == order[k + 1]);
            }
        }
        assert forall|k: int| 0 <= k < rest.len() implies line_start(
            text,
            edits[#[trigger] rest[k]].line_end as nat,
        ) <= a by {
            assert(rest[k] == order[k + 1]);
            assert(edits[order[k + 1]].line_end <= edits[order[0]].line_start);
            assert(edit_applies(text, edits[order[k + 1]]));
            lemma_starts_grow(text, edits[order[k + 1]].line_end as nat, first);
        }
        assert(safe_start(text, first));
        assert forall|i: int| 0 <= i < a implies next[i] == text[i] by {
            assert(next[i] == current[i]);
        }
        assert(next[a] == r[0]);
        lemma_apply_spliced(text, edits, rest, next, a);
        assert(next.skip(a) =~= r + current.subrange(b, current.len() as int));
        assert(current.subrange(b, current.len() as int) =~= text.subrange(b, cut) + current.skip(
            cut,
        ));
        assert(spliced(text, edits, rest, a) + next.skip(a) =~= spliced(text, edits, order, cut)
            + current.skip(cut));
    }
}

/// The batch in the coordinates of the file as it was read: where the
/// edits of a file are separate, what `apply_to_content` gives is the text
/// in which each edit has replaced the lines that the text had under its
/// numbers at first, and everything between the edits is as it was.
pub proof fn lemma_batch_in_first_coordinates(
    edits: Seq<EditView>,
    file: Seq<char>,
    text: Seq<char>,
)
    requires
        separate(text, edits, bottom_up(edits, targets(edits, file))),
    ensures
        plan_result(edits, file, text) == Ok::<Seq<char>, int>(
            spliced(text, edits, bottom_up(edits, targets(edits, file)), text.len() as int),
        ),
{
    let order = bottom_up(edits, targets(edits, file));
    assert forall|k: int| 0 <= k < order.len() implies line_start(
        text,
        edits[#[trigger] order[k]].line_end as nat,
    ) <= text.len() by {
        lemma_line_start(text, edits[order[k]].line_end as nat);
    }
    lemma_apply_spliced(text, edits, order, text, text.len() as int);
    assert(text.skip(text.len() as int) =~= Seq::<char>::empty());
    assert(spliced(text, edits, order, text.len() as int) + text.skip(text.len() as int)
        =~= spliced(text, edits, order, text.len() as int));
}

/// The order in which edits are applied holds each of them once, and goes
/// down the line numbers: no edit starts on a later line than one applied
/// before it.
pub proof fn lemma_bottom_up(edits: Seq<EditView>, idxs: Seq<int>)
    ensures
        bottom_up(edits, idxs).len() == idxs.len(),
        forall|k: int|
            0 <= k < idxs.len() ==> bottom_up(edits, idxs).contains(#[trigger] idxs[k]),
        forall|k: int|
            0 <= k < idxs.len() ==> idxs.contains(#[trigger] bottom_up(edits, idxs)[k]),
        forall|j: int, k: int|
            0 <= j < k < idxs.len() ==> edits[bottom_up(edits, idxs)[j]].line_start
                >= edits[bottom_up(edits, idxs)[k]].line_start,
    decreases idxs.len(),
{
    if idxs.len() > 0 {
        lemma_lowest(edits, idxs);
        let p = lowest(edits, idxs);
        let rest = idxs.remove(p);
        lemma_bottom_up(edits, rest);
        let tail = bottom_up(edits, rest);
        let order = bottom_up(edits, idxs);
        assert(order =~= seq![idxs[p]] + tail);
        assert forall|k: int| 0 <= k < idxs.len() implies order.contains(#[trigger] idxs[k]) by {
            if k == p {
                assert(order[0] == idxs[p]);
            } else {
                let r = if k < p {
                    k
                } else {
                    k - 1
                };
                assert(rest[r] == idxs[k]);
                assert(tail.contains(rest[r]));
                let w = choose|w: int| 0 <= w < tail.len() && tail[w] == rest[r];
                assert(order[w + 1] == idxs[k]);
            }
        }
        assert forall|k: int| 0 <= k < idxs.len() implies idxs.contains(#[trigger] order[k]) by {
            if k == 0 {
                assert(idxs[p] == order[0]);
            } else {
                assert(order[k] == tail[k - 1]);
                assert(rest.contains(tail[k - 1]));
                let w = choose|w: int| 0 <= w < rest.len() && rest[w] == tail[k - 1];
                let v = if w < p {
                    w
                } else {
                    w + 1
                };
                assert(idxs[v] == rest[w]);
            }
        }
        assert forall|j: int, k: int| 0 <= j < k < idxs.len() implies edits[order[j]].line_start
            >= edits[order[k]].line_start by {
            assert(order[k] == tail[k - 1]);
            if j == 0 {
                assert(idxs.contains(order[k]));
                let v = choose|v: int| 0 <= v < idxs.len() && idxs[v] == order[k];
                assert(edits[idxs[v]].line_start <= edits[idxs[p]].line_start);
            } else {
                assert(order[j] == tail[j - 1]);
            }
        }
    }
}

impl Edit {
    /// The text that this edit puts in place of its lines.
    pub fn replacement(&self) -> (r: String)
        ensures
            r@ == replacement_of(self@),
    {
        pad(self.doc_comment.as_str())
    }

    /// Whether both line numbers can be handed to the patch engine.
    pub fn has_valid_lines(&self) -> (r: bool)
        ensures
            r == lines_fit(self@),
    {
        self.line_start >= 0 && self.line_end >= 0 && self.line_start as u64 <= usize::MAX as u64
            && self.line_end as u64 <= usize::MAX as u64
    }

    /// Whether the line ranges of two edits share a line.
    pub fn overlaps(&self, other: &Edit) -> (r: bool)
        ensures
            r == ranges_overlap(self@, other@),
    {
        self.line_start < other.line_end && other.line_start < self.line_end
    }

    /// Applies this edit alone to `content`, whatever file it names.
    ///
    /// The lines `[line_start, line_end)` are replaced by the padded
    /// content; the line at `line_end` and everything behind it, and
    /// everything before `line_start`, are carried over unchanged.
    pub fn apply_to(&self, content: &str) -> (r: Result<String, ApplyError>)
        ensures
            match r {
                Ok(out) => edit_applies(content@, self@) && out@ == apply_edit(content@, self@),
                Err(ApplyError::InvalidLine { edit }) => !lines_fit(self@) && edit == 0,
                Err(ApplyError::Rejected { edit, .. }) => lines_fit(self@) && !edit_applies(
                    content@,
                    self@,
                ) && edit == 0,
                Err(ApplyError::Overlap { .. }) => false,
            },
    {
        if !self.has_valid_lines() {
            return Err(ApplyError::InvalidLine { edit: 0 });
        }
        let replacement = self.replacement();
        match replace_line_range(
            content,
            self.line_start as usize,
            self.line_end as usize,
            replacement.as_str(),
        ) {
            Ok(out) => Ok(out),
            Err(e) => Err(ApplyError::Rejected { edit: 0, reason: patch_error_message(&e) }),
        }
    }
}

/// Whether position `k` of `idxs` holds the first edit whose line numbers
/// do not fit.
pub open spec fn is_first_unfit(edits: Seq<EditView>, idxs: Seq<int>, k: int) -> bool {
    &&& 0 <= k < idxs.len()
    &&& !lines_fit(edits[idxs[k]])
    &&& all_lines_fit(edits, idxs.take(k))
}

/// Whether the positions `j < k` of `idxs` hold the first pair of edits
/// that overlap, pairs being taken in the order `(0, 1), (0, 2), ..,
/// (1, 2), ..`.
pub open spec fn is_first_overlap(edits: Seq<EditView>, idxs: Seq<int>, j: int, k: int) -> bool {
    &&& 0 <= j < k < idxs.len()
    &&& ranges_overlap(edits[idxs[j]], edits[idxs[k]])
    &&& forall|a: int, b: int|
        0 <= a < b < idxs.len() && (a < j || (a == j && b < k)) ==> !ranges_overlap(
            #[trigger] edits[idxs[a]],
            #[trigger] edits[idxs[b]],
        )
}

/// What applying every edit of a plan that targets `file` does to `text`.
pub open spec fn plan_result(edits: Seq<EditView>, file: Seq<char>, text: Seq<char>) -> Result<
    Seq<char>,
    int,
> {
    apply_in_order(text, edits, bottom_up(edits, targets(edits, file)))
}

/// The files that the edits target, each once, in the order in which the
/// plan first names them.
pub open spec fn target_files(edits: Seq<EditView>) -> Seq<Seq<char>>
    decreases edits.len(),
{
    if edits.len() == 0 {
        Seq::empty()
    } else {
        let rest = target_files(edits.drop_last());
        if rest.contains(edits.last().file_name) {
            rest
        } else {
            rest.push(edits.last().file_name)
        }
    }
}

impl EditPlan {
    /// The files that the plan targets, each once, in the order in which
    /// the plan first names them. Each is one batch: the edits of one file
    /// are applied together, and the batches do not depend on one another.
    pub fn files(&self) -> (r: Vec<String>)
        ensures
            views(r@) == target_files(self@),
    {
        let mut files: Vec<String> = Vec::new();
        let mut i: usize = 0;
        while i < self.edits.len()
            invariant
                i <= self.edits.len(),
                views(files@) == target_files(self@.take(i as int)),
            decreases self.edits.len() - i,
        {
            proof {
                assert(self@.take(i + 1).drop_last() =~= self@.take(i as int));
                assert(self@.take(i + 1).last() == self.edits@[i as int]@);
            }
            let name = &self.edits[i].file_name;
            let known = contains_text(&files, name.as_str());
            if !known {
                let ghost before = views(files@);
                files.push(name.clone());
                assert(views(files@) =~= before.push(name@));
            }
            i += 1;
        }
        assert(self@.take(self.edits.len() as int) =~= self@);
        files
    }

    /// The indices of the edits that target `file_name`, in plan order.
    pub fn targets(&self, file_name: &str) -> (idxs: Vec<usize>)
        ensures
            as_ints(idxs@) == targets(self@, file_name@),
    {
        let mut idxs: Vec<usize> = Vec::new();
        let mut i: usize = 0;
        while i < self.edits.len()
            invariant
                i <= self.edits.len(),
                as_ints(idxs@) == targets(self@.take(i as int), file_name@),
            decreases self.edits.len() - i,
        {
            proof {
                assert(self@.take(i + 1).drop_last() =~= self@.take(i as int));
                assert(self@.take(i + 1).last() == self.edits@[i as int]@);
            }
            if str_eq(self.edits[i].file_name.as_str(), file_name) {
                idxs.push(i);
                assert(as_ints(idxs@) =~= targets(self@.take(i as int), file_name@).push(
                    i as int,
                ));
            }
            i += 1;
        }
        assert(self@.take(self.edits.len() as int) =~= self@);
        idxs
    }

    /// The position in `idxs` of the edit that starts furthest down.
    fn lowest_of(&self, idxs: &Vec<usize>) -> (p: usize)
        requires
            idxs.len() > 0,
            forall|k: int| 0 <= k < idxs.len() ==> idxs@[k] < self.edits.len(),
        ensures
            p == lowest(self@, as_ints(idxs@)),
            p < idxs.len(),
    {
        let mut p: usize = 0;
        let mut k: usize = 1;
        while k < idxs.len()
            invariant
                1 <= k <= idxs.len(),
                p < k,
                forall|k: int| 0 <= k < idxs.len() ==> idxs@[k] < self.edits.len(),
                p == lowest(self@, as_ints(idxs@).take(k as int)),
            decreases idxs.len() - k,
        {
            proof {
                let next = as_ints(idxs@).take(k + 1);
                assert(next.drop_last() =~= as_ints(idxs@).take(k as int));
                assert(next.last() == idxs@[k as int]);
                assert(next[p as int] == idxs@[p as int]);
            }
            if self.edits[idxs[k]].line_start > self.edits[idxs[p]].line_start {
                p = k;
            }
            k += 1;
        }
        assert(as_ints(idxs@).take(idxs.len() as int) =~= as_ints(idxs@));
        p
    }

    /// The edits `idxs` in the order in which they are applied.
    fn bottom_up_order(&self, idxs: Vec<usize>) -> (order: Vec<usize>)
        requires
            forall|k: int| 0 <= k < idxs.len() ==> idxs@[k] < self.edits.len(),
        ensures
            as_ints(order@) == bottom_up(self@, as_ints(idxs@)),
            forall|k: int| 0 <= k < order.len() ==> idxs@.contains(#[trigger] order@[k]),
    {
        let ghost all = idxs@;
        let mut rest = idxs;
        let mut order: Vec<usize> = Vec::new();
        while rest.len() > 0
            invariant
                forall|k: int| 0 <= k < rest.len() ==> all.contains(#[trigger] rest@[k]),
                forall|k: int| 0 <= k < order.len() ==> all.contains(#[trigger] order@[k]),
                forall|k: int| 0 <= k < all.len() ==> all[k] < self.edits.len(),
                as_ints(order@) + bottom_up(self@, as_ints(rest@)) == bottom_up(
                    self@,
                    as_ints(all),
                ),
            decreases rest.len(),
        {
            let p = self.lowest_of(&rest);
            let ghost before = rest@;
            let i = rest.remove(p);
            proof {
                assert(as_ints(rest@) =~= as_ints(before).remove(p as int));
                assert(as_ints(order@.push(i)) =~= as_ints(order@) + seq![as_ints(before)[p as int]]);
                assert forall|k: int| 0 <= k < rest.len() implies all.contains(
                    #[trigger] rest@[k],
                ) by {
                    if k < p {
                        assert(rest@[k] == before[k]);
                    } else {
                        assert(rest@[k] == before[k + 1]);
                    }
                }
                assert(all.contains(before[p as int]));
            }
            order.push(i);
            assert(as_ints(order@) + bottom_up(self@, as_ints(rest@)) =~= bottom_up(
                self@,
                as_ints(all),
            ));
        }
        assert(as_ints(order@) + bottom_up(self@, as_ints(rest@)) =~= as_ints(order@));
        order
    }

    /// Applies every edit of the plan that targets `file_name` to `content`,
    /// the text of that file, as one batch.
    ///
    /// The batch is refused as a whole when an edit names a line that
    /// cannot be addressed or when two of its edits overlap. Otherwise the
    /// edits are applied from the bottom of the file upwards, each to the
    /// text that the one before left, and the first that the patch engine
    /// refuses ends the batch.
    pub fn apply_to_content(&self, file_name: &str, content: &str) -> (r: Result<
        String,
        ApplyError,
    >)
        ensures
            ({
                let idxs = targets(self@, file_name@);
                match r {
                    Err(ApplyError::InvalidLine { edit }) => exists|k: int|
                        is_first_unfit(self@, idxs, k) && idxs[k] == edit,
                    Err(ApplyError::Overlap { first, second }) => all_lines_fit(self@, idxs)
                        && exists|j: int, k: int|
                        is_first_overlap(self@, idxs, j, k) && idxs[j] == first && idxs[k]
                            == second,
                    Err(ApplyError::Rejected { edit, .. }) => all_lines_fit(self@, idxs)
                        && all_disjoint(self@, idxs) && plan_result(self@, file_name@, content@)
                        == Err::<Seq<char>, int>(edit as int),
                    Ok(out) => all_lines_fit(self@, idxs) && all_disjoint(self@, idxs)
                        && plan_result(self@, file_name@, content@) == Ok::<Seq<char>, int>(
                        out@,
                    ),
                }
            }),
    {
        let idxs = self.targets(file_name);
        let ghost ids = targets(self@, file_name@);
        proof {
            lemma_targets(self@, file_name@);
            assert forall|k: int| 0 <= k < idxs.len() implies idxs@[k] < self.edits.len() by {
                assert(as_ints(idxs@)[k] == ids[k]);
            }
        }
        let n = idxs.len();
        let mut k: usize = 0;
        while k < n
            invariant
                k <= n == idxs.len(),
                as_ints(idxs@) == ids,
                ids == targets(self@, file_name@),
                forall|k: int| 0 <= k < idxs.len() ==> idxs@[k] < self.edits.len(),
                all_lines_fit(self@, ids.take(k as int)),
            decreases n - k,
        {
            assert(ids[k as int] == idxs@[k as int]);
            if !self.edits[idxs[k]].has_valid_lines() {
                assert(is_first_unfit(self@, ids, k as int) && ids[k as int] == idxs@[k as int]);
                return Err(ApplyError::InvalidLine { edit: idxs[k] });
            }
            assert(all_lines_fit(self@, ids.take(k + 1))) by {
                assert forall|j: int| 0 <= j < k + 1 implies lines_fit(
                    #[trigger] self@[ids.take(k + 1)[j]],
                ) by {
                    if j < k {
                        assert(ids.take(k as int)[j] == ids[j]);
                    }
                }
            }
            k += 1;
        }
        assert(ids.take(n as int) =~= ids);
        let mut j: usize = 0;
        while j < n
            invariant
                j <= n == idxs.len(),
                as_ints(idxs@) == ids,
                ids == targets(self@, file_name@),
                forall|k: int| 0 <= k < idxs.len() ==> idxs@[k] < self.edits.len(),
                all_lines_fit(self@, ids),
                forall|a: int, b: int|
                    0 <= a < b < n && a < j ==> !ranges_overlap(
                        #[trigger] self@[ids[a]],
                        #[trigger] self@[ids[b]],
                    ),
            decreases n - j,
        {
            let mut k: usize = j + 1;
            while k < n
                invariant
                    j < k <= n == idxs.len(),
                    as_ints(idxs@) == ids,
                ids == targets(self@, file_name@),
                    all_lines_fit(self@, ids),
                    forall|k: int| 0 <= k < idxs.len() ==> idxs@[k] < self.edits.len(),
                    forall|a: int, b: int|
                        0 <= a < b < n && (a < j || (a == j && b < k)) ==> !ranges_overlap(
                            #[trigger] self@[ids[a]],
                            #[trigger] self@[ids[b]],
                        ),
                decreases n - k,
            {
                assert(ids[j as int] == idxs@[j as int]);
                assert(ids[k as int] == idxs@[k as int]);
                if self.edits[idxs[j]].overlaps(&self.edits[idxs[k]]) {
                    assert(is_first_overlap(self@, ids, j as int, k as int) && ids[j as int]
                        == idxs@[j as int] && ids[k as int] == idxs@[k as int]);
                    return Err(ApplyError::Overlap { first: idxs[j], second: idxs[k] });
                }
                k += 1;
            }
            j += 1;
        }
        assert(all_disjoint(self@, ids));
        let ghost all = idxs@;
        let order = self.bottom_up_order(idxs);
        let ghost ord = bottom_up(self@, ids);
        let mut cur: String = content.to_owned();
        let mut k: usize = 0;
        assert(ord.skip(0) =~= ord);
        while k < order.len()
            invariant
                k <= order.len(),
                as_ints(order@) == ord,
                ord == bottom_up(self@, ids),
                as_ints(all) == ids,
                ids == targets(self@, file_name@),
                all_lines_fit(self@, ids),
                all_disjoint(self@, ids),
                forall|k: int| 0 <= k < all.len() ==> all[k] < self.edits.len(),
                forall|k: int| 0 <= k < order.len() ==> all.contains(#[trigger] order@[k]),
                apply_in_order(cur@, self@, ord.skip(k as int)) == apply_in_order(
                    content@,
                    self@,
                    ord,
                ),
            decreases order.len() - k,
        {
            let i = order[k];
            proof {
                assert(all.contains(order@[k as int]));
                let w = choose|w: int| 0 <= w < all.len() && all[w] == i;
                assert(ids[w] == i);
                assert(lines_fit(self@[ids[w]]));
                assert(ord.skip(k as int)[0] == i);
                assert(ord.skip(k as int).drop_first() =~= ord.skip(k + 1));
            }
            match self.edits[i].apply_to(cur.as_str()) {
                Ok(out) => {
                    cur = out;
                },
                Err(ApplyError::Rejected { reason, .. }) => {
                    return Err(ApplyError::Rejected { edit: i, reason });
                },
                Err(e) => {
                    return Err(e);
                },
            }
            k += 1;
        }
        assert(ord.skip(order.len() as int) =~= Seq::<int>::empty());
        Ok(cur)
    }
}

} // verus!
