//! The offset tracker: for each file, the net number of lines that saved
//! edits have added at given original lines, and the drift that has built
//! up before a line.

use crate::search::{first_index, lemma_first_index, lemma_first_index_found};
use crate::text::str_eq;
use vstd::prelude::*;

verus! {

/// The drift recorded for one file: pairs of an original line and the net
/// number of lines added there.
struct FileOffsets {
    file: String,
    entries: Vec<(i64, i64)>,
}

/// Per-file record of line-count drift, keyed by original line.
pub struct OffsetTracker {
    files: Vec<FileOffsets>,
}

/// The condition that an entry is the one for `line`.
pub open spec fn at_line(line: int) -> spec_fn((int, int)) -> bool {
    |entry: (int, int)| entry.0 == line
}

/// The position of the entry for `line`, if there is one.
pub open spec fn position_of(entries: Seq<(int, int)>, line: int) -> Option<int> {
    first_index(entries, at_line(line))
}

/// The entries after recording that `added_lines` lines were added at
/// `line`: an entry for that line is overwritten, not added to; a line
/// without an entry gets one at the end.
pub open spec fn recorded(entries: Seq<(int, int)>, line: int, added_lines: int) -> Seq<
    (int, int),
> {
    match position_of(entries, line) {
        Some(k) => entries.update(k, (line, added_lines)),
        None => entries.push((line, added_lines)),
    }
}

/// The entries after a run of saves, each recorded in turn.
pub open spec fn recorded_all(entries: Seq<(int, int)>, saves: Seq<(int, int)>) -> Seq<(int, int)>
    decreases saves.len(),
{
    if saves.len() == 0 {
        entries
    } else {
        let before = recorded_all(entries, saves.drop_last());
        recorded(before, saves.last().0, saves.last().1)
    }
}

/// The sum of the drift of every entry whose line is strictly less than
/// `target_line`.
pub open spec fn drift_before(entries: Seq<(int, int)>, target_line: int) -> int
    decreases entries.len(),
{
    if entries.len() == 0 {
        0
    } else {
        drift_before(entries.drop_last(), target_line) + if entries.last().0 < target_line {
            entries.last().1
        } else {
            0
        }
    }
}

/// Whether no line has two entries.
pub open spec fn distinct_lines(entries: Seq<(int, int)>) -> bool {
    forall|j: int, k: int| 0 <= j < k < entries.len() ==> entries[j].0 != entries[k].0
}

/// Whether the lines of the entries strictly increase.
pub open spec fn increasing_lines(entries: Seq<(int, int)>) -> bool {
    forall|j: int, k: int| 0 <= j < k < entries.len() ==> entries[j].0 < entries[k].0
}

/// Whether every entry's line is strictly less than `line`.
pub open spec fn all_before(entries: Seq<(int, int)>, line: int) -> bool {
    forall|k: int| 0 <= k < entries.len() ==> (#[trigger] entries[k]).0 < line
}

/// Changing the drift of one entry changes the sum before a line by the
/// difference, if the entry's line lies before it, and not at all
/// otherwise.
pub proof fn lemma_drift_update(entries: Seq<(int, int)>, k: int, added_lines: int, target: int)
    requires
        0 <= k < entries.len(),
    ensures
        drift_before(entries.update(k, (entries[k].0, added_lines)), target) == drift_before(
            entries,
            target,
        ) + if entries[k].0 < target {
            added_lines - entries[k].1
        } else {
            0
        },
    decreases entries.len(),
{
    let after = entries.update(k, (entries[k].0, added_lines));
    if k == entries.len() - 1 {
        assert(after.drop_last() =~= entries.drop_last());
    } else {
        lemma_drift_update(entries.drop_last(), k, added_lines, target);
        assert(after.drop_last() =~= entries.drop_last().update(k, (entries[k].0, added_lines)));
    }
}

/// Recording keeps the lines distinct.
pub proof fn lemma_recorded_distinct(entries: Seq<(int, int)>, line: int, added_lines: int)
    requires
        distinct_lines(entries),
    ensures
        distinct_lines(recorded(entries, line, added_lines)),
{
    lemma_first_index(entries, at_line(line));
}

/// A save at a line that is not before `target` leaves the drift before
/// `target` as it was.
pub proof fn lemma_later_save_keeps_drift(
    entries: Seq<(int, int)>,
    line: int,
    added_lines: int,
    target: int,
)
    requires
        line >= target,
    ensures
        drift_before(recorded(entries, line, added_lines), target) == drift_before(
            entries,
            target,
        ),
{
    lemma_first_index(entries, at_line(line));
    match position_of(entries, line) {
        Some(k) => {
            lemma_drift_update(entries, k, added_lines, target);
        },
        None => {
            assert(entries.push((line, added_lines)).drop_last() =~= entries);
        },
    }
}

/// Saves made in increasing line order, to lines behind every line
/// recorded so far, are kept one entry each, in that order.
pub proof fn lemma_increasing_saves_append(entries: Seq<(int, int)>, saves: Seq<(int, int)>)
    requires
        increasing_lines(saves),
        saves.len() > 0 ==> all_before(entries, saves[0].0),
    ensures
        recorded_all(entries, saves) == entries + saves,
    decreases saves.len(),
{
    if saves.len() == 0 {
        assert(entries + saves =~= entries);
    } else {
        let front = saves.drop_last();
        assert(increasing_lines(front)) by {
            assert forall|j: int, k: int| 0 <= j < k < front.len() implies front[j].0
                < front[k].0 by {
                assert(front[j] == saves[j] && front[k] == saves[k]);
            }
        }
        if front.len() > 0 {
            assert(front[0] == saves[0]);
        }
        lemma_increasing_saves_append(entries, front);
        let before = entries + front;
        let line = saves.last().0;
        lemma_first_index(before, at_line(line));
        assert forall|j: int| 0 <= j < before.len() implies (#[trigger] before[j]).0 != line by {
            if j < entries.len() {
                assert(before[j] == entries[j]);
                assert(saves[0].0 <= line);
            } else {
                assert(before[j] == saves[j - entries.len()]);
            }
        }
        assert(position_of(before, line) is None);
        assert(before.push(saves.last()) =~= entries + saves);
    }
}

/// The drift before a line of two runs of entries, one after the other, is
/// the sum of their drifts.
pub proof fn lemma_drift_concat(a: Seq<(int, int)>, b: Seq<(int, int)>, target: int)
    ensures
        drift_before(a + b, target) == drift_before(a, target) + drift_before(b, target),
    decreases b.len(),
{
    if b.len() == 0 {
        assert(a + b =~= a);
    } else {
        lemma_drift_concat(a, b.drop_last(), target);
        assert((a + b).drop_last() =~= a + b.drop_last());
    }
}

/// After saves made in increasing line order on a fresh tracker, the drift
/// before a line is the sum of `added_lines` over the saves whose line is
/// less than it, and a further save at a line not before it leaves that sum
/// unchanged.
pub proof fn lemma_offset_monotonicity(
    saves: Seq<(int, int)>,
    line: int,
    added_lines: int,
    target: int,
)
    requires
        increasing_lines(saves),
        saves.len() > 0 ==> saves.last().0 < line,
        line >= target,
    ensures
        drift_before(recorded_all(Seq::empty(), saves), target) == drift_before(saves, target),
        drift_before(recorded_all(Seq::empty(), saves.push((line, added_lines))), target)
            == drift_before(saves, target),
{
    lemma_increasing_saves_append(Seq::empty(), saves);
    assert(Seq::<(int, int)>::empty() + saves =~= saves);
    assert(saves.push((line, added_lines)).drop_last() =~= saves);
    lemma_later_save_keeps_drift(saves, line, added_lines, target);
}

/// The condition that a name is `file`.
pub open spec fn is_name(file: Seq<char>) -> spec_fn(Seq<char>) -> bool {
    |name: Seq<char>| name == file
}

/// The position of the first occurrence of `file` among `names`.
pub open spec fn index_of_name(names: Seq<Seq<char>>, file: Seq<char>) -> Option<int> {
    first_index(names, is_name(file))
}

/// The entries of a list of pairs as integers.
pub open spec fn as_entries(pairs: Seq<(i64, i64)>) -> Seq<(int, int)> {
    Seq::new(pairs.len(), |i: int| (pairs[i].0 as int, pairs[i].1 as int))
}

/// The position of the entry for `line`.
fn find_line(entries: &Vec<(i64, i64)>, line: i64) -> (r: Option<usize>)
    ensures
        match r {
            Some(p) => position_of(as_entries(entries@), line as int) == Some(p as int) && p
                < entries.len(),
            None => position_of(as_entries(entries@), line as int) is None,
        },
{
    let ghost all = as_entries(entries@);
    let mut k: usize = 0;
    while k < entries.len()
        invariant
            k <= entries.len(),
            all == as_entries(entries@),
            position_of(all.take(k as int), line as int) is None,
        decreases entries.len() - k,
    {
        proof {
            assert(all.take(k + 1).drop_last() =~= all.take(k as int));
            assert(all.take(k + 1).last().0 == entries@[k as int].0);
        }
        if entries[k].0 == line {
            proof {
                assert(all[k as int].0 == line);
                lemma_first_index_found(all, k + 1, at_line(line as int));
            }
            return Some(k);
        }
        k += 1;
    }
    assert(all.take(entries.len() as int) =~= all);
    None
}

impl OffsetTracker {
    /// The names of the files that have a record, in the order of the
    /// records.
    pub closed spec fn names(&self) -> Seq<Seq<char>> {
        Seq::new(self.files@.len(), |i: int| self.files@[i].file@)
    }

    /// The position of the record for `file`, if it has one.
    pub closed spec fn slot(&self, file: Seq<char>) -> Option<int> {
        index_of_name(self.names(), file)
    }

    /// The entries recorded for `file`, in the order in which their lines
    /// were first recorded; none for a file that was never recorded.
    pub closed spec fn entries(&self, file: Seq<char>) -> Seq<(int, int)> {
        match self.slot(file) {
            Some(i) => as_entries(self.files@[i].entries@),
            None => Seq::empty(),
        }
    }

    /// No file has two records, and no line of a file has two entries.
    pub closed spec fn wf(&self) -> bool {
        &&& forall|i: int, j: int|
            0 <= i < j < self.files@.len() ==> self.files@[i].file@ != self.files@[j].file@
        &&& forall|i: int|
            0 <= i < self.files@.len() ==> distinct_lines(
                as_entries(#[trigger] self.files@[i].entries@),
            )
    }

    /// A tracker without any record.
    pub fn new() -> (r: Self)
        ensures
            r.wf(),
            forall|file: Seq<char>| #[trigger] r.entries(file) == Seq::<(int, int)>::empty(),
    {
        OffsetTracker { files: Vec::new() }
    }

    /// Forgets every record: after a full reparse all stored lines refer to
    /// the new coordinates and the drift is zero.
    pub fn reset(&mut self)
        ensures
            final(self).wf(),
            forall|file: Seq<char>|
                #[trigger] final(self).entries(file) == Seq::<(int, int)>::empty(),
    {
        self.files = Vec::new();
    }

    /// The index of the record for `file`.
    fn find_file(&self, file: &str) -> (r: Option<usize>)
        requires
            self.wf(),
        ensures
            match r {
                Some(i) => i < self.files@.len() && self.files@[i as int].file@ == file@
                    && self.slot(file@) == Some(i as int),
                None => self.slot(file@) is None,
            },
    {
        proof {
            lemma_first_index(self.names(), is_name(file@));
        }
        let mut i: usize = 0;
        while i < self.files.len()
            invariant
                i <= self.files.len(),
                forall|k: int| 0 <= k < i ==> self.files@[k].file@ != file@,
                match index_of_name(self.names(), file@) {
                    Some(k) => 0 <= k < self.names().len() && self.names()[k] == file@
                        && forall|j: int| 0 <= j < k ==> (#[trigger] self.names()[j]) != file@,
                    None => forall|j: int|
                        0 <= j < self.names().len() ==> (#[trigger] self.names()[j]) != file@,
                },
            decreases self.files.len() - i,
        {
            if str_eq(self.files[i].file.as_str(), file) {
                assert(self.names()[i as int] == file@);
                assert forall|k: int| 0 <= k < i implies self.names()[k] != file@ by {
                    assert(self.files@[k].file@ != file@);
                }
                return Some(i);
            }
            i += 1;
        }
        proof {
            if index_of_name(self.names(), file@) is Some {
                let k = index_of_name(self.names(), file@).unwrap();
                assert(self.files@[k].file@ != file@);
            }
        }
        None
    }

    /// Records that the edit saved at `original_line` of `file` added
    /// `added_lines` lines net. A second record for the same line replaces
    /// the first.
    pub fn record(&mut self, file: &str, original_line: i64, added_lines: i64)
        requires
            old(self).wf(),
        ensures
            final(self).wf(),
            final(self).entries(file@) == recorded(
                old(self).entries(file@),
                original_line as int,
                added_lines as int,
            ),
            forall|other: Seq<char>|
                other != file@ ==> #[trigger] final(self).entries(other) == old(self).entries(
                    other,
                ),
    {
        let slot = self.find_file(file);
        let ghost before = *self;
        match slot {
            Some(i) => {
                let mut rec = self.files.remove(i);
                let ghost rest = self.files@;
                let ghost old_entries = as_entries(rec.entries@);
                let found = find_line(&rec.entries, original_line);
                proof {
                    lemma_first_index(old_entries, at_line(original_line as int));
                }
                match found {
                    Some(p) => {
                        rec.entries.set(p, (original_line, added_lines));
                    },
                    None => {
                        rec.entries.push((original_line, added_lines));
                    },
                }
                proof {
                    assert(as_entries(rec.entries@) =~= recorded(
                        old_entries,
                        original_line as int,
                        added_lines as int,
                    ));
                    lemma_recorded_distinct(old_entries, original_line as int, added_lines as int);
                }
                self.files.insert(i, rec);
                proof {
                    let now = self.files@;
                    let was = before.files@;
                    assert(now.len() == was.len());
                    assert forall|j: int| 0 <= j < now.len() && j != i implies now[j]
                        == was[j] by {}
                    assert(now[i as int].file@ == was[i as int].file@);
                    assert(self.names() =~= before.names());
                    assert forall|a: int, b: int| 0 <= a < b < now.len() implies now[a].file@
                        != now[b].file@ by {
                        assert(now[a].file@ == was[a].file@);
                        assert(now[b].file@ == was[b].file@);
                    }
                    assert forall|j: int| 0 <= j < now.len() implies distinct_lines(
                        as_entries(#[trigger] now[j].entries@),
                    ) by {
                        if j != i {
                            assert(now[j] == was[j]);
                        }
                    }
                    assert forall|other: Seq<char>| other != file@ implies #[trigger] self.entries(
                        other,
                    ) == before.entries(other) by {
                        lemma_first_index(self.names(), is_name(other));
                    }
                }
            },
            None => {
                let mut entries: Vec<(i64, i64)> = Vec::new();
                entries.push((original_line, added_lines));
                let rec = FileOffsets { file: file.to_owned(), entries };
                self.files.push(rec);
                proof {
                    let now = self.files@;
                    let was = before.files@;
                    let last = now.len() - 1;
                    assert(now[last].file@ == file@);
                    assert(self.names() =~= before.names().push(file@));
                    assert(self.names().drop_last() =~= before.names());
                    assert(as_entries(now[last].entries@) =~= recorded(
                        Seq::empty(),
                        original_line as int,
                        added_lines as int,
                    ));
                    assert forall|other: Seq<char>| other != file@ implies #[trigger] self.entries(
                        other,
                    ) == before.entries(other) by {
                        lemma_first_index(before.names(), is_name(other));
                        match index_of_name(before.names(), other) {
                            Some(w) => {
                                assert(now[w] == was[w]);
                            },
                            None => {},
                        }
                    }
                    assert(distinct_lines(as_entries(now[last].entries@)));
                    lemma_first_index(before.names(), is_name(file@));
                    assert forall|a: int, b: int| 0 <= a < b < now.len() implies now[a].file@
                        != now[b].file@ by {
                        assert(now[a] == was[a]);
                        if b < last {
                            assert(now[b] == was[b]);
                        } else {
                            assert(before.names()[a] != file@);
                        }
                    }
                    assert forall|j: int| 0 <= j < now.len() implies distinct_lines(
                        as_entries(#[trigger] now[j].entries@),
                    ) by {
                        if j < last {
                            assert(now[j] == was[j]);
                        }
                    }
                }
            },
        }
    }

    /// How many lines of drift exist before `target_line` in `file`: the
    /// sum of every recorded drift for that file whose line is strictly
    /// less than `target_line`; zero for a file without a record.
    pub fn cumulative_before(&self, file: &str, target_line: i64) -> (r: i128)
        requires
            self.wf(),
        ensures
            r == drift_before(self.entries(file@), target_line as int),
    {
        match self.find_file(file) {
            Some(i) => {
                let entries = &self.files[i].entries;
                let ghost all = as_entries(entries@);
                let mut sum: i128 = 0;
                let mut k: usize = 0;
                while k < entries.len()
                    invariant
                        k <= entries.len(),
                        all == as_entries(entries@),
                        sum == drift_before(all.take(k as int), target_line as int),
                        -(k as int) * 0x8000_0000_0000_0000 <= sum <= (k as int)
                            * 0x8000_0000_0000_0000,
                    decreases entries.len() - k,
                {
                    proof {
                        assert(all.take(k + 1).drop_last() =~= all.take(k as int));
                        assert(all.take(k + 1).last() == (
                            entries@[k as int].0 as int,
                            entries@[k as int].1 as int,
                        ));
                    }
                    if entries[k].0 < target_line {
                        sum = sum + entries[k].1 as i128;
                    }
                    k += 1;
                }
                assert(all.take(entries.len() as int) =~= all);
                sum
            },
            None => 0,
        }
    }
}

} // verus!
