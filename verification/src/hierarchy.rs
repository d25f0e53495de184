//! Hierarchy queries over a list of sections in document order.
//!
//! A section's place in the hierarchy shows in two ways: in the indices it
//! holds (`parent_index`, `children_indices`) and in its `level` relative to
//! its neighbours. The sibling and level queries go by levels alone, so
//! they are stated over the sequence of levels.

use crate::section::Section;
use vstd::prelude::*;

verus! {

/// The levels of the sections, in order.
pub open spec fn levels(sections: Seq<Section>) -> Seq<nat> {
    Seq::new(sections.len(), |i: int| sections[i].level as nat)
}

/// Scanning forward from `from` for an entry at `level`: the first such
/// entry, unless an entry at a shallower level comes first.
pub open spec fn scan_forward(levels: Seq<nat>, level: nat, from: int) -> Option<int>
    decreases levels.len() - from,
{
    if from < 0 || from >= levels.len() {
        None
    } else if levels[from] == level {
        Some(from)
    } else if levels[from] < level {
        None
    } else {
        scan_forward(levels, level, from + 1)
    }
}

/// Scanning backward from `from` for an entry at `level`: the first such
/// entry, unless an entry at a shallower level comes first.
pub open spec fn scan_backward(levels: Seq<nat>, level: nat, from: int) -> Option<int>
    decreases from + 1,
{
    if from < 0 || from >= levels.len() {
        None
    } else if levels[from] == level {
        Some(from)
    } else if levels[from] < level {
        None
    } else {
        scan_backward(levels, level, from - 1)
    }
}

/// The next entry at the level of entry `i` within the same subtree.
pub open spec fn next_sibling_of(levels: Seq<nat>, i: int) -> Option<int> {
    scan_forward(levels, levels[i], i + 1)
}

/// The previous entry at the level of entry `i` within the same subtree.
pub open spec fn prev_sibling_of(levels: Seq<nat>, i: int) -> Option<int> {
    scan_backward(levels, levels[i], i - 1)
}

/// The first entry at or behind `from` whose level is `level`.
pub open spec fn first_at(levels: Seq<nat>, level: nat, from: int) -> Option<int>
    decreases levels.len() - from,
{
    if from < 0 || from >= levels.len() {
        None
    } else if levels[from] == level {
        Some(from)
    } else {
        first_at(levels, level, from + 1)
    }
}

/// The last entry at or before `from` whose level is `level`.
pub open spec fn last_at(levels: Seq<nat>, level: nat, from: int) -> Option<int>
    decreases from + 1,
{
    if from < 0 || from >= levels.len() {
        None
    } else if levels[from] == level {
        Some(from)
    } else {
        last_at(levels, level, from - 1)
    }
}

/// The first entry of the whole list at `level`.
pub open spec fn first_at_level_of(levels: Seq<nat>, level: nat) -> Option<int> {
    first_at(levels, level, 0)
}

/// The last entry of the whole list at `level`.
pub open spec fn last_at_level_of(levels: Seq<nat>, level: nat) -> Option<int> {
    last_at(levels, level, levels.len() - 1)
}

/// The first entry at or behind `from` that lies deeper than `level`.
pub open spec fn first_deeper(levels: Seq<nat>, level: nat, from: int) -> Option<int>
    decreases levels.len() - from,
{
    if from < 0 || from >= levels.len() {
        None
    } else if levels[from] > level {
        Some(from)
    } else {
        first_deeper(levels, level, from + 1)
    }
}

/// The first entry behind entry `i` that lies deeper than it.
pub open spec fn next_deeper_of(levels: Seq<nat>, i: int) -> Option<int> {
    first_deeper(levels, levels[i], i + 1)
}

/// Whether every entry in `[from, to)` lies deeper than `level`.
pub open spec fn only_deeper(levels: Seq<nat>, level: nat, from: int, to: int) -> bool {
    forall|k: int| from <= k < to ==> #[trigger] levels[k] > level
}

/// What a forward scan finds is an entry at the level with only deeper
/// entries between the start and it; and where it finds nothing, no entry
/// at the level can be reached from the start through deeper entries alone.
pub proof fn lemma_scan_forward(levels: Seq<nat>, level: nat, from: int)
    requires
        0 <= from,
    ensures
        match scan_forward(levels, level, from) {
            Some(j) => from <= j < levels.len() && levels[j] == level && only_deeper(
                levels,
                level,
                from,
                j,
            ),
            None => forall|j: int|
                from <= j < levels.len() && #[trigger] only_deeper(levels, level, from, j)
                    ==> levels[j] != level,
        },
    decreases levels.len() - from,
{
    if from >= levels.len() {
    } else if levels[from] == level {
    } else if levels[from] < level {
        assert forall|j: int|
            from <= j < levels.len() && #[trigger] only_deeper(
                levels,
                level,
                from,
                j,
            ) implies levels[j] != level by {
            if j > from {
                assert(levels[from] > level);
            }
        }
    } else {
        lemma_scan_forward(levels, level, from + 1);
        match scan_forward(levels, level, from + 1) {
            Some(j) => {
                assert(only_deeper(levels, level, from + 1, j));
            },
            None => {
                assert forall|j: int|
                    from <= j < levels.len() && #[trigger] only_deeper(
                        levels,
                        level,
                        from,
                        j,
                    ) implies levels[j] != level by {
                    if j > from {
                        assert(only_deeper(levels, level, from + 1, j));
                    }
                }
            },
        }
    }
}

/// The sibling scan stops at the boundary of the subtree: where a
/// shallower entry follows entry `i` with no entry at `i`'s level in
/// between, `i` has no next sibling, whatever comes behind the shallower
/// entry.
pub proof fn lemma_sibling_scan_boundary(levels: Seq<nat>, i: int, m: int)
    requires
        0 <= i < m < levels.len(),
        levels[m] < levels[i],
        forall|k: int| i < k < m ==> #[trigger] levels[k] != levels[i],
    ensures
        next_sibling_of(levels, i) is None,
{
    lemma_scan_stops(levels, levels[i], i + 1, m);
}

/// A forward scan that meets no entry at the level before a shallower one
/// finds nothing.
pub proof fn lemma_scan_stops(levels: Seq<nat>, level: nat, from: int, m: int)
    requires
        0 <= from <= m < levels.len(),
        levels[m] < level,
        forall|k: int| from <= k < m ==> #[trigger] levels[k] != level,
    ensures
        scan_forward(levels, level, from) is None,
    decreases m - from,
{
    if from < m {
        if levels[from] > level {
            lemma_scan_stops(levels, level, from + 1, m);
        }
    }
}

/// The level of section `i`.
fn level_at(sections: &Vec<Section>, i: usize) -> (l: usize)
    requires
        i < sections.len(),
    ensures
        l as nat == levels(sections@)[i as int],
{
    sections[i].level
}

/// The next section at the level of section `i`: the scan goes forward and
/// stops as soon as it meets a section at a shallower level.
pub fn next_sibling(sections: &Vec<Section>, i: usize) -> (r: Option<usize>)
    requires
        i < sections.len(),
    ensures
        match r {
            Some(j) => next_sibling_of(levels(sections@), i as int) == Some(j as int) && j
                < sections.len(),
            None => next_sibling_of(levels(sections@), i as int) is None,
        },
{
    let level = level_at(sections, i);
    let mut j: usize = i + 1;
    while j < sections.len()
        invariant
            i < j <= sections.len(),
            level as nat == levels(sections@)[i as int],
            scan_forward(levels(sections@), level as nat, j as int) == next_sibling_of(
                levels(sections@),
                i as int,
            ),
        decreases sections.len() - j,
    {
        let l = level_at(sections, j);
        if l == level {
            return Some(j);
        }
        if l < level {
            return None;
        }
        j += 1;
    }
    None
}

/// The previous section at the level of section `i`: the scan goes
/// backward and stops as soon as it meets a section at a shallower level.
pub fn prev_sibling(sections: &Vec<Section>, i: usize) -> (r: Option<usize>)
    requires
        i < sections.len(),
    ensures
        match r {
            Some(j) => prev_sibling_of(levels(sections@), i as int) == Some(j as int) && j
                < sections.len(),
            None => prev_sibling_of(levels(sections@), i as int) is None,
        },
{
    let level = level_at(sections, i);
    let mut j: usize = i;
    while j > 0
        invariant
            j <= i < sections.len(),
            level as nat == levels(sections@)[i as int],
            scan_backward(levels(sections@), level as nat, j - 1) == prev_sibling_of(
                levels(sections@),
                i as int,
            ),
        decreases j,
    {
        j -= 1;
        let l = level_at(sections, j);
        if l == level {
            return Some(j);
        }
        if l < level {
            return None;
        }
    }
    None
}

/// The first section of the list at `level`, wherever it stands.
pub fn first_at_level(sections: &Vec<Section>, level: usize) -> (r: Option<usize>)
    ensures
        match r {
            Some(j) => first_at_level_of(levels(sections@), level as nat) == Some(j as int) && j
                < sections.len(),
            None => first_at_level_of(levels(sections@), level as nat) is None,
        },
{
    let mut j: usize = 0;
    while j < sections.len()
        invariant
            j <= sections.len(),
            first_at(levels(sections@), level as nat, j as int) == first_at_level_of(
                levels(sections@),
                level as nat,
            ),
        decreases sections.len() - j,
    {
        if level_at(sections, j) == level {
            return Some(j);
        }
        j += 1;
    }
    None
}

/// The last section of the list at `level`, wherever it stands.
pub fn last_at_level(sections: &Vec<Section>, level: usize) -> (r: Option<usize>)
    ensures
        match r {
            Some(j) => last_at_level_of(levels(sections@), level as nat) == Some(j as int) && j
                < sections.len(),
            None => last_at_level_of(levels(sections@), level as nat) is None,
        },
{
    let mut j: usize = sections.len();
    while j > 0
        invariant
            j <= sections.len(),
            last_at(levels(sections@), level as nat, j - 1) == last_at_level_of(
                levels(sections@),
                level as nat,
            ),
        decreases j,
    {
        j -= 1;
        if level_at(sections, j) == level {
            return Some(j);
        }
    }
    None
}

/// The first section behind section `i` that lies deeper than it.
pub fn next_deeper(sections: &Vec<Section>, i: usize) -> (r: Option<usize>)
    requires
        i < sections.len(),
    ensures
        match r {
            Some(j) => next_deeper_of(levels(sections@), i as int) == Some(j as int) && j
                < sections.len(),
            None => next_deeper_of(levels(sections@), i as int) is None,
        },
{
    let level = level_at(sections, i);
    let mut j: usize = i + 1;
    while j < sections.len()
        invariant
            i < j <= sections.len(),
            level as nat == levels(sections@)[i as int],
            first_deeper(levels(sections@), level as nat, j as int) == next_deeper_of(
                levels(sections@),
                i as int,
            ),
        decreases sections.len() - j,
    {
        if level_at(sections, j) > level {
            return Some(j);
        }
        j += 1;
    }
    None
}

/// The nearest entry at or before `from` that lies shallower than `level`.
pub open spec fn nearest_shallower(levels: Seq<nat>, level: nat, from: int) -> Option<int>
    decreases from + 1,
{
    if from < 0 || from >= levels.len() {
        None
    } else if levels[from] < level {
        Some(from)
    } else {
        nearest_shallower(levels, level, from - 1)
    }
}

/// The entry that encloses entry `i`: the nearest one before it at a
/// shallower level. A top-level entry has none.
pub open spec fn parent_of(levels: Seq<nat>, i: int) -> Option<int> {
    nearest_shallower(levels, levels[i], i - 1)
}

/// The entries among the first `n` that entry `p` encloses directly, in
/// document order.
pub open spec fn children_upto(levels: Seq<nat>, p: int, n: int) -> Seq<int>
    decreases n,
{
    if n <= 0 {
        Seq::empty()
    } else {
        let rest = children_upto(levels, p, n - 1);
        if n - 1 < levels.len() && parent_of(levels, n - 1) == Some(p) {
            rest.push(n - 1)
        } else {
            rest
        }
    }
}

/// The indices in `children` as integers.
pub open spec fn child_indices(children: Seq<usize>) -> Seq<int> {
    Seq::new(children.len(), |k: int| children[k] as int)
}

/// Whether entry `i` of the list names the entry that encloses it.
pub open spec fn parent_linked(sections: Seq<Section>, i: int) -> bool {
    match sections[i].parent_index {
        Some(p) => parent_of(levels(sections), i) == Some(p as int),
        None => parent_of(levels(sections), i) is None,
    }
}

/// Whether the list is linked as a hierarchy: every section names the
/// section that encloses it, and every section lists the sections it
/// encloses directly, in document order.
pub open spec fn linked(sections: Seq<Section>) -> bool {
    forall|i: int|
        0 <= i < sections.len() ==> #[trigger] parent_linked(sections, i) && child_indices(
            sections[i].children_indices@,
        ) == children_upto(levels(sections), i, sections.len() as int)
}

/// What encloses an entry stands before it at a strictly lesser level, and
/// everything between the two lies at least as deep as the entry.
pub proof fn lemma_parent_of(levels: Seq<nat>, i: int)
    requires
        0 <= i < levels.len(),
    ensures
        match parent_of(levels, i) {
            Some(p) => 0 <= p < i && levels[p] < levels[i] && forall|k: int|
                p < k < i ==> #[trigger] levels[k] >= levels[i],
            None => forall|k: int| 0 <= k < i ==> #[trigger] levels[k] >= levels[i],
        },
{
    lemma_nearest_shallower(levels, levels[i], i - 1);
}

/// What a backward scan for a shallower entry finds, and what it has
/// passed.
pub proof fn lemma_nearest_shallower(levels: Seq<nat>, level: nat, from: int)
    requires
        -1 <= from < levels.len(),
    ensures
        match nearest_shallower(levels, level, from) {
            Some(p) => 0 <= p <= from && levels[p] < level && forall|k: int|
                p < k <= from ==> #[trigger] levels[k] >= level,
            None => forall|k: int| 0 <= k <= from ==> #[trigger] levels[k] >= level,
        },
    decreases from + 1,
{
    if from >= 0 && levels[from] >= level {
        lemma_nearest_shallower(levels, level, from - 1);
    }
}

/// The entries that an entry encloses directly stand behind it, in
/// increasing order, each at a strictly greater level, and each names it as
/// what encloses it.
pub proof fn lemma_children_upto(levels: Seq<nat>, p: int, n: int)
    requires
        0 <= p < levels.len(),
        0 <= n <= levels.len(),
    ensures
        forall|k: int|
            0 <= k < children_upto(levels, p, n).len() ==> {
                let c = #[trigger] children_upto(levels, p, n)[k];
                p < c < n && levels[c] > levels[p] && parent_of(levels, c) == Some(p)
            },
        forall|j: int, k: int|
            0 <= j < k < children_upto(levels, p, n).len() ==> children_upto(levels, p, n)[j]
                < children_upto(levels, p, n)[k],
        forall|c: int|
            0 <= c < n && parent_of(levels, c) == Some(p) ==> children_upto(
                levels,
                p,
                n,
            ).contains(c),
    decreases n,
{
    if n > 0 {
        lemma_children_upto(levels, p, n - 1);
        lemma_parent_of(levels, n - 1);
        let rest = children_upto(levels, p, n - 1);
        let all = children_upto(levels, p, n);
        assert forall|c: int| 0 <= c < n && parent_of(levels, c) == Some(p) implies all.contains(
            c,
        ) by {
            if c < n - 1 {
                assert(rest.contains(c));
                let k = choose|k: int| 0 <= k < rest.len() && rest[k] == c;
                assert(all[k] == c);
            } else {
                assert(all[all.len() - 1] == c);
            }
        }
    }
}

/// In a linked list a section lies strictly deeper than the section it
/// names as its parent, each section it lists as a child names it as
/// parent, and children are listed in increasing order.
pub proof fn lemma_linked(sections: Seq<Section>, i: int)
    requires
        linked(sections),
        0 <= i < sections.len(),
    ensures
        sections[i].parent_index matches Some(p) ==> p < i && sections[p as int].level
            < sections[i].level,
        forall|k: int|
            0 <= k < sections[i].children_indices@.len() ==> {
                let c = #[trigger] sections[i].children_indices@[k];
                i < c < sections.len() && sections[c as int].parent_index == Some(i as usize)
            },
        forall|j: int, k: int|
            0 <= j < k < sections[i].children_indices@.len()
                ==> sections[i].children_indices@[j] < sections[i].children_indices@[k],
{
    let lv = levels(sections);
    let n = sections.len() as int;
    assert(parent_linked(sections, i));
    lemma_parent_of(lv, i);
    lemma_children_upto(lv, i, n);
    let kids = children_upto(lv, i, n);
    let listed = sections[i].children_indices@;
    assert forall|k: int| 0 <= k < listed.len() implies {
        let c = #[trigger] listed[k];
        i < c < sections.len() && sections[c as int].parent_index == Some(i as usize)
    } by {
        assert(child_indices(listed)[k] == kids[k]);
        let c = listed[k] as int;
        assert(parent_linked(sections, c));
    }
    assert forall|j: int, k: int| 0 <= j < k < listed.len() implies listed[j] < listed[k] by {
        assert(child_indices(listed)[j] == kids[j]);
        assert(child_indices(listed)[k] == kids[k]);
    }
}

/// The section that encloses section `i`: the nearest one before it at a
/// shallower level.
pub fn find_parent(sections: &Vec<Section>, i: usize) -> (r: Option<usize>)
    requires
        i < sections.len(),
    ensures
        match r {
            Some(p) => parent_of(levels(sections@), i as int) == Some(p as int) && p < i,
            None => parent_of(levels(sections@), i as int) is None,
        },
{
    let level = level_at(sections, i);
    let mut j: usize = i;
    while j > 0
        invariant
            j <= i < sections.len(),
            level as nat == levels(sections@)[i as int],
            nearest_shallower(levels(sections@), level as nat, j - 1) == parent_of(
                levels(sections@),
                i as int,
            ),
        decreases j,
    {
        j -= 1;
        if level_at(sections, j) < level {
            return Some(j);
        }
    }
    None
}

/// Links the list as a hierarchy by the levels of its sections: every
/// section is given the section that encloses it as parent and is listed
/// among that section's children. Nothing else about a section changes.
pub fn link_sections(sections: &mut Vec<Section>)
    ensures
        linked(final(sections)@),
        final(sections)@.len() == old(sections)@.len(),
        forall|i: int|
            0 <= i < old(sections)@.len() ==> (#[trigger] final(sections)@[i]) == (Section {
                parent_index: final(sections)@[i].parent_index,
                children_indices: final(sections)@[i].children_indices,
                ..old(sections)@[i]
            }),
{
    let n = sections.len();
    let ghost lv = levels(sections@);
    let mut i: usize = 0;
    while i < n
        invariant
            i <= n == sections@.len() == old(sections)@.len(),
            lv == levels(sections@),
            forall|k: int|
                0 <= k < n ==> (#[trigger] sections@[k]) == (Section {
                    parent_index: sections@[k].parent_index,
                    children_indices: sections@[k].children_indices,
                    ..old(sections)@[k]
                }),
            forall|k: int| 0 <= k < i ==> #[trigger] parent_linked(sections@, k),
            forall|k: int|
                0 <= k < i ==> child_indices((#[trigger] sections@[k]).children_indices@)
                    == children_upto(lv, k, 0),
        decreases n - i,
    {
        let parent = find_parent(sections, i);
        let ghost before = sections@;
        let mut section = sections.remove(i);
        section.parent_index = parent;
        section.children_indices = Vec::new();
        sections.insert(i, section);
        proof {
            assert(levels(sections@) =~= lv);
            assert(child_indices(sections@[i as int].children_indices@) =~= children_upto(
                lv,
                i as int,
                0,
            ));
            assert forall|k: int| 0 <= k < i + 1 implies #[trigger] parent_linked(
                sections@,
                k,
            ) by {
                if k < i {
                    assert(parent_linked(before, k));
                    assert(sections@[k] == before[k]);
                }
            }
            assert forall|k: int| 0 <= k < i + 1 implies child_indices(
                (#[trigger] sections@[k]).children_indices@,
            ) == children_upto(lv, k, 0) by {
                if k != i {
                    assert(sections@[k] == before[k]);
                }
            }
        }
        i += 1;
    }
    let mut c: usize = 0;
    while c < n
        invariant
            c <= n == sections@.len() == old(sections)@.len(),
            lv == levels(sections@),
            forall|k: int|
                0 <= k < n ==> (#[trigger] sections@[k]) == (Section {
                    parent_index: sections@[k].parent_index,
                    children_indices: sections@[k].children_indices,
                    ..old(sections)@[k]
                }),
            forall|k: int| 0 <= k < n ==> #[trigger] parent_linked(sections@, k),
            forall|k: int|
                0 <= k < n ==> child_indices((#[trigger] sections@[k]).children_indices@)
                    == children_upto(lv, k, c as int),
        decreases n - c,
    {
        let ghost before = sections@;
        proof {
            assert(parent_linked(before, c as int));
            lemma_parent_of(lv, c as int);
        }
        if let Some(p) = sections[c].parent_index {
            let mut holder = sections.remove(p);
            let ghost kids = holder.children_indices@;
            holder.children_indices.push(c);
            assert(child_indices(holder.children_indices@) =~= child_indices(kids).push(c as int));
            sections.insert(p, holder);
            assert(levels(sections@) =~= lv);
        }
        proof {
            assert forall|k: int| 0 <= k < n implies #[trigger] parent_linked(sections@, k) by {
                assert(parent_linked(before, k));
                assert(sections@[k].parent_index == before[k].parent_index);
            }
            assert forall|k: int| 0 <= k < n implies child_indices(
                (#[trigger] sections@[k]).children_indices@,
            ) == children_upto(lv, k, c + 1) by {
                assert(child_indices(before[k].children_indices@) == children_upto(
                    lv,
                    k,
                    c as int,
                ));
                if before[c as int].parent_index == Some(k as usize) {
                } else {
                    assert(sections@[k].children_indices == before[k].children_indices);
                }
            }
        }
        c += 1;
    }
}

/// The chain of sections from section `i` upwards, as the sections name
/// their parents: `i` itself, its parent, the parent of that, and so on up
/// to a section without parent. The chain ends early at an index that is
/// not in the list, and after `steps` sections at the latest.
pub open spec fn chain(sections: Seq<Section>, i: int, steps: nat) -> Seq<int>
    decreases steps,
{
    if steps == 0 || i < 0 || i >= sections.len() {
        Seq::empty()
    } else {
        seq![i] + match sections[i].parent_index {
            Some(p) => chain(sections, p as int, (steps - 1) as nat),
            None => Seq::empty(),
        }
    }
}

/// The chain from section `i` upwards, no longer than the list.
pub open spec fn ancestors_of(sections: Seq<Section>, i: int) -> Seq<int> {
    chain(sections, i, sections.len())
}

/// A chain holds indices of the list only, and in a linked list it goes
/// strictly upwards: each section of it stands before the one it follows.
pub proof fn lemma_chain(sections: Seq<Section>, i: int, steps: nat)
    ensures
        chain(sections, i, steps).len() <= steps,
        forall|k: int|
            0 <= k < chain(sections, i, steps).len() ==> 0 <= #[trigger] chain(
                sections,
                i,
                steps,
            )[k] < sections.len(),
        chain(sections, i, steps).len() > 0 ==> chain(sections, i, steps)[0] == i,
        linked(sections) ==> forall|j: int, k: int|
            0 <= j < k < chain(sections, i, steps).len() ==> chain(sections, i, steps)[k]
                < chain(sections, i, steps)[j],
    decreases steps,
{
    if steps > 0 && 0 <= i < sections.len() {
        match sections[i].parent_index {
            Some(p) => {
                let rest = chain(sections, p as int, (steps - 1) as nat);
                lemma_chain(sections, p as int, (steps - 1) as nat);
                let all = chain(sections, i, steps);
                assert(all =~= seq![i] + rest);
                if linked(sections) {
                    lemma_linked(sections, i);
                    assert forall|j: int, k: int| 0 <= j < k < all.len() implies all[k]
                        < all[j] by {
                        assert(all[k] == rest[k - 1]);
                        if j == 0 {
                            assert(rest[0] == p);
                            if k > 1 {
                                assert(rest[k - 1] < rest[0]);
                            }
                        } else {
                            assert(all[j] == rest[j - 1]);
                        }
                    }
                }
            },
            None => {
                assert(chain(sections, i, steps) =~= seq![i]);
            },
        }
    }
}

/// The sections from section `i` upwards to the top of the hierarchy, as
/// the sections name their parents: `i` first, the outermost last.
pub fn ancestors(sections: &Vec<Section>, i: usize) -> (r: Vec<usize>)
    ensures
        r@.len() == ancestors_of(sections@, i as int).len(),
        forall|k: int|
            0 <= k < r@.len() ==> (#[trigger] r@[k]) as int == ancestors_of(
                sections@,
                i as int,
            )[k],
{
    let ghost whole = ancestors_of(sections@, i as int);
    let mut r: Vec<usize> = Vec::new();
    let mut current: Option<usize> = Some(i);
    let mut steps: usize = sections.len();
    while steps > 0 && current.is_some() && current.unwrap() < sections.len()
        invariant
            steps <= sections.len(),
            whole == Seq::new(r@.len(), |k: int| r@[k] as int) + match current {
                Some(c) => chain(sections@, c as int, steps as nat),
                None => Seq::empty(),
            },
        decreases steps,
    {
        let c = current.unwrap();
        let ghost before = Seq::new(r@.len(), |k: int| r@[k] as int);
        r.push(c);
        current = sections[c].parent_index;
        steps -= 1;
        proof {
            let now = Seq::new(r@.len(), |k: int| r@[k] as int);
            assert(now =~= before + seq![c as int]);
            let rest = match current {
                Some(p) => chain(sections@, p as int, steps as nat),
                None => Seq::empty(),
            };
            assert(before + (seq![c as int] + rest) =~= now + rest);
        }
    }
    proof {
        let now = Seq::new(r@.len(), |k: int| r@[k] as int);
        let rest = match current {
            Some(c) => chain(sections@, c as int, steps as nat),
            None => Seq::empty(),
        };
        assert(rest =~= Seq::<int>::empty());
        assert(whole =~= now);
    }
    r
}

} // verus!
