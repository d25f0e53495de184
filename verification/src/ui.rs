//! What the list view needs to know to draw the tree: for each node whether
//! it is the last at its level, and the box-drawing prefix in front of it.

use crate::app_state::FileMode;
use crate::hierarchy::scan_forward;
use crate::section::TreeNode;
use vstd::prelude::*;
use vstd::string::*;

verus! {

/// The guide in column `i` of a prefix: a vertical line where the ancestor
/// at that depth still has siblings to come, blank otherwise.
pub open spec fn guide(i: int, parent_states: Seq<bool>) -> Seq<char> {
    if 0 <= i < parent_states.len() && parent_states[i] {
        "│   "@
    } else {
        "    "@
    }
}

/// The guides of the first `n` columns, left to right.
pub open spec fn guides(n: nat, parent_states: Seq<bool>) -> Seq<char>
    decreases n,
{
    if n == 0 {
        Seq::empty()
    } else {
        guides((n - 1) as nat, parent_states) + guide(n - 1, parent_states)
    }
}

/// The branch in front of a node: a corner for the last node at its level,
/// a tee for the others.
pub open spec fn branch(is_last: bool) -> Seq<char> {
    if is_last {
        "└── "@
    } else {
        "├── "@
    }
}

/// The prefix of a node at depth `level`: nothing at depth 0, else one
/// guide for each depth above its parent's and then its branch.
pub open spec fn tree_prefix(level: nat, is_last: bool, parent_states: Seq<bool>) -> Seq<char> {
    if level == 0 {
        Seq::empty()
    } else {
        guides((level - 1) as nat, parent_states) + branch(is_last)
    }
}

/// Generate box-drawing prefix for tree structure.
pub fn get_tree_prefix(level: usize, is_last: bool, parent_states: &[bool]) -> (r: String)
    ensures
        r@ == tree_prefix(level as nat, is_last, parent_states@),
{
    if level == 0 {
        return String::new();
    }
    let mut prefix = String::new();
    let mut i: usize = 0;
    while i < level - 1
        invariant
            level > 0,
            i <= level - 1,
            prefix@ == guides(i as nat, parent_states@),
        decreases level - 1 - i,
    {
        if i < parent_states.len() && parent_states[i] {
            prefix.append("│   ");
        } else {
            prefix.append("    ");
        }
        i += 1;
    }
    if is_last {
        prefix.append("└── ");
    } else {
        prefix.append("├── ");
    }
    prefix
}

/// The depths of the rows, in order.
pub open spec fn tree_levels(nodes: Seq<TreeNode>) -> Seq<nat> {
    Seq::new(nodes.len(), |i: int| nodes[i].tree_level as nat)
}

/// Whether row `i` is the last at its depth: no row at the same depth
/// follows it before a row at a lesser depth.
pub open spec fn is_last_at_level(nodes: Seq<TreeNode>, i: int) -> bool {
    scan_forward(tree_levels(nodes), nodes[i].tree_level as nat, i + 1) is None
}

/// The parent states cut down or filled up with `false` to `n` entries.
pub open spec fn resized(states: Seq<bool>, n: nat) -> Seq<bool> {
    Seq::new(
        n,
        |i: int|
            if i < states.len() {
                states[i]
            } else {
                false
            },
    )
}

/// The parent states after a row at depth `level` was met: one entry for
/// each depth above the row, the last of them telling whether rows at the
/// row's own depth are still to come.
pub open spec fn states_after_row(states: Seq<bool>, level: nat, is_last: bool) -> Seq<bool> {
    if level == 0 {
        Seq::empty()
    } else {
        resized(states, level).update(level - 1, !is_last)
    }
}

/// The parent states after the first `n` rows were met, starting from
/// none.
pub open spec fn states_after(nodes: Seq<TreeNode>, n: nat) -> Seq<bool>
    decreases n,
{
    if n == 0 {
        Seq::empty()
    } else {
        states_after_row(
            states_after(nodes, (n - 1) as nat),
            nodes[n - 1].tree_level as nat,
            is_last_at_level(nodes, n - 1),
        )
    }
}

/// The prefix of row `i` of the list view: box-drawing guides where
/// several files show, nothing where a single file shows.
pub open spec fn row_prefix(nodes: Seq<TreeNode>, mode: FileMode, i: int) -> Seq<char> {
    if mode == FileMode::Multi {
        tree_prefix(
            nodes[i].tree_level as nat,
            is_last_at_level(nodes, i),
            states_after(nodes, (i + 1) as nat),
        )
    } else {
        Seq::empty()
    }
}

/// For each row whether it is the last at its depth.
pub fn last_at_level_flags(nodes: &Vec<TreeNode>) -> (flags: Vec<bool>)
    ensures
        flags@.len() == nodes@.len(),
        forall|i: int| 0 <= i < nodes@.len() ==> flags@[i] == is_last_at_level(nodes@, i),
{
    let mut flags: Vec<bool> = Vec::new();
    let mut i: usize = 0;
    while i < nodes.len()
        invariant
            i <= nodes.len(),
            flags@.len() == i,
            forall|k: int| 0 <= k < i ==> flags@[k] == is_last_at_level(nodes@, k),
        decreases nodes.len() - i,
    {
        let level = nodes[i].tree_level;
        let mut found_next = false;
        let mut j: usize = i + 1;
        while j < nodes.len()
            invariant_except_break
                !found_next,
                scan_forward(tree_levels(nodes@), level as nat, j as int) is None
                    <==> is_last_at_level(nodes@, i as int),
            invariant
                i < j <= nodes.len(),
                level == nodes@[i as int].tree_level,
            ensures
                found_next <==> !is_last_at_level(nodes@, i as int),
            decreases nodes.len() - j,
        {
            assert(tree_levels(nodes@)[j as int] == nodes@[j as int].tree_level);
            if nodes[j].tree_level < level {
                break ;
            }
            if nodes[j].tree_level == level {
                found_next = true;
                break ;
            }
            j += 1;
        }
        flags.push(!found_next);
        i += 1;
    }
    flags
}

/// Brings the parent states up to date for a row at depth `level`.
pub fn update_parent_states(states: &mut Vec<bool>, level: usize, is_last: bool)
    ensures
        final(states)@ == states_after_row(old(states)@, level as nat, is_last),
{
    let ghost before = states@;
    while states.len() > level
        invariant
            states@.len() >= level ==> states@ == before.take(states@.len() as int),
            states@.len() <= before.len(),
            states@.len() < level ==> states@ == before,
        decreases states.len(),
    {
        states.pop();
        assert(states@ =~= before.take(states@.len() as int));
    }
    assert(states@ =~= resized(before, states@.len()));
    while states.len() < level
        invariant
            states@.len() <= level,
            states@.len() < level ==> states@.len() >= before.len(),
            states@ == resized(before, states@.len()),
        decreases level - states.len(),
    {
        let ghost now = states@;
        states.push(false);
        assert(states@ =~= resized(before, states@.len()));
    }
    assert(states@ =~= resized(before, level as nat));
    if level > 0 {
        states.set(level - 1, !is_last);
    }
    assert(states@ =~= states_after_row(before, level as nat, is_last));
}

/// The prefixes of all rows of the list view, in order.
pub fn tree_prefixes(nodes: &Vec<TreeNode>, mode: FileMode) -> (prefixes: Vec<String>)
    ensures
        prefixes@.len() == nodes@.len(),
        forall|i: int|
            0 <= i < nodes@.len() ==> (#[trigger] prefixes@[i])@ == row_prefix(nodes@, mode, i),
{
    let flags = last_at_level_flags(nodes);
    let mut states: Vec<bool> = Vec::new();
    let mut prefixes: Vec<String> = Vec::new();
    let mut i: usize = 0;
    while i < nodes.len()
        invariant
            i <= nodes.len(),
            flags@.len() == nodes@.len(),
            forall|k: int| 0 <= k < nodes@.len() ==> flags@[k] == is_last_at_level(nodes@, k),
            prefixes@.len() == i,
            states@ == states_after(nodes@, i as nat),
            forall|k: int|
                0 <= k < i ==> (#[trigger] prefixes@[k])@ == row_prefix(nodes@, mode, k),
        decreases nodes.len() - i,
    {
        update_parent_states(&mut states, nodes[i].tree_level, flags[i]);
        let prefix = match mode {
            FileMode::Multi => get_tree_prefix(nodes[i].tree_level, flags[i], states.as_slice()),
            FileMode::Single => String::new(),
        };
        prefixes.push(prefix);
        i += 1;
    }
    prefixes
}

} // verus!
