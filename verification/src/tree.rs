//! The display tree: the rows that the list view shows for a set of files
//! and their sections.

use crate::section::{
    file_node, node_views, section_node, section_views, Section, SectionView, TreeNode,
    TreeNodeView,
};
use crate::search::{first_index, lemma_first_index, lemma_first_index_found};
use crate::text::{str_eq, views};
use std::path::{Path, PathBuf};
use vstd::prelude::*;

verus! {

/// The paths in the order in which the standard library sorts them as
/// `PathBuf` values: component by component, as the platform splits a path
/// into components.
pub uninterp spec fn path_sorted(files: Seq<Seq<char>>) -> Seq<Seq<char>>;

/// The final component of a path (`std::path::Path::file_name`), if it has
/// one, as the platform splits a path into components.
pub uninterp spec fn path_file_name(path: Seq<char>) -> Option<Seq<char>>;

/// Sorts the paths with `sort` of the standard library, each taken as a
/// `PathBuf`. The result holds the same paths, each as often as the input
/// holds it, in path order.
#[verifier::external_body]
pub(crate) fn sorted_paths(files: &Vec<String>) -> (r: Vec<String>)
    ensures
        views(r@) == path_sorted(views(files@)),
        views(r@).to_multiset() == views(files@).to_multiset(),
{
    let mut paths: Vec<PathBuf> = files.iter().map(PathBuf::from).collect();
    paths.sort();
    paths.iter().map(|p| p.to_string_lossy().to_string()).collect()
}

/// Calls `std::path::Path::file_name`: the last component of the path, or
/// nothing where the path ends in `..` or is a root.
#[verifier::external_body]
pub(crate) fn file_name_of(path: &str) -> (r: Option<String>)
    ensures
        r is Some <==> path_file_name(path@) is Some,
        r matches Some(name) ==> path_file_name(path@) == Some(name@),
{
    Path::new(path).file_name().map(|n| n.to_string_lossy().to_string())
}

/// The name under which a file shows in the tree: its last component, or
/// the whole path where it has none.
pub open spec fn file_label(path: Seq<char>) -> Seq<char> {
    match path_file_name(path) {
        Some(name) => name,
        None => path,
    }
}

/// Whether every section has a level of at least 1.
pub open spec fn levels_valid(sections: Seq<Section>) -> bool {
    forall|i: int| 0 <= i < sections.len() ==> (#[trigger] sections[i]).level >= 1
}

/// Whether every row that stands for a section names an index below
/// `count`, the number of sections.
pub open spec fn nodes_valid(nodes: Seq<TreeNode>, count: nat) -> bool {
    forall|k: int|
        0 <= k < nodes.len() ==> ((#[trigger] nodes[k]).section_index matches Some(i) ==> i
            < count)
}

/// The tree for a single file: one row per section, as deep as its
/// heading level says, a top-level heading at depth 0.
pub open spec fn single_tree(sections: Seq<SectionView>) -> Seq<TreeNodeView> {
    Seq::new(
        sections.len(),
        |i: int| section_node(sections[i], (sections[i].level - 1) as nat, i as nat),
    )
}

/// The rows of the sections that belong to the file `path`, in list
/// order, each one level below the file's row.
pub open spec fn file_sections(sections: Seq<SectionView>, path: Seq<char>) -> Seq<TreeNodeView>
    decreases sections.len(),
{
    if sections.len() == 0 {
        Seq::empty()
    } else {
        let rest = file_sections(sections.drop_last(), path);
        if sections.last().file_path == path {
            rest.push(
                section_node(sections.last(), sections.last().level, (sections.len() - 1) as nat),
            )
        } else {
            rest
        }
    }
}

/// The tree for several files: for each file in turn a row for the file at
/// depth 0, followed by the rows of its sections.
pub open spec fn multi_tree(files: Seq<Seq<char>>, sections: Seq<SectionView>) -> Seq<
    TreeNodeView,
>
    decreases files.len(),
{
    if files.len() == 0 {
        Seq::empty()
    } else {
        multi_tree(files.drop_last(), sections) + seq![
            file_node(file_label(files.last()), files.last(), 0),
        ] + file_sections(sections, files.last())
    }
}

/// The display tree of a set of files and their sections: with exactly one
/// file the sections alone, otherwise the files in path order, each
/// followed by its sections.
pub open spec fn tree_of(files: Seq<Seq<char>>, sections: Seq<SectionView>) -> Seq<TreeNodeView> {
    if files.len() == 1 {
        single_tree(sections)
    } else {
        multi_tree(path_sorted(files), sections)
    }
}

/// Whether the order in which the files show holds the files themselves:
/// with several files, the sorted paths are the given paths in another
/// order. A single file shows without being sorted.
pub open spec fn order_keeps_files(files: Seq<Seq<char>>) -> bool {
    files.len() == 1 || path_sorted(files).to_multiset() == files.to_multiset()
}

/// Whether the sections of the file of section `i` show in the tree: a
/// single file shows whatever its sections name as their file; of several
/// files those show that are among the files.
pub open spec fn file_shows(files: Seq<Seq<char>>, sections: Seq<SectionView>, i: int) -> bool {
    files.len() == 1 || files.contains(sections[i].file_path)
}

/// The condition that a row stands for section `section`.
pub open spec fn stands_for(section: nat) -> spec_fn(TreeNodeView) -> bool {
    |row: TreeNodeView| row.section_index == Some(section)
}

/// The position of the first row that stands for section `section`.
pub open spec fn node_of(nodes: Seq<TreeNodeView>, section: nat) -> Option<int> {
    first_index(nodes, stands_for(section))
}

/// In the tree of a single file, the row of a section stands at the
/// section's own index.
pub proof fn lemma_single_tree_rows(sections: Seq<SectionView>, i: int)
    requires
        0 <= i < sections.len(),
    ensures
        node_of(single_tree(sections), i as nat) == Some(i),
{
    let nodes = single_tree(sections);
    lemma_first_index(nodes, stands_for(i as nat));
    assert(nodes[i].section_index == Some(i as nat));
    match node_of(nodes, i as nat) {
        Some(k) => {
            assert(nodes[k].section_index == Some(k as nat));
        },
        None => {},
    }
}

/// Among the rows of the sections of a file stands a row for each section
/// that belongs to the file.
pub proof fn lemma_file_sections_row(sections: Seq<SectionView>, path: Seq<char>, i: int)
    requires
        0 <= i < sections.len(),
        sections[i].file_path == path,
    ensures
        exists|k: int|
            0 <= k < file_sections(sections, path).len() && (#[trigger] file_sections(
                sections,
                path,
            )[k]).section_index == Some(i as nat),
    decreases sections.len(),
{
    let rows = file_sections(sections, path);
    if i == sections.len() - 1 {
        assert(rows[rows.len() - 1].section_index == Some(i as nat));
    } else {
        let front = sections.drop_last();
        assert(front[i] == sections[i]);
        lemma_file_sections_row(front, path, i);
        let k = choose|k: int|
            0 <= k < file_sections(front, path).len() && (#[trigger] file_sections(
                front,
                path,
            )[k]).section_index == Some(i as nat);
        assert(rows[k] == file_sections(front, path)[k]);
    }
}

/// In the tree of several files stands a row for each section whose file
/// is among the files.
pub proof fn lemma_multi_tree_row(files: Seq<Seq<char>>, sections: Seq<SectionView>, i: int)
    requires
        0 <= i < sections.len(),
        files.contains(sections[i].file_path),
    ensures
        exists|k: int|
            0 <= k < multi_tree(files, sections).len() && (#[trigger] multi_tree(
                files,
                sections,
            )[k]).section_index == Some(i as nat),
    decreases files.len(),
{
    let path = sections[i].file_path;
    let rows = multi_tree(files, sections);
    let front = multi_tree(files.drop_last(), sections);
    if files.last() == path {
        lemma_file_sections_row(sections, path, i);
        let k = choose|k: int|
            0 <= k < file_sections(sections, path).len() && (#[trigger] file_sections(
                sections,
                path,
            )[k]).section_index == Some(i as nat);
        assert(rows[front.len() + 1 + k] == file_sections(sections, path)[k]);
    } else {
        let w = choose|w: int| 0 <= w < files.len() && files[w] == path;
        assert(files.drop_last()[w] == path);
        lemma_multi_tree_row(files.drop_last(), sections, i);
        let k = choose|k: int|
            0 <= k < front.len() && (#[trigger] front[k]).section_index == Some(i as nat);
        assert(rows[k] == front[k]);
    }
}

/// A section whose file shows has a row in the tree, and `node_of` finds
/// it.
pub proof fn lemma_section_has_row(files: Seq<Seq<char>>, sections: Seq<SectionView>, i: int)
    requires
        order_keeps_files(files),
        0 <= i < sections.len(),
        file_shows(files, sections, i),
    ensures
        node_of(tree_of(files, sections), i as nat) is Some,
{
    let rows = tree_of(files, sections);
    lemma_first_index(rows, stands_for(i as nat));
    if files.len() == 1 {
        assert(rows[i].section_index == Some(i as nat));
    } else {
        files.to_multiset_ensures();
        path_sorted(files).to_multiset_ensures();
        let path = sections[i].file_path;
        assert(files.to_multiset().count(path) > 0);
        assert(path_sorted(files).to_multiset().count(path) > 0);
        assert(path_sorted(files).contains(path));
        lemma_multi_tree_row(path_sorted(files), sections, i);
    }
}

/// The position of the first row that stands for the section at
/// `section_index`.
pub fn find_node(nodes: &Vec<TreeNode>, section_index: usize) -> (r: Option<usize>)
    ensures
        match r {
            Some(k) => node_of(node_views(nodes@), section_index as nat) == Some(k as int) && k
                < nodes.len(),
            None => node_of(node_views(nodes@), section_index as nat) is None,
        },
{
    let ghost all = node_views(nodes@);
    let mut k: usize = 0;
    while k < nodes.len()
        invariant
            k <= nodes.len(),
            all == node_views(nodes@),
            node_of(all.take(k as int), section_index as nat) is None,
        decreases nodes.len() - k,
    {
        proof {
            assert(all.take(k + 1).drop_last() =~= all.take(k as int));
            assert(all.take(k + 1).last() == nodes@[k as int]@);
        }
        match nodes[k].section_index {
            Some(i) => {
                if i == section_index {
                    proof {
                        assert(all[k as int].section_index == Some(section_index as nat));
                        lemma_first_index_found(all, k + 1, stands_for(section_index as nat));
                    }
                    return Some(k);
                }
            },
            None => {},
        }
        k += 1;
    }
    assert(all.take(nodes.len() as int) =~= all);
    None
}

/// Build the unified tree structure from files and sections.
pub fn build_tree(files: &Vec<String>, sections: &Vec<Section>) -> (nodes: Vec<TreeNode>)
    requires
        levels_valid(sections@),
    ensures
        node_views(nodes@) == tree_of(views(files@), section_views(sections@)),
        order_keeps_files(views(files@)),
        nodes_valid(nodes@, sections@.len()),
{
    let ghost secs = section_views(sections@);
    let mut nodes: Vec<TreeNode> = Vec::new();
    if files.len() == 1 {
        let mut i: usize = 0;
        while i < sections.len()
            invariant
                i <= sections.len(),
                levels_valid(sections@),
                secs == section_views(sections@),
                node_views(nodes@) == single_tree(secs).take(i as int),
                nodes_valid(nodes@, sections@.len()),
            decreases sections.len() - i,
        {
            let section = sections[i].clone();
            assert(sections@[i as int].level >= 1);
            let level = sections[i].level - 1;
            let ghost before = node_views(nodes@);
            let node = TreeNode::section(section, level, i);
            nodes.push(node);
            proof {
                assert(secs[i as int] == sections@[i as int]@);
                assert(node_views(nodes@) =~= before.push(node@));
                assert(single_tree(secs).take(i + 1) =~= single_tree(secs).take(i as int).push(
                    single_tree(secs)[i as int],
                ));
            }
            i += 1;
        }
        assert(single_tree(secs).take(sections.len() as int) =~= single_tree(secs));
    } else {
        let sorted = sorted_paths(files);
        let ghost paths = views(sorted@);
        let mut k: usize = 0;
        while k < sorted.len()
            invariant
                k <= sorted.len(),
                secs == section_views(sections@),
                paths == views(sorted@),
                node_views(nodes@) == multi_tree(paths.take(k as int), secs),
                nodes_valid(nodes@, sections@.len()),
            decreases sorted.len() - k,
        {
            proof {
                assert(paths.take(k + 1).drop_last() =~= paths.take(k as int));
                assert(paths.take(k + 1).last() == sorted@[k as int]@);
            }
            let path = &sorted[k];
            let name = match file_name_of(path.as_str()) {
                Some(name) => name,
                None => path.clone(),
            };
            nodes.push(TreeNode::file(name, path.clone(), 0));
            let ghost head = node_views(nodes@);
            assert(head =~= multi_tree(paths.take(k as int), secs) + seq![
                file_node(file_label(path@), path@, 0),
            ]);
            let mut i: usize = 0;
            while i < sections.len()
                invariant
                    i <= sections.len(),
                    secs == section_views(sections@),
                    node_views(nodes@) == head + file_sections(secs.take(i as int), path@),
                    nodes_valid(nodes@, sections@.len()),
                decreases sections.len() - i,
            {
                proof {
                    assert(secs.take(i + 1).drop_last() =~= secs.take(i as int));
                    assert(secs.take(i + 1).last() == sections@[i as int]@);
                }
                if str_eq(sections[i].file_path.as_str(), path.as_str()) {
                    let section = sections[i].clone();
                    let ghost before = node_views(nodes@);
                    let node = TreeNode::section(section, sections[i].level, i);
                    nodes.push(node);
                    proof {
                        assert(secs[i as int] == sections@[i as int]@);
                        assert(node_views(nodes@) =~= before.push(node@));
                        assert(before.push(node@) =~= head + file_sections(
                            secs.take(i as int),
                            path@,
                        ).push(node@));
                    }
                }
                i += 1;
            }
            assert(secs.take(sections.len() as int) =~= secs);
            k += 1;
        }
        assert(paths.take(sorted.len() as int) =~= paths);
    }
    nodes
}

/// The first row at or behind `from` on which the selection can rest.
pub open spec fn first_navigable(nodes: Seq<TreeNode>, from: int) -> Option<int>
    decreases nodes.len() - from,
{
    if from < 0 || from >= nodes.len() {
        None
    } else if nodes[from].navigable {
        Some(from)
    } else {
        first_navigable(nodes, from + 1)
    }
}

/// The last row at or before `from` on which the selection can rest.
pub open spec fn last_navigable(nodes: Seq<TreeNode>, from: int) -> Option<int>
    decreases from + 1,
{
    if from < 0 || from >= nodes.len() {
        None
    } else if nodes[from].navigable {
        Some(from)
    } else {
        last_navigable(nodes, from - 1)
    }
}

/// The first navigable row at or behind `from`.
pub fn find_navigable_from(nodes: &Vec<TreeNode>, from: usize) -> (r: Option<usize>)
    ensures
        match r {
            Some(k) => first_navigable(nodes@, from as int) == Some(k as int) && k < nodes.len(),
            None => first_navigable(nodes@, from as int) is None,
        },
{
    let mut k: usize = from;
    while k < nodes.len()
        invariant
            from <= k,
            first_navigable(nodes@, k as int) == first_navigable(nodes@, from as int),
        decreases nodes.len() - k,
    {
        if nodes[k].navigable {
            return Some(k);
        }
        k += 1;
    }
    None
}

/// The last navigable row before `end`.
pub fn find_navigable_before(nodes: &Vec<TreeNode>, end: usize) -> (r: Option<usize>)
    requires
        end <= nodes.len(),
    ensures
        match r {
            Some(k) => last_navigable(nodes@, end - 1) == Some(k as int) && k < end,
            None => last_navigable(nodes@, end - 1) is None,
        },
{
    let mut k: usize = end;
    while k > 0
        invariant
            k <= end <= nodes.len(),
            last_navigable(nodes@, k - 1) == last_navigable(nodes@, end - 1),
        decreases k,
    {
        k -= 1;
        if nodes[k].navigable {
            return Some(k);
        }
    }
    None
}

} // verus!
