//! The session: the live list of sections, the selection, the edit buffer,
//! the offset tracker and the reorder protocol.
//!
//! A session never touches a file. Where an operation needs the text of a
//! file or the sections that a parser finds in one, the caller reads or
//! parses and hands the result in; where an operation decides that
//! something must be written, it hands out what to write.

use crate::edit_plan::{Edit, EditPlan, EditView};
use crate::editor::{
    editor_in_normal_mode, editor_lines, editor_rows, editor_with_text, text_rows,
};
use crate::hierarchy::{
    first_at_level, first_at_level_of, last_at_level, last_at_level_of, levels, next_deeper,
    next_deeper_of, next_sibling, next_sibling_of, prev_sibling, prev_sibling_of,
};
use crate::offsets::{recorded, OffsetTracker};
use crate::patch::{added_lines, net_lines};
use crate::search::lemma_first_index;
use crate::rewrite::{heading, lemma_rewritten_front, rewritten, section_block};
use crate::section::{node_views, section_views, Section, SectionView, TreeNode};
use crate::text::{
    contains_text, join, join_lines, lines_of, lossy_text, newline_seq, pad, padded, repeat_char,
    str_eq, text_lines, trim, trimmed, utf8_lossy, views,
};
use crate::tree::{
    build_tree, file_shows, find_navigable_before, find_navigable_from, find_node,
    first_navigable, last_navigable, lemma_section_has_row, levels_valid, node_of,
    nodes_valid, order_keeps_files, stands_for, tree_of,
};
use edtui::EditorState;
use vstd::prelude::*;
use vstd::slice::slice_subrange;
use vstd::string::*;
use vstd::view::View as _;

verus! {

/// Determines navigation scope and quit behavior based on project size.
#[derive(Clone, Copy, Debug, PartialEq, Eq, Structural)]
pub enum FileMode {
    /// Single-file mode quits directly to shell.
    Single,
    /// Multi-file mode shows file tree in list view.
    Multi,
}

/// Tracks the lifecycle of a section reordering operation.
#[derive(Clone, Copy, Debug, PartialEq, Eq, Structural)]
pub enum MoveState {
    /// No section is being moved; normal navigation mode.
    Idle,
    /// A section has been selected for moving but no changes made yet.
    Selected,
    /// Section has been repositioned but changes not yet persisted to disk.
    Moved,
}

/// Determines which UI screen renders and how input is interpreted.
#[derive(Clone, Copy, Debug, PartialEq, Eq, Structural)]
pub enum View {
    /// Shows hierarchical section tree with navigation.
    List,
    /// Provides vim-like editor for section content.
    Detail,
    /// Captures vim-style command input after ':' keystroke.
    Command,
}

/// Bridges document sections and the interactive editor, maintaining
/// session state.
pub struct AppState {
    /// All parsed sections across loaded files.
    pub sections: Vec<Section>,
    /// Unified tree of directories, files, and sections for display.
    pub tree_nodes: Vec<TreeNode>,
    /// File paths available for editing.
    pub files: Vec<String>,
    /// Controls navigation behavior and file tree visibility.
    pub file_mode: FileMode,
    /// Active UI screen determining input handling.
    pub current_view: View,
    /// Selected node index in the tree.
    pub current_node_index: usize,
    /// Editor buffer content when detail view is active.
    pub editor_state: Option<EditorState>,
    /// Accumulates vim-style command input after ':' is pressed.
    pub command_buffer: String,
    /// Status feedback displayed in the help bar.
    pub message: Option<String>,
    /// Maximum line width for text wrapping in the editor.
    pub wrap_width: usize,
    /// Tracks line count changes per section to calculate write positions
    /// without re-parsing.
    pub file_offsets: OffsetTracker,
    /// Tracks section being moved for visual feedback.
    pub move_state: MoveState,
    /// Index of section being moved (if any).
    pub moving_section_index: Option<usize>,
}

/// The section that the row at `current` stands for, if it is a section
/// row.
pub open spec fn section_at(nodes: Seq<TreeNode>, current: int) -> Option<usize> {
    if 0 <= current < nodes.len() {
        nodes[current].section_index
    } else {
        None
    }
}

/// The row on which the selection comes to rest when it follows its
/// section into a new tree: the first row of the section that the row at
/// `current` stands for, or `current` itself where there is none.
pub open spec fn resettled(nodes: Seq<TreeNode>, current: int) -> int {
    match section_at(nodes, current) {
        Some(i) => match node_of(node_views(nodes), i as nat) {
            Some(k) => k,
            None => current,
        },
        None => current,
    }
}

/// The row of section `section` in the tree, or `fallback` where it has
/// none.
pub open spec fn row_or(nodes: Seq<TreeNode>, section: int, fallback: int) -> int {
    match node_of(node_views(nodes), section as nat) {
        Some(k) => k,
        None => fallback,
    }
}

/// The row that a query names when it has found section `found`.
pub open spec fn row_of_found(nodes: Seq<TreeNode>, found: Option<int>) -> Option<int> {
    match found {
        Some(j) => node_of(node_views(nodes), j as nat),
        None => None,
    }
}

/// Whether `r` names the row `row`.
pub open spec fn names_row(r: Option<usize>, row: Option<int>) -> bool {
    match r {
        Some(k) => row == Some(k as int),
        None => row is None,
    }
}

/// The bytes of a section's content within a file of `len` bytes, both
/// ends cut off at the end of the file: a range that starts behind its end
/// holds nothing.
pub open spec fn clamped_range(len: int, start: int, end: int) -> (int, int) {
    let a = if start < len {
        start
    } else {
        len
    };
    let b = if end < len {
        end
    } else {
        len
    };
    if a <= b {
        (a, b)
    } else {
        (a, a)
    }
}

/// The text of a section as the detail view reads it from the bytes of its
/// file.
pub open spec fn clamped_text(bytes: Seq<u8>, start: int, end: int) -> Seq<char> {
    let (a, b) = clamped_range(bytes.len() as int, start, end);
    utf8_lossy(bytes.subrange(a, b))
}

/// What the editor is loaded with for a section: the trimmed text between
/// two line feeds, or a single line feed where the section holds nothing
/// but whitespace.
pub open spec fn detail_text(bytes: Seq<u8>, start: int, end: int) -> Seq<char> {
    let body = trim(clamped_text(bytes, start, end));
    if body.len() == 0 {
        newline_seq()
    } else {
        newline_seq() + body + newline_seq()
    }
}

/// The text that a save hands to the patch engine for the lines of the
/// editor: the lines joined, trimmed, with one line feed before and one
/// after.
pub open spec fn saved_text(rows: Seq<Seq<char>>) -> Seq<char> {
    padded(join(rows, newline_seq()))
}

/// The edit that replaces the content of `section` with the rows of the
/// editor.
pub open spec fn save_edit(section: SectionView, rows: Seq<Seq<char>>) -> EditView {
    EditView {
        file_name: section.file_path,
        line_start: section.line_start,
        line_end: section.line_end,
        column_start: section.column_start,
        column_end: section.column_end,
        doc_comment: saved_text(rows),
        item_name: section.title,
    }
}

/// The edit that carries the buffered lines of `section`.
pub open spec fn pending_edit(section: SectionView) -> EditView {
    EditView {
        file_name: section.file_path,
        line_start: section.line_start,
        line_end: section.line_end,
        column_start: section.column_start,
        column_end: section.column_end,
        doc_comment: join(section.doc_comment->0, newline_seq()),
        item_name: section.title,
    }
}

/// One edit for each section that has buffered lines, in list order.
pub open spec fn pending_edits(sections: Seq<SectionView>) -> Seq<EditView>
    decreases sections.len(),
{
    if sections.len() == 0 {
        Seq::empty()
    } else {
        let rest = pending_edits(sections.drop_last());
        if sections.last().doc_comment is Some {
            rest.push(pending_edit(sections.last()))
        } else {
            rest
        }
    }
}

/// The sections that do not belong to the file `path`, in list order.
pub open spec fn without_file(sections: Seq<Section>, path: Seq<char>) -> Seq<Section>
    decreases sections.len(),
{
    if sections.len() == 0 {
        Seq::empty()
    } else {
        let rest = without_file(sections.drop_last(), path);
        if sections.last().file_path@ == path {
            rest
        } else {
            rest.push(sections.last())
        }
    }
}

/// The position of the first section with the given title and level.
pub open spec fn first_match(sections: Seq<Section>, title: Seq<char>, level: nat, from: int)
    -> Option<int>
    decreases sections.len() - from,
{
    if from < 0 || from >= sections.len() {
        None
    } else if sections[from].title@ == title && sections[from].level == level {
        Some(from)
    } else {
        first_match(sections, title, level, from + 1)
    }
}

/// The list with the entries at `i` and `j` exchanged.
pub open spec fn swapped(sections: Seq<Section>, i: int, j: int) -> Seq<Section> {
    sections.update(i, sections[j]).update(j, sections[i])
}

/// The list with the entry at `i` taken out and put first.
pub open spec fn moved_to_top(sections: Seq<Section>, i: int) -> Seq<Section> {
    seq![sections[i]] + sections.remove(i)
}

/// The list with the entry at `i` taken out and put last.
pub open spec fn moved_to_bottom(sections: Seq<Section>, i: int) -> Seq<Section> {
    sections.remove(i).push(sections[i])
}

/// The list with the level of the entry at `i` set to `level`.
pub open spec fn with_level(sections: Seq<Section>, i: int, level: usize) -> Seq<Section> {
    sections.update(i, Section { level, ..sections[i] })
}

/// Whether `after` differs from `before` at most in the order and levels
/// of its sections, the rows made from them, the selection and the state
/// of the move.
pub open spec fn only_reordered(before: AppState, after: AppState) -> bool {
    after == (AppState {
        sections: after.sections,
        tree_nodes: after.tree_nodes,
        current_node_index: after.current_node_index,
        move_state: after.move_state,
        moving_section_index: after.moving_section_index,
        ..before
    })
}

/// Where the selection rests after the section that is being moved has
/// come to index `target` and the rows were rebuilt: on the row of that
/// section, or, where it has no row, where it was resettled. A section
/// that shows has a row, so the selection rests on it.
pub open spec fn follows(after: AppState, before: AppState, target: int) -> bool {
    &&& after.current_node_index == row_or(
        after.tree_nodes@,
        target,
        resettled(after.tree_nodes@, before.current_node_index as int),
    )
    &&& after.shows(target) ==> after.current_section() == Some(target as usize)
}

/// What a save has decided to write, and how to find the saved section
/// again among the sections that a parser then finds in the file.
pub struct SaveRequest {
    /// The single edit that replaces the section's content.
    pub plan: EditPlan,
    /// The file that holds the section.
    pub file_path: String,
    /// The title of the section.
    pub title: String,
    /// The level of the section.
    pub level: usize,
    /// The first line of the section's content before the save: the line
    /// under which the drift of the save is recorded.
    pub line_start: i64,
}

/// The section on which the selection comes to rest after a save has
/// spliced the sections `fresh` in behind `kept` others: the first of them
/// with the title and level of the saved section, or, where none has
/// them, the last of them.
pub open spec fn resolved_section(
    kept: int,
    fresh: Seq<Section>,
    title: Seq<char>,
    level: nat,
) -> Option<int> {
    match first_match(fresh, title, level, 0) {
        Some(k) => Some(kept + k),
        None => if fresh.len() > 0 {
            Some(kept + fresh.len() - 1)
        } else {
            None
        },
    }
}

/// The text of a section as the detail view reads it from its file.
pub fn section_text(content: &str, byte_start: usize, byte_end: usize) -> (r: String)
    ensures
        r@ == clamped_text(content.spec_bytes(), byte_start as int, byte_end as int),
{
    let bytes = content.as_bytes();
    let len = bytes.len();
    let a = if byte_start < len {
        byte_start
    } else {
        len
    };
    let b = if byte_end < len {
        byte_end
    } else {
        len
    };
    let b = if a <= b {
        b
    } else {
        a
    };
    lossy_text(slice_subrange(bytes, a, b))
}

/// The position of the first section with the given title and level.
pub fn find_match(sections: &Vec<Section>, title: &str, level: usize) -> (r: Option<usize>)
    ensures
        match r {
            Some(k) => first_match(sections@, title@, level as nat, 0) == Some(k as int) && k
                < sections.len(),
            None => first_match(sections@, title@, level as nat, 0) is None,
        },
{
    let mut k: usize = 0;
    while k < sections.len()
        invariant
            k <= sections.len(),
            first_match(sections@, title@, level as nat, k as int) == first_match(
                sections@,
                title@,
                level as nat,
                0,
            ),
        decreases sections.len() - k,
    {
        if sections[k].level == level && str_eq(sections[k].title.as_str(), title) {
            return Some(k);
        }
        k += 1;
    }
    None
}

/// The sections that do not belong to the file `path`, in list order.
pub fn remove_file(sections: Vec<Section>, path: &str) -> (kept: Vec<Section>)
    ensures
        kept@ == without_file(sections@, path@),
{
    let mut kept: Vec<Section> = Vec::new();
    let ghost all = sections@;
    for section in it: sections
        invariant
            it.seq() == all,
            kept@ == without_file(all.take(it.index() as int), path@),
    {
        proof {
            let i = it.index() as int;
            assert(all.take(i + 1).drop_last() =~= all.take(i));
            assert(all.take(i + 1).last() == section);
        }
        if !str_eq(section.file_path.as_str(), path) {
            kept.push(section);
        }
    }
    assert(all.take(all.len() as int) =~= all);
    kept
}

/// The section with `rows` as its buffered lines.
pub open spec fn with_pending(section: SectionView, rows: Seq<Seq<char>>) -> SectionView {
    SectionView { doc_comment: Some(rows), ..section }
}

/// Whether `after` differs from `before` at most in the buffered lines of
/// the section at `i`, which are `rows`.
pub open spec fn buffered_at(
    before: Seq<Section>,
    after: Seq<Section>,
    i: int,
    rows: Seq<Seq<char>>,
) -> bool {
    &&& after.len() == before.len()
    &&& forall|k: int| 0 <= k < before.len() && k != i ==> after[k] == before[k]
    &&& after[i]@ == with_pending(before[i]@, rows)
    &&& after[i].level == before[i].level
    &&& after[i].file_path == before[i].file_path
    &&& after[i].title == before[i].title
}

/// Whether `after` differs from `before` at most in what a save may
/// change once the file was written: the sections, their rows, the
/// selection, the offset tracker, the status message and the state of a
/// move.
pub open spec fn only_saved(before: AppState, after: AppState) -> bool {
    after == (AppState {
        sections: after.sections,
        tree_nodes: after.tree_nodes,
        current_node_index: after.current_node_index,
        message: after.message,
        file_offsets: after.file_offsets,
        move_state: after.move_state,
        moving_section_index: after.moving_section_index,
        ..before
    })
}

/// Where the selection rests once the rows were rebuilt and the selection
/// was sent to section `target`, if there is one.
pub open spec fn resolved_row(nodes: Seq<TreeNode>, target: Option<int>, before: int) -> int {
    match target {
        Some(t) => row_or(nodes, t, resettled(nodes, before)),
        None => resettled(nodes, before),
    }
}

/// Whether the move of `before` goes on in `after`: it does where the
/// section that is being moved is still an index of the list, and is
/// called off where it is not.
pub open spec fn move_carried_over(before: AppState, after: AppState) -> bool {
    match before.moving_section_index {
        Some(i) if i >= after.sections@.len() => after.moving_section_index is None
            && after.move_state == MoveState::Idle,
        _ => after.moving_section_index == before.moving_section_index && after.move_state
            == before.move_state,
    }
}

/// Whether the tracker `after` is the tracker `before` with the drift
/// `added` recorded at `line` of `file`, and nothing else changed.
pub open spec fn drift_recorded(
    before: OffsetTracker,
    after: OffsetTracker,
    file: Seq<char>,
    line: int,
    added: int,
) -> bool {
    &&& after.entries(file) == recorded(before.entries(file), line, added)
    &&& forall|other: Seq<char>|
        other != file ==> #[trigger] after.entries(other) == before.entries(other)
}

/// The files that hold the sections, each once, in the order in which the
/// list first names them.
pub open spec fn distinct_paths(sections: Seq<SectionView>) -> Seq<Seq<char>>
    decreases sections.len(),
{
    if sections.len() == 0 {
        Seq::empty()
    } else {
        let rest = distinct_paths(sections.drop_last());
        if rest.contains(sections.last().file_path) {
            rest
        } else {
            rest.push(sections.last().file_path)
        }
    }
}

/// Whether an edit was planned for a section: it names the section's file,
/// first line and heading column.
pub open spec fn planned_for(edit: EditView, section: SectionView) -> bool {
    edit.file_name == section.file_path && edit.line_start == section.line_start
        && edit.column_start == section.column_start
}

/// The index of the last edit of a plan that was planned for `section`.
pub open spec fn last_planned(edits: Seq<EditView>, section: SectionView) -> Option<int>
    decreases edits.len(),
{
    if edits.len() == 0 {
        None
    } else if planned_for(edits.last(), section) {
        Some(edits.len() - 1)
    } else {
        last_planned(edits.drop_last(), section)
    }
}

/// A section as a plan restores it: with the lines of the last edit that
/// was planned for it as its buffered lines, or unchanged where the plan
/// holds none for it.
pub open spec fn restored(edits: Seq<EditView>, section: SectionView) -> SectionView {
    match last_planned(edits, section) {
        Some(k) => with_pending(section, lines_of(edits[k].doc_comment)),
        None => section,
    }
}

/// After a section was moved to the top, the rewrite of its file starts
/// with its heading: as many markers as its level, a space, its title, and
/// a blank line.
pub proof fn lemma_top_section_heads_file(bytes: Seq<u8>, sections: Seq<Section>, i: int)
    requires
        0 <= i < sections.len(),
    ensures
        (heading(sections[i].level as nat, sections[i].title@) + "\n\n"@).is_prefix_of(
            rewritten(
                bytes,
                section_views(moved_to_top(sections, i)),
                sections[i].file_path@,
            ),
        ),
{
    let moved = section_views(moved_to_top(sections, i));
    let first = sections[i]@;
    let rest = section_views(sections.remove(i));
    assert(moved =~= seq![first] + rest);
    lemma_rewritten_front(bytes, first, rest, first.file_path);
    let h = heading(first.level, first.title) + "\n\n"@;
    let out = rewritten(bytes, moved, first.file_path);
    assert(h.is_prefix_of(section_block(bytes, first))) by {
        let block = section_block(bytes, first);
        assert(block.subrange(0, h.len() as int) =~= h);
    }
    assert(out.subrange(0, h.len() as int) =~= h);
}

impl AppState {
    /// What every operation relies on and keeps: section levels are at
    /// least 1, every section row names a section of the list, the offset
    /// tracker is in order, and a section that is being moved is in the
    /// list.
    pub open spec fn wf(&self) -> bool {
        &&& levels_valid(self.sections@)
        &&& nodes_valid(self.tree_nodes@, self.sections@.len())
        &&& self.file_offsets.wf()
        &&& (self.moving_section_index matches Some(i) ==> i < self.sections@.len())
    }

    /// Whether the rows are those of the current files and sections, the
    /// files in an order that holds them all.
    pub open spec fn tree_in_sync(&self) -> bool {
        &&& node_views(self.tree_nodes@) == tree_of(
            views(self.files@),
            section_views(self.sections@),
        )
        &&& order_keeps_files(views(self.files@))
    }

    /// Whether section `i` shows in the rows: it does where a single file
    /// shows, and where its file is among the files.
    pub open spec fn shows(&self, i: int) -> bool {
        file_shows(views(self.files@), section_views(self.sections@), i)
    }

    /// Where the rows are in step with the list and the selection was sent
    /// to the row of a section that shows, the selection rests on that
    /// section.
    pub proof fn lemma_selection_rests(&self, target: int, fallback: int)
        requires
            self.tree_in_sync(),
            0 <= target < self.sections@.len(),
            self.shows(target),
            self.current_node_index == row_or(self.tree_nodes@, target, fallback),
        ensures
            self.current_section() == Some(target as usize),
    {
        let rows = node_views(self.tree_nodes@);
        lemma_section_has_row(views(self.files@), section_views(self.sections@), target);
        lemma_first_index(rows, stands_for(target as nat));
        let k = node_of(rows, target as nat)->0;
        assert(rows[k] == self.tree_nodes@[k]@);
    }

    /// The section under the selection, if the selection rests on a section
    /// row.
    pub open spec fn current_section(&self) -> Option<usize> {
        section_at(self.tree_nodes@, self.current_node_index as int)
    }

    /// Initialises application state with parsed sections and determines
    /// file mode.
    pub fn new(files: Vec<String>, sections: Vec<Section>, wrap_width: usize) -> (r: Self)
        requires
            levels_valid(sections@),
        ensures
            r.wf(),
            r.tree_in_sync(),
            r.sections == sections,
            r.files == files,
            r.file_mode == if files@.len() == 1 {
                FileMode::Single
            } else {
                FileMode::Multi
            },
            r.current_view == View::List,
            r.current_node_index == 0,
            r.editor_state is None,
            r.command_buffer@.len() == 0,
            r.message is None,
            r.wrap_width == wrap_width,
            forall|file: Seq<char>|
                #[trigger] r.file_offsets.entries(file) == Seq::<(int, int)>::empty(),
            r.move_state == MoveState::Idle,
            r.moving_section_index is None,
    {
        let file_mode = if files.len() == 1 {
            FileMode::Single
        } else {
            FileMode::Multi
        };
        let tree_nodes = build_tree(&files, &sections);
        AppState {
            sections,
            tree_nodes,
            files,
            file_mode,
            current_view: View::List,
            current_node_index: 0,
            editor_state: None,
            command_buffer: String::new(),
            message: None,
            wrap_width,
            file_offsets: OffsetTracker::new(),
            move_state: MoveState::Idle,
            moving_section_index: None,
        }
    }

    /// Rebuild tree after sections change (e.g., after save). The
    /// selection follows the section it rested on.
    pub fn rebuild_tree(&mut self)
        requires
            levels_valid(old(self).sections@),
            old(self).file_offsets.wf(),
            old(self).moving_section_index matches Some(i) ==> i < old(self).sections@.len(),
        ensures
            final(self).wf(),
            final(self).tree_in_sync(),
            final(self).current_node_index == resettled(
                final(self).tree_nodes@,
                old(self).current_node_index as int,
            ),
            *final(self) == (AppState {
                tree_nodes: final(self).tree_nodes,
                current_node_index: final(self).current_node_index,
                ..*old(self)
            }),
    {
        self.tree_nodes = build_tree(&self.files, &self.sections);
        if let Some(current) = self.get_current_section_index() {
            if let Some(k) = find_node(&self.tree_nodes, current) {
                self.current_node_index = k;
            }
        }
    }

    /// Get the section index for the currently selected node (if it's a
    /// section).
    pub fn get_current_section_index(&self) -> (r: Option<usize>)
        ensures
            r == self.current_section(),
    {
        if self.current_node_index < self.tree_nodes.len() {
            self.tree_nodes[self.current_node_index].section_index
        } else {
            None
        }
    }

    /// Get the current section (if on a section node).
    pub fn get_current_section(&self) -> (r: Option<&Section>)
        ensures
            match self.current_section() {
                Some(i) if i < self.sections@.len() => r == Some(&self.sections@[i as int]),
                _ => r is None,
            },
    {
        match self.get_current_section_index() {
            Some(i) => {
                if i < self.sections.len() {
                    Some(&self.sections[i])
                } else {
                    None
                }
            },
            None => None,
        }
    }

    /// The row of section `section`, if it has one.
    fn row_of(&self, section: usize) -> (r: Option<usize>)
        ensures
            names_row(r, node_of(node_views(self.tree_nodes@), section as nat)),
            r matches Some(k) ==> k < self.tree_nodes@.len(),
    {
        find_node(&self.tree_nodes, section)
    }

    /// Navigate to next navigable node: the first one behind the
    /// selection.
    pub fn find_next_node(&self) -> (r: Option<usize>)
        ensures
            names_row(r, first_navigable(self.tree_nodes@, self.current_node_index + 1)),
    {
        if self.current_node_index >= self.tree_nodes.len() {
            return None;
        }
        find_navigable_from(&self.tree_nodes, self.current_node_index + 1)
    }

    /// Navigate to previous navigable node: the last one before the
    /// selection.
    pub fn find_prev_node(&self) -> (r: Option<usize>)
        ensures
            names_row(
                r,
                last_navigable(
                    self.tree_nodes@,
                    if self.current_node_index <= self.tree_nodes@.len() {
                        self.current_node_index - 1
                    } else {
                        self.tree_nodes@.len() - 1
                    },
                ),
            ),
    {
        let end = if self.current_node_index <= self.tree_nodes.len() {
            self.current_node_index
        } else {
            self.tree_nodes.len()
        };
        find_navigable_before(&self.tree_nodes, end)
    }

    /// Moves to the containing section in the document hierarchy.
    pub fn navigate_to_parent(&self) -> (r: Option<usize>)
        requires
            self.wf(),
        ensures
            match self.current_section() {
                Some(i) => match self.sections@[i as int].parent_index {
                    Some(p) => names_row(r, node_of(node_views(self.tree_nodes@), p as nat)),
                    None => r is None,
                },
                None => r is None,
            },
    {
        match self.get_current_section_index() {
            Some(i) => match self.sections[i].parent_index {
                Some(p) => self.row_of(p),
                None => None,
            },
            None => None,
        }
    }

    /// Descends to the first child section in the document hierarchy.
    pub fn navigate_to_first_child(&self) -> (r: Option<usize>)
        requires
            self.wf(),
        ensures
            match self.current_section() {
                Some(i) => if self.sections@[i as int].children_indices@.len() > 0 {
                    names_row(
                        r,
                        node_of(
                            node_views(self.tree_nodes@),
                            self.sections@[i as int].children_indices@[0] as nat,
                        ),
                    )
                } else {
                    r is None
                },
                None => r is None,
            },
    {
        match self.get_current_section_index() {
            Some(i) => {
                if self.sections[i].children_indices.len() > 0 {
                    self.row_of(self.sections[i].children_indices[0])
                } else {
                    None
                }
            },
            None => None,
        }
    }

    /// Finds the next descendant section at any depth in the hierarchy:
    /// the first child if there is one, else the next section at a strictly
    /// greater level.
    pub fn navigate_to_next_descendant(&self) -> (r: Option<usize>)
        requires
            self.wf(),
        ensures
            match self.current_section() {
                Some(i) => if self.sections@[i as int].children_indices@.len() > 0 {
                    names_row(
                        r,
                        node_of(
                            node_views(self.tree_nodes@),
                            self.sections@[i as int].children_indices@[0] as nat,
                        ),
                    )
                } else {
                    names_row(
                        r,
                        row_of_found(
                            self.tree_nodes@,
                            next_deeper_of(levels(self.sections@), i as int),
                        ),
                    )
                },
                None => r is None,
            },
    {
        match self.get_current_section_index() {
            Some(i) => {
                if self.sections[i].children_indices.len() > 0 {
                    self.row_of(self.sections[i].children_indices[0])
                } else {
                    match next_deeper(&self.sections, i) {
                        Some(j) => self.row_of(j),
                        None => None,
                    }
                }
            },
            None => None,
        }
    }

    /// Finds the next section at the same hierarchy level, not looking
    /// past a section at a shallower level.
    pub fn navigate_to_next_sibling(&self) -> (r: Option<usize>)
        requires
            self.wf(),
        ensures
            match self.current_section() {
                Some(i) => names_row(
                    r,
                    row_of_found(
                        self.tree_nodes@,
                        next_sibling_of(levels(self.sections@), i as int),
                    ),
                ),
                None => r is None,
            },
    {
        match self.get_current_section_index() {
            Some(i) => match next_sibling(&self.sections, i) {
                Some(j) => self.row_of(j),
                None => None,
            },
            None => None,
        }
    }

    /// Finds the previous section at the same hierarchy level, not looking
    /// past a section at a shallower level.
    pub fn navigate_to_prev_sibling(&self) -> (r: Option<usize>)
        requires
            self.wf(),
        ensures
            match self.current_section() {
                Some(i) => names_row(
                    r,
                    row_of_found(
                        self.tree_nodes@,
                        prev_sibling_of(levels(self.sections@), i as int),
                    ),
                ),
                None => r is None,
            },
    {
        match self.get_current_section_index() {
            Some(i) => match prev_sibling(&self.sections, i) {
                Some(j) => self.row_of(j),
                None => None,
            },
            None => None,
        }
    }

    /// Jumps to the first navigable node.
    pub fn navigate_to_first(&self) -> (r: Option<usize>)
        ensures
            names_row(r, first_navigable(self.tree_nodes@, 0)),
    {
        find_navigable_from(&self.tree_nodes, 0)
    }

    /// Jumps to the last navigable node.
    pub fn navigate_to_last(&self) -> (r: Option<usize>)
        ensures
            names_row(r, last_navigable(self.tree_nodes@, self.tree_nodes@.len() - 1)),
    {
        find_navigable_before(&self.tree_nodes, self.tree_nodes.len())
    }

    /// Finds the first section at the same hierarchy level, anywhere in
    /// the list.
    pub fn navigate_to_first_at_level(&self) -> (r: Option<usize>)
        requires
            self.wf(),
        ensures
            match self.current_section() {
                Some(i) => names_row(
                    r,
                    row_of_found(
                        self.tree_nodes@,
                        first_at_level_of(
                            levels(self.sections@),
                            self.sections@[i as int].level as nat,
                        ),
                    ),
                ),
                None => r is None,
            },
    {
        match self.get_current_section_index() {
            Some(i) => match first_at_level(&self.sections, self.sections[i].level) {
                Some(j) => self.row_of(j),
                None => None,
            },
            None => None,
        }
    }

    /// Finds the last section at the same hierarchy level, anywhere in the
    /// list.
    pub fn navigate_to_last_at_level(&self) -> (r: Option<usize>)
        requires
            self.wf(),
        ensures
            match self.current_section() {
                Some(i) => names_row(
                    r,
                    row_of_found(
                        self.tree_nodes@,
                        last_at_level_of(
                            levels(self.sections@),
                            self.sections@[i as int].level as nat,
                        ),
                    ),
                ),
                None => r is None,
            },
    {
        match self.get_current_section_index() {
            Some(i) => match last_at_level(&self.sections, self.sections[i].level) {
                Some(j) => self.row_of(j),
                None => None,
            },
            None => None,
        }
    }

    /// Calculates indentation width based on section nesting level: two
    /// columns per level, as far as the number type reaches.
    pub fn get_indent(&self) -> (r: usize)
        ensures
            match self.current_section() {
                Some(i) if i < self.sections@.len() => r == if self.sections@[i as int].level * 2
                    <= usize::MAX {
                    self.sections@[i as int].level * 2
                } else {
                    usize::MAX as int
                },
                _ => r == 0,
            },
    {
        match self.get_current_section() {
            Some(section) => {
                if section.level <= usize::MAX / 2 {
                    section.level * 2
                } else {
                    usize::MAX
                }
            },
            None => 0,
        }
    }

    /// Determines available width for text after accounting for
    /// indentation: the wrapping width less two columns per level, and
    /// never less than nothing.
    pub fn get_max_line_width(&self) -> (r: usize)
        ensures
            match self.current_section() {
                Some(i) if i < self.sections@.len() => r == if self.wrap_width
                    >= self.sections@[i as int].level * 2 {
                    self.wrap_width - self.sections@[i as int].level * 2
                } else {
                    0
                },
                _ => r == self.wrap_width,
            },
    {
        let indent = self.get_indent();
        if self.wrap_width >= indent {
            self.wrap_width - indent
        } else {
            0
        }
    }

    /// Start moving the current section: marks it as the one to move and
    /// changes nothing else. Without a section under the selection nothing
    /// happens.
    pub fn start_move(&mut self)
        requires
            old(self).wf(),
        ensures
            final(self).wf(),
            match old(self).current_section() {
                Some(i) => *final(self) == (AppState {
                    moving_section_index: Some(i),
                    move_state: MoveState::Selected,
                    ..*old(self)
                }),
                None => *final(self) == *old(self),
            },
    {
        if let Some(i) = self.get_current_section_index() {
            self.moving_section_index = Some(i);
            self.move_state = MoveState::Selected;
        }
    }

    /// Cancel the current move operation: the move is over and nothing is
    /// written. The list stays in the order that the moves have given it.
    pub fn cancel_move(&mut self)
        ensures
            *final(self) == (AppState {
                moving_section_index: None,
                move_state: MoveState::Idle,
                ..*old(self)
            }),
    {
        self.moving_section_index = None;
        self.move_state = MoveState::Idle;
    }

    /// Mark section as moved but not yet saved.
    pub fn mark_moved(&mut self)
        ensures
            *final(self) == (AppState { move_state: MoveState::Moved, ..*old(self) }),
    {
        self.move_state = MoveState::Moved;
    }

    /// Rebuilds the rows after the moving section has come to `target` and
    /// lets the selection follow it.
    fn settle_move(&mut self, target: usize)
        requires
            levels_valid(old(self).sections@),
            old(self).file_offsets.wf(),
            target < old(self).sections@.len(),
        ensures
            final(self).wf(),
            final(self).tree_in_sync(),
            only_reordered(*old(self), *final(self)),
            final(self).sections == old(self).sections,
            final(self).moving_section_index == Some(target),
            final(self).move_state == MoveState::Moved,
            follows(*final(self), *old(self), target as int),
    {
        self.moving_section_index = Some(target);
        self.rebuild_tree();
        let ghost settled = self.current_node_index as int;
        if let Some(k) = self.row_of(target) {
            self.current_node_index = k;
        }
        proof {
            if self.shows(target as int) {
                self.lemma_selection_rests(target as int, settled);
            }
        }
        self.mark_moved();
    }

    /// Move section up by one position: it changes places with the section
    /// before it. The first section stays where it is.
    pub fn move_section_up(&mut self) -> (moved: bool)
        requires
            old(self).wf(),
        ensures
            final(self).wf(),
            match old(self).moving_section_index {
                Some(i) if i > 0 => {
                    &&& moved
                    &&& final(self).tree_in_sync()
                    &&& only_reordered(*old(self), *final(self))
                    &&& final(self).sections@ == swapped(old(self).sections@, i - 1, i as int)
                    &&& final(self).moving_section_index == Some((i - 1) as usize)
                    &&& final(self).move_state == MoveState::Moved
                    &&& follows(*final(self), *old(self), i - 1)
                },
                _ => !moved && *final(self) == *old(self),
            },
    {
        if let Some(i) = self.moving_section_index {
            if i > 0 {
                let ghost before = self.sections@;
                let section = self.sections.remove(i);
                self.sections.insert(i - 1, section);
                assert(self.sections@ =~= swapped(before, i - 1, i as int));
                self.settle_move(i - 1);
                return true;
            }
        }
        false
    }

    /// Move section down by one position: it changes places with the
    /// section behind it. The last section stays where it is.
    pub fn move_section_down(&mut self) -> (moved: bool)
        requires
            old(self).wf(),
        ensures
            final(self).wf(),
            match old(self).moving_section_index {
                Some(i) if i + 1 < old(self).sections@.len() => {
                    &&& moved
                    &&& final(self).tree_in_sync()
                    &&& only_reordered(*old(self), *final(self))
                    &&& final(self).sections@ == swapped(old(self).sections@, i as int, i + 1)
                    &&& final(self).moving_section_index == Some((i + 1) as usize)
                    &&& final(self).move_state == MoveState::Moved
                    &&& follows(*final(self), *old(self), i + 1)
                },
                _ => !moved && *final(self) == *old(self),
            },
    {
        if let Some(i) = self.moving_section_index {
            if i < self.sections.len() - 1 {
                let ghost before = self.sections@;
                let section = self.sections.remove(i);
                self.sections.insert(i + 1, section);
                assert(self.sections@ =~= swapped(before, i as int, i + 1));
                self.settle_move(i + 1);
                return true;
            }
        }
        false
    }

    /// Move section to top of document: it is taken out and put first.
    pub fn move_section_to_top(&mut self) -> (moved: bool)
        requires
            old(self).wf(),
        ensures
            final(self).wf(),
            match old(self).moving_section_index {
                Some(i) if i > 0 => {
                    &&& moved
                    &&& final(self).tree_in_sync()
                    &&& only_reordered(*old(self), *final(self))
                    &&& final(self).sections@ == moved_to_top(old(self).sections@, i as int)
                    &&& final(self).moving_section_index == Some(0usize)
                    &&& final(self).move_state == MoveState::Moved
                    &&& follows(*final(self), *old(self), 0)
                },
                _ => !moved && *final(self) == *old(self),
            },
    {
        if let Some(i) = self.moving_section_index {
            if i > 0 {
                let ghost before = self.sections@;
                let section = self.sections.remove(i);
                self.sections.insert(0, section);
                assert(self.sections@ =~= moved_to_top(before, i as int));
                self.settle_move(0);
                return true;
            }
        }
        false
    }

    /// Move section to bottom of document: it is taken out and put last.
    pub fn move_section_to_bottom(&mut self) -> (moved: bool)
        requires
            old(self).wf(),
        ensures
            final(self).wf(),
            match old(self).moving_section_index {
                Some(i) if i + 1 < old(self).sections@.len() => {
                    &&& moved
                    &&& final(self).tree_in_sync()
                    &&& only_reordered(*old(self), *final(self))
                    &&& final(self).sections@ == moved_to_bottom(old(self).sections@, i as int)
                    &&& final(self).moving_section_index == Some(
                        (old(self).sections@.len() - 1) as usize,
                    )
                    &&& final(self).move_state == MoveState::Moved
                    &&& follows(*final(self), *old(self), old(self).sections@.len() - 1)
                },
                _ => !moved && *final(self) == *old(self),
            },
    {
        if let Some(i) = self.moving_section_index {
            let last = self.sections.len() - 1;
            if i < last {
                let ghost before = self.sections@;
                let section = self.sections.remove(i);
                self.sections.push(section);
                assert(self.sections@ =~= moved_to_bottom(before, i as int));
                self.settle_move(last);
                return true;
            }
        }
        false
    }

    /// Sets the level of the section that is being moved and rebuilds the
    /// rows.
    fn relevel(&mut self, i: usize, level: usize)
        requires
            old(self).wf(),
            i < old(self).sections@.len(),
            level >= 1,
        ensures
            final(self).wf(),
            final(self).tree_in_sync(),
            only_reordered(*old(self), *final(self)),
            final(self).sections@ == with_level(old(self).sections@, i as int, level),
            final(self).moving_section_index == old(self).moving_section_index,
            final(self).move_state == MoveState::Moved,
            final(self).current_node_index == resettled(
                final(self).tree_nodes@,
                old(self).current_node_index as int,
            ),
    {
        let ghost before = self.sections@;
        let mut section = self.sections.remove(i);
        section.level = level;
        self.sections.insert(i, section);
        assert(self.sections@ =~= with_level(before, i as int, level));
        self.rebuild_tree();
        self.mark_moved();
    }

    /// Move the section one level in, towards the top of the hierarchy:
    /// its level number goes down by one, and never below 1.
    pub fn move_section_in(&mut self) -> (moved: bool)
        requires
            old(self).wf(),
        ensures
            final(self).wf(),
            match old(self).moving_section_index {
                Some(i) if old(self).sections@[i as int].level > 1 => {
                    &&& moved
                    &&& final(self).tree_in_sync()
                    &&& only_reordered(*old(self), *final(self))
                    &&& final(self).sections@ == with_level(
                        old(self).sections@,
                        i as int,
                        (old(self).sections@[i as int].level - 1) as usize,
                    )
                    &&& final(self).moving_section_index == old(self).moving_section_index
                    &&& final(self).move_state == MoveState::Moved
                    &&& final(self).current_node_index == resettled(
                        final(self).tree_nodes@,
                        old(self).current_node_index as int,
                    )
                },
                _ => !moved && *final(self) == *old(self),
            },
    {
        if let Some(i) = self.moving_section_index {
            let level = self.sections[i].level;
            if level > 1 {
                self.relevel(i, level - 1);
                return true;
            }
        }
        false
    }

    /// Move the section one level out, away from the top of the hierarchy:
    /// its level number goes up by one, and never above 6.
    pub fn move_section_out(&mut self) -> (moved: bool)
        requires
            old(self).wf(),
        ensures
            final(self).wf(),
            match old(self).moving_section_index {
                Some(i) if old(self).sections@[i as int].level < 6 => {
                    &&& moved
                    &&& final(self).tree_in_sync()
                    &&& only_reordered(*old(self), *final(self))
                    &&& final(self).sections@ == with_level(
                        old(self).sections@,
                        i as int,
                        (old(self).sections@[i as int].level + 1) as usize,
                    )
                    &&& final(self).moving_section_index == old(self).moving_section_index
                    &&& final(self).move_state == MoveState::Moved
                    &&& final(self).current_node_index == resettled(
                        final(self).tree_nodes@,
                        old(self).current_node_index as int,
                    )
                },
                _ => !moved && *final(self) == *old(self),
            },
    {
        if let Some(i) = self.moving_section_index {
            let level = self.sections[i].level;
            if level < 6 {
                self.relevel(i, level + 1);
                return true;
            }
        }
        false
    }

    /// Stores `lines` as the buffered lines of section `i`.
    fn set_pending(&mut self, i: usize, lines: Vec<String>)
        requires
            i < old(self).sections@.len(),
        ensures
            *final(self) == (AppState { sections: final(self).sections, ..*old(self) }),
            buffered_at(old(self).sections@, final(self).sections@, i as int, views(lines@)),
    {
        let ghost rows = views(lines@);
        let mut section = self.sections.remove(i);
        section.doc_comment = Some(lines);
        assert(section@.doc_comment == Some(rows)) by {
            assert(section@.doc_comment->0 =~= rows);
        }
        self.sections.insert(i, section);
    }

    /// Loads selected section content into the editor buffer.
    ///
    /// `content` is the text of the section's file, or nothing where the
    /// file could not be read: the view then changes and the buffer stays
    /// as it was. Nothing happens without a section under the selection,
    /// nor while a section is being moved.
    pub fn enter_detail_view(&mut self, content: Option<&str>)
        ensures
            match old(self).current_section() {
                Some(i) if i < old(self).sections@.len() && old(self).move_state
                    == MoveState::Idle => {
                    &&& *final(self) == (AppState {
                        editor_state: final(self).editor_state,
                        current_view: View::Detail,
                        ..*old(self)
                    })
                    &&& match content {
                        Some(text) => final(self).editor_state matches Some(editor)
                            && editor_in_normal_mode(editor) && editor_rows(editor) == text_rows(
                            detail_text(
                                text.spec_bytes(),
                                old(self).sections@[i as int].byte_start as int,
                                old(self).sections@[i as int].byte_end as int,
                            ),
                        ),
                        None => final(self).editor_state == old(self).editor_state,
                    }
                },
                _ => *final(self) == *old(self),
            },
    {
        let i = match self.get_current_section_index() {
            Some(i) => i,
            None => {
                return ;
            },
        };
        if i >= self.sections.len() || self.move_state != MoveState::Idle {
            return ;
        }
        if let Some(text) = content {
            let raw = section_text(text, self.sections[i].byte_start, self.sections[i].byte_end);
            let body = trimmed(raw.as_str());
            let mut loaded = String::new();
            loaded.push('\n');
            if body.as_str().unicode_len() > 0 {
                loaded.append(body.as_str());
                loaded.push('\n');
            }
            assert(loaded@ =~= detail_text(
                text.spec_bytes(),
                self.sections@[i as int].byte_start as int,
                self.sections@[i as int].byte_end as int,
            ));
            self.editor_state = Some(editor_with_text(loaded.as_str()));
        }
        self.current_view = View::Detail;
    }

    /// Returns to section list, optionally persisting editor changes: with
    /// `save`, the lines of the editor become the buffered lines of the
    /// section under the selection. The editor is dropped either way.
    pub fn exit_detail_view(&mut self, save: bool)
        ensures
            *final(self) == (AppState {
                sections: final(self).sections,
                editor_state: None,
                current_view: View::List,
                ..*old(self)
            }),
            match (old(self).editor_state, old(self).current_section()) {
                (Some(editor), Some(i)) if save && i < old(self).sections@.len() => buffered_at(
                    old(self).sections@,
                    final(self).sections@,
                    i as int,
                    editor_rows(editor),
                ),
                _ => final(self).sections == old(self).sections,
            },
            old(self).wf() ==> final(self).wf(),
    {
        if save {
            if let Some(editor) = &self.editor_state {
                let lines = editor_lines(editor);
                if let Some(i) = self.get_current_section_index() {
                    if i < self.sections.len() {
                        self.set_pending(i, lines);
                    }
                }
            }
        }
        self.editor_state = None;
        self.current_view = View::List;
    }

    /// The first part of saving the current section's content: the lines
    /// of the editor become the buffered lines of the section, and the
    /// plan that replaces the section's lines in its file is handed out,
    /// with what is needed to find the section again after the file was
    /// parsed anew. Without an editor or without a section under the
    /// selection nothing changes and nothing is handed out.
    pub fn prepare_save(&mut self) -> (r: Option<SaveRequest>)
        ensures
            match (old(self).editor_state, old(self).current_section()) {
                (Some(editor), Some(i)) if i < old(self).sections@.len() => {
                    &&& r matches Some(request)
                    &&& request.plan@ == seq![
                        save_edit(old(self).sections@[i as int]@, editor_rows(editor)),
                    ]
                    &&& request.file_path@ == old(self).sections@[i as int].file_path@
                    &&& request.title@ == old(self).sections@[i as int].title@
                    &&& request.level == old(self).sections@[i as int].level
                    &&& request.line_start == old(self).sections@[i as int].line_start
                    &&& *final(self) == (AppState {
                        sections: final(self).sections,
                        ..*old(self)
                    })
                    &&& buffered_at(
                        old(self).sections@,
                        final(self).sections@,
                        i as int,
                        editor_rows(editor),
                    )
                },
                _ => r is None && *final(self) == *old(self),
            },
            old(self).wf() ==> final(self).wf(),
    {
        let lines = match &self.editor_state {
            Some(editor) => editor_lines(editor),
            None => {
                return None;
            },
        };
        let i = match self.get_current_section_index() {
            Some(i) => i,
            None => {
                return None;
            },
        };
        if i >= self.sections.len() {
            return None;
        }
        let raw = join_lines(&lines);
        let text = pad(raw.as_str());
        let section = &self.sections[i];
        let edit = Edit {
            file_name: section.file_path.clone(),
            line_start: section.line_start,
            line_end: section.line_end,
            column_start: section.column_start,
            column_end: section.column_end,
            doc_comment: text,
            item_name: section.title.clone(),
        };
        let file_path = section.file_path.clone();
        let title = section.title.clone();
        let level = section.level;
        let line_start = section.line_start;
        let ghost wanted = save_edit(section@, views(lines@));
        assert(edit@ == wanted);
        let mut edits: Vec<Edit> = Vec::new();
        edits.push(edit);
        let plan = EditPlan { edits };
        assert(plan@ =~= seq![wanted]);
        self.set_pending(i, lines);
        Some(SaveRequest { plan, file_path, title, level, line_start })
    }

    /// Creates a serialisable plan capturing current editor
    /// modifications: one edit for each section that has buffered lines,
    /// in list order; sections without are left out.
    pub fn generate_edit_plan(&self) -> (plan: EditPlan)
        ensures
            plan@ == pending_edits(section_views(self.sections@)),
    {
        let ghost secs = section_views(self.sections@);
        let mut edits: Vec<Edit> = Vec::new();
        let mut i: usize = 0;
        while i < self.sections.len()
            invariant
                i <= self.sections.len(),
                secs == section_views(self.sections@),
                (EditPlan { edits })@ == pending_edits(secs.take(i as int)),
            decreases self.sections.len() - i,
        {
            proof {
                assert(secs.take(i + 1).drop_last() =~= secs.take(i as int));
                assert(secs.take(i + 1).last() == self.sections@[i as int]@);
            }
            let section = &self.sections[i];
            if let Some(lines) = &section.doc_comment {
                let ghost before = (EditPlan { edits })@;
                let edit = Edit {
                    file_name: section.file_path.clone(),
                    line_start: section.line_start,
                    line_end: section.line_end,
                    column_start: section.column_start,
                    column_end: section.column_end,
                    doc_comment: join_lines(lines),
                    item_name: section.title.clone(),
                };
                proof {
                    assert(section@.doc_comment->0 =~= views(lines@));
                    assert(edit@ == pending_edit(section@));
                }
                edits.push(edit);
                assert((EditPlan { edits })@ =~= before.push(pending_edit(section@)));
            }
            i += 1;
        }
        assert(secs.take(self.sections.len() as int) =~= secs);
        EditPlan { edits }
    }

    /// Calculates total lines added before a section to determine correct
    /// write position: the drift recorded for the section's file at lines
    /// before the section's first line.
    pub fn cumulative_offset(&self, index: usize) -> (r: i128)
        requires
            self.wf(),
            index < self.sections@.len(),
        ensures
            r == crate::offsets::drift_before(
                self.file_offsets.entries(self.sections@[index as int].file_path@),
                self.sections@[index as int].line_start as int,
            ),
    {
        let section = &self.sections[index];
        self.file_offsets.cumulative_before(section.file_path.as_str(), section.line_start)
    }

    /// The second part of saving the current section's content, once the
    /// plan was applied and the file written.
    ///
    /// `reparsed` holds the sections that the parser now finds in the
    /// file, or nothing where parsing failed: the list then stays as it
    /// was. Otherwise the sections of the file leave the list and the
    /// fresh ones are put at its end; the selection goes to the first of
    /// them that has the title and level of the saved section and, where
    /// none has, to the last of them; it rests on that section where the
    /// file shows among the files.
    ///
    /// `old_text` is what the file held before the save and `new_text`
    /// what it holds now. The net number of lines that the save has added
    /// or removed is recorded as the drift at the first line that the
    /// section had before the save, in place of any drift recorded there
    /// before. The status line says that the save is done.
    pub fn complete_save(
        &mut self,
        request: &SaveRequest,
        old_text: &str,
        new_text: &str,
        reparsed: Option<Vec<Section>>,
    )
        requires
            old(self).wf(),
            reparsed matches Some(fresh) ==> levels_valid(fresh@),
        ensures
            final(self).wf(),
            only_saved(*old(self), *final(self)),
            final(self).message matches Some(m) && m@ == "Saved"@,
            match reparsed {
                Some(fresh) => {
                    let kept = without_file(old(self).sections@, request.file_path@);
                    &&& final(self).sections@ == kept + fresh@
                    &&& final(self).tree_in_sync()
                    &&& final(self).current_node_index == resolved_row(
                        final(self).tree_nodes@,
                        resolved_section(
                            kept.len() as int,
                            fresh@,
                            request.title@,
                            request.level as nat,
                        ),
                        old(self).current_node_index as int,
                    )
                    &&& move_carried_over(*old(self), *final(self))
                    &&& match resolved_section(
                        kept.len() as int,
                        fresh@,
                        request.title@,
                        request.level as nat,
                    ) {
                        Some(t) => final(self).shows(t) ==> final(self).current_section()
                            == Some(t as usize),
                        None => true,
                    }
                },
                None => {
                    &&& final(self).sections == old(self).sections
                    &&& final(self).tree_nodes == old(self).tree_nodes
                    &&& final(self).current_node_index == old(self).current_node_index
                    &&& final(self).moving_section_index == old(self).moving_section_index
                    &&& final(self).move_state == old(self).move_state
                },
            },
            drift_recorded(
                old(self).file_offsets,
                final(self).file_offsets,
                request.file_path@,
                request.line_start as int,
                net_lines(old_text@, new_text@),
            ),
    {
        if let Some(fresh) = reparsed {
            let mut fresh = fresh;
            let mut taken: Vec<Section> = Vec::new();
            std::mem::swap(&mut taken, &mut self.sections);
            let mut kept = remove_file(taken, request.file_path.as_str());
            let local = find_match(&fresh, request.title.as_str(), request.level);
            let base = kept.len();
            let count = fresh.len();
            kept.append(&mut fresh);
            let total = kept.len();
            assert(total == base + count);
            self.sections = kept;
            assert(levels_valid(self.sections@)) by {
                lemma_without_file_levels(old(self).sections@, request.file_path@);
            }
            if let Some(i) = self.moving_section_index {
                if i >= self.sections.len() {
                    self.cancel_move();
                }
            }
            self.rebuild_tree();
            let target = match local {
                Some(k) => Some(base + k),
                None => if count > 0 {
                    Some(base + count - 1)
                } else {
                    None
                },
            };
            let ghost settled = self.current_node_index as int;
            if let Some(t) = target {
                if let Some(row) = self.row_of(t) {
                    self.current_node_index = row;
                }
                proof {
                    if self.shows(t as int) {
                        self.lemma_selection_rests(t as int, settled);
                    }
                }
            }
        }
        let added = added_lines(old_text, new_text);
        self.file_offsets.record(request.file_path.as_str(), request.line_start, added);
        self.message = Some(String::from_str("Saved"));
    }

    /// The files that a reorder has to rewrite, or nothing where no section
    /// was moved: each file that holds a section, once, in the order in
    /// which the list first names it.
    pub fn reorder_files(&self) -> (r: Option<Vec<String>>)
        ensures
            match r {
                Some(files) => self.move_state == MoveState::Moved && views(files@)
                    == distinct_paths(section_views(self.sections@)),
                None => self.move_state != MoveState::Moved,
            },
    {
        if self.move_state != MoveState::Moved {
            return None;
        }
        let ghost secs = section_views(self.sections@);
        let mut files: Vec<String> = Vec::new();
        let mut i: usize = 0;
        while i < self.sections.len()
            invariant
                i <= self.sections.len(),
                secs == section_views(self.sections@),
                views(files@) == distinct_paths(secs.take(i as int)),
            decreases self.sections.len() - i,
        {
            proof {
                assert(secs.take(i + 1).drop_last() =~= secs.take(i as int));
                assert(secs.take(i + 1).last() == self.sections@[i as int]@);
            }
            let path = &self.sections[i].file_path;
            if !contains_text(&files, path.as_str()) {
                let ghost before = views(files@);
                files.push(path.clone());
                assert(views(files@) =~= before.push(path@));
            }
            i += 1;
        }
        assert(secs.take(self.sections.len() as int) =~= secs);
        Some(files)
    }

    /// Rewrite an entire file with reordered sections: the new content of
    /// the file `file_path`, made of the headings and trimmed texts of its
    /// sections in list order. `content` is what the file holds now.
    pub fn rewrite_file_sections(file_path: &str, content: &str, sections: &Vec<Section>) -> (r:
        String)
        ensures
            r@ == rewritten(content.spec_bytes(), section_views(sections@), file_path@),
    {
        let ghost secs = section_views(sections@);
        let bytes = content.as_bytes();
        let mut out = String::new();
        let mut i: usize = 0;
        while i < sections.len()
            invariant
                i <= sections.len(),
                secs == section_views(sections@),
                bytes@ == content.spec_bytes(),
                out@ == rewritten(bytes@, secs.take(i as int), file_path@),
            decreases sections.len() - i,
        {
            proof {
                assert(secs.take(i + 1).drop_last() =~= secs.take(i as int));
                assert(secs.take(i + 1).last() == sections@[i as int]@);
            }
            let section = &sections[i];
            if str_eq(section.file_path.as_str(), file_path) {
                let ghost before = out@;
                let body = if section.byte_start < bytes.len() && section.byte_end <= bytes.len()
                    && section.byte_start <= section.byte_end {
                    let raw = lossy_text(
                        slice_subrange(bytes, section.byte_start, section.byte_end),
                    );
                    trimmed(raw.as_str())
                } else {
                    trimmed("")
                };
                proof {
                    assert(trim(""@) == ""@) by {
                        reveal_strlit("");
                    }
                    assert(""@ =~= Seq::<char>::empty()) by {
                        reveal_strlit("");
                    }
                }
                out.append(repeat_char('#', section.level).as_str());
                out.append(" ");
                out.append(section.title.as_str());
                out.append("\n\n");
                if body.as_str().unicode_len() > 0 {
                    out.append(body.as_str());
                    out.append("\n\n");
                }
                assert(out@ =~= before + section_block(bytes@, section@));
            }
            i += 1;
        }
        assert(secs.take(sections.len() as int) =~= secs);
        out
    }

    /// The last part of saving a reorder, once every file was rewritten
    /// and every file of the project parsed anew: `fresh` replaces the
    /// list, the rows are rebuilt, the offset tracker starts over, the move
    /// is over and the status line says so.
    pub fn complete_reorder(&mut self, fresh: Vec<Section>)
        requires
            levels_valid(fresh@),
        ensures
            final(self).wf(),
            final(self).tree_in_sync(),
            only_saved(*old(self), *final(self)),
            final(self).sections == fresh,
            final(self).current_node_index == resettled(
                final(self).tree_nodes@,
                old(self).current_node_index as int,
            ),
            final(self).move_state == MoveState::Idle,
            final(self).moving_section_index is None,
            final(self).message matches Some(m) && m@ == "Sections reordered"@,
            forall|file: Seq<char>|
                #[trigger] final(self).file_offsets.entries(file) == Seq::<(int, int)>::empty(),
    {
        self.sections = fresh;
        self.file_offsets.reset();
        self.cancel_move();
        self.rebuild_tree();
        self.message = Some(String::from_str("Sections reordered"));
    }

    /// Restores previously edited content from a saved edit plan: each
    /// section for which the plan holds an edit gets the lines of that
    /// edit as its buffered lines; of several edits for one section the
    /// last counts.
    pub fn load_docs(&mut self, plan: &EditPlan)
        ensures
            *final(self) == (AppState { sections: final(self).sections, ..*old(self) }),
            final(self).sections@.len() == old(self).sections@.len(),
            forall|i: int|
                0 <= i < old(self).sections@.len() ==> (#[trigger] final(self).sections@[i])@
                    == restored(plan@, old(self).sections@[i]@),
            old(self).wf() ==> final(self).wf(),
    {
        let n = self.sections.len();
        let mut i: usize = 0;
        while i < n
            invariant
                i <= n == self.sections@.len() == old(self).sections@.len(),
                *self == (AppState { sections: self.sections, ..*old(self) }),
                forall|k: int|
                    0 <= k < i ==> (#[trigger] self.sections@[k])@ == restored(
                        plan@,
                        old(self).sections@[k]@,
                    ),
                forall|k: int| i <= k < n ==> self.sections@[k] == old(self).sections@[k],
                forall|k: int|
                    0 <= k < n ==> (#[trigger] self.sections@[k]).level == old(
                        self,
                    ).sections@[k].level,
            decreases n - i,
        {
            let found = find_planned(plan, &self.sections[i]);
            if let Some(k) = found {
                let lines = text_lines(plan.edits[k].doc_comment.as_str());
                let ghost before = self.sections@;
                self.set_pending(i, lines);
                assert forall|j: int| 0 <= j < n implies (#[trigger] self.sections@[j]).level
                    == old(self).sections@[j].level by {
                    if j != i {
                        assert(self.sections@[j] == before[j]);
                    }
                }
            }
            i += 1;
        }
    }
}

/// The index of the last edit of the plan that was planned for `section`.
fn find_planned(plan: &EditPlan, section: &Section) -> (r: Option<usize>)
    ensures
        match r {
            Some(k) => last_planned(plan@, section@) == Some(k as int) && k < plan.edits@.len(),
            None => last_planned(plan@, section@) is None,
        },
{
    let mut k: usize = plan.edits.len();
    assert(plan@.take(k as int) =~= plan@);
    while k > 0
        invariant
            k <= plan.edits.len(),
            last_planned(plan@.take(k as int), section@) == last_planned(plan@, section@),
        decreases k,
    {
        k -= 1;
        let edit = &plan.edits[k];
        proof {
            assert(plan@.take(k + 1).last() == edit@);
            assert(plan@.take(k + 1).drop_last() =~= plan@.take(k as int));
        }
        if edit.line_start == section.line_start && edit.column_start == section.column_start
            && str_eq(edit.file_name.as_str(), section.file_path.as_str()) {
            return Some(k);
        }
    }
    None
}

/// Taking the sections of a file out of a list leaves levels that are
/// valid where they were valid before.
pub proof fn lemma_without_file_levels(sections: Seq<Section>, path: Seq<char>)
    requires
        levels_valid(sections),
    ensures
        levels_valid(without_file(sections, path)),
        without_file(sections, path).len() <= sections.len(),
    decreases sections.len(),
{
    if sections.len() > 0 {
        let front = sections.drop_last();
        assert(levels_valid(front)) by {
            assert forall|i: int| 0 <= i < front.len() implies (#[trigger] front[i]).level
                >= 1 by {
                assert(front[i] == sections[i]);
            }
        }
        lemma_without_file_levels(front, path);
        assert(sections.last() == sections[sections.len() - 1]);
    }
}

} // verus!
