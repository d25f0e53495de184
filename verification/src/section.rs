//! Sections: the addressable, nestable regions of a document.

use vstd::prelude::*;

verus! {

/// How one side-by-side chunk of a structural diff differs between its sides.
#[derive(Clone, Copy, Debug, PartialEq, Eq, Structural)]
pub enum ChunkType {
    /// Present on the right-hand side only.
    Added,
    /// Present on the left-hand side only.
    Deleted,
    /// Present on both sides with different content.
    Modified,
    /// Present on both sides with the same content.
    Unchanged,
}

/// Hierarchical document division with precise coordinates for extraction
/// and modification.
pub struct Section {
    /// Section heading text without markup symbols.
    pub title: String,
    /// Nesting depth in the document hierarchy (1 for top-level).
    pub level: usize,
    /// First line of section content (after the heading).
    pub line_start: i64,
    /// Line where the next section begins or the file ends.
    pub line_end: i64,
    /// Starting column of the section heading.
    pub column_start: i64,
    /// Ending column of the section heading.
    pub column_end: i64,
    /// Byte offset where section content begins.
    pub byte_start: usize,
    /// Byte offset where section content ends.
    pub byte_end: usize,
    /// Source file containing this section.
    pub file_path: String,
    /// Index of the containing section in the hierarchy.
    pub parent_index: Option<usize>,
    /// Indices of directly nested subsections.
    pub children_indices: Vec<usize>,
    /// Edited lines that were buffered but not yet flushed.
    pub doc_comment: Option<Vec<String>>,
    /// Kind of change, for sections that stand for a diff chunk.
    pub chunk_type: Option<ChunkType>,
    /// Left-hand text of a diff chunk.
    pub lhs_content: Option<String>,
    /// Right-hand text of a diff chunk.
    pub rhs_content: Option<String>,
}

/// The mathematical content of a [`Section`].
pub struct SectionView {
    pub title: Seq<char>,
    pub level: nat,
    pub line_start: int,
    pub line_end: int,
    pub column_start: int,
    pub column_end: int,
    pub byte_start: nat,
    pub byte_end: nat,
    pub file_path: Seq<char>,
    pub parent_index: Option<nat>,
    pub children_indices: Seq<nat>,
    pub doc_comment: Option<Seq<Seq<char>>>,
    pub chunk_type: Option<ChunkType>,
    pub lhs_content: Option<Seq<char>>,
    pub rhs_content: Option<Seq<char>>,
}

/// The view of an optional string.
pub open spec fn opt_text(s: Option<String>) -> Option<Seq<char>> {
    match s {
        Some(t) => Some(t@),
        None => None,
    }
}

/// The views of an optional list of lines.
pub open spec fn opt_lines(lines: Option<Vec<String>>) -> Option<Seq<Seq<char>>> {
    match lines {
        Some(v) => Some(Seq::new(v@.len(), |i: int| v@[i]@)),
        None => None,
    }
}

impl View for Section {
    type V = SectionView;

    open spec fn view(&self) -> SectionView {
        SectionView {
            title: self.title@,
            level: self.level as nat,
            line_start: self.line_start as int,
            line_end: self.line_end as int,
            column_start: self.column_start as int,
            column_end: self.column_end as int,
            byte_start: self.byte_start as nat,
            byte_end: self.byte_end as nat,
            file_path: self.file_path@,
            parent_index: match self.parent_index {
                Some(p) => Some(p as nat),
                None => None,
            },
            children_indices: Seq::new(
                self.children_indices@.len(),
                |i: int| self.children_indices@[i] as nat,
            ),
            doc_comment: opt_lines(self.doc_comment),
            chunk_type: self.chunk_type,
            lhs_content: opt_text(self.lhs_content),
            rhs_content: opt_text(self.rhs_content),
        }
    }
}

/// The views of a list of sections, in order.
pub open spec fn section_views(sections: Seq<Section>) -> Seq<SectionView> {
    Seq::new(sections.len(), |i: int| sections[i]@)
}

impl Clone for Section {
    /// A copy with the same content.
    fn clone(&self) -> (r: Self)
        ensures
            r@ == self@,
    {
        let children_indices = self.children_indices.clone();
        let doc_comment = self.doc_comment.clone();
        let lhs_content = self.lhs_content.clone();
        let rhs_content = self.rhs_content.clone();
        let r = Section {
            title: self.title.clone(),
            level: self.level,
            line_start: self.line_start,
            line_end: self.line_end,
            column_start: self.column_start,
            column_end: self.column_end,
            byte_start: self.byte_start,
            byte_end: self.byte_end,
            file_path: self.file_path.clone(),
            parent_index: self.parent_index,
            children_indices,
            doc_comment,
            chunk_type: self.chunk_type,
            lhs_content,
            rhs_content,
        };
        proof {
            assert(r@.children_indices =~= self@.children_indices);
            assert(r@.doc_comment =~= self@.doc_comment);
            assert(r@.lhs_content == self@.lhs_content);
            assert(r@.rhs_content == self@.rhs_content);
        }
        r
    }
}

/// What a node of the display tree stands for.
pub enum NodeType {
    /// A directory that holds files.
    Directory { name: String, path: String },
    /// A file that holds sections.
    File { name: String, path: String },
    /// A section of a document.
    Section(Section),
}

/// One row of the unified tree of directories, files and sections.
pub struct TreeNode {
    /// What the row stands for.
    pub node_type: NodeType,
    /// Depth of the row in the tree; 0 is the top.
    pub tree_level: usize,
    /// Whether the selection can rest on the row.
    pub navigable: bool,
    /// For a section row, the index of the section in the section list.
    pub section_index: Option<usize>,
}

/// The mathematical content of a [`NodeType`].
pub enum NodeTypeView {
    Directory { name: Seq<char>, path: Seq<char> },
    File { name: Seq<char>, path: Seq<char> },
    Section(SectionView),
}

/// The mathematical content of a [`TreeNode`].
pub struct TreeNodeView {
    pub node_type: NodeTypeView,
    pub tree_level: nat,
    pub navigable: bool,
    pub section_index: Option<nat>,
}

impl View for NodeType {
    type V = NodeTypeView;

    open spec fn view(&self) -> NodeTypeView {
        match *self {
            NodeType::Directory { name, path } => NodeTypeView::Directory {
                name: name@,
                path: path@,
            },
            NodeType::File { name, path } => NodeTypeView::File { name: name@, path: path@ },
            NodeType::Section(section) => NodeTypeView::Section(section@),
        }
    }
}

impl View for TreeNode {
    type V = TreeNodeView;

    open spec fn view(&self) -> TreeNodeView {
        TreeNodeView {
            node_type: self.node_type@,
            tree_level: self.tree_level as nat,
            navigable: self.navigable,
            section_index: match self.section_index {
                Some(i) => Some(i as nat),
                None => None,
            },
        }
    }
}

/// The row of a section: navigable, and tied to the section's index.
pub open spec fn section_node(section: SectionView, tree_level: nat, index: nat) -> TreeNodeView {
    TreeNodeView {
        node_type: NodeTypeView::Section(section),
        tree_level,
        navigable: true,
        section_index: Some(index),
    }
}

/// The row of a file: a heading for its sections on which the selection
/// cannot rest.
pub open spec fn file_node(name: Seq<char>, path: Seq<char>, tree_level: nat) -> TreeNodeView {
    TreeNodeView {
        node_type: NodeTypeView::File { name, path },
        tree_level,
        navigable: false,
        section_index: None,
    }
}

/// The row of a directory: a heading for its files on which the selection
/// cannot rest.
pub open spec fn directory_node(name: Seq<char>, path: Seq<char>, tree_level: nat) -> TreeNodeView {
    TreeNodeView {
        node_type: NodeTypeView::Directory { name, path },
        tree_level,
        navigable: false,
        section_index: None,
    }
}

/// The views of a list of rows, in order.
pub open spec fn node_views(nodes: Seq<TreeNode>) -> Seq<TreeNodeView> {
    Seq::new(nodes.len(), |i: int| nodes[i]@)
}

impl TreeNode {
    /// The row of the section at `section_index` of the section list.
    pub fn section(section: Section, tree_level: usize, section_index: usize) -> (r: Self)
        ensures
            r@ == section_node(section@, tree_level as nat, section_index as nat),
    {
        TreeNode {
            node_type: NodeType::Section(section),
            tree_level,
            navigable: true,
            section_index: Some(section_index),
        }
    }

    /// The row of a file.
    pub fn file(name: String, path: String, tree_level: usize) -> (r: Self)
        ensures
            r@ == file_node(name@, path@, tree_level as nat),
    {
        TreeNode {
            node_type: NodeType::File { name, path },
            tree_level,
            navigable: false,
            section_index: None,
        }
    }

    /// The row of a directory.
    pub fn directory(name: String, path: String, tree_level: usize) -> (r: Self)
        ensures
            r@ == directory_node(name@, path@, tree_level as nat),
    {
        TreeNode {
            node_type: NodeType::Directory { name, path },
            tree_level,
            navigable: false,
            section_index: None,
        }
    }
}

} // verus!
