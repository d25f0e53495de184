use asterism::section::{NodeType, Section, TreeNode};
use asterism::tree::{build_tree, find_navigable_before, find_navigable_from, find_node};

fn section(file: &str, title: &str, level: usize) -> Section {
    Section {
        title: title.to_string(),
        level,
        line_start: 0,
        line_end: 0,
        column_start: 0,
        column_end: 0,
        byte_start: 0,
        byte_end: 0,
        file_path: file.to_string(),
        parent_index: None,
        children_indices: vec![],
        doc_comment: None,
        chunk_type: None,
        lhs_content: None,
        rhs_content: None,
    }
}

fn label(node: &TreeNode) -> String {
    match &node.node_type {
        NodeType::Directory { name, .. } => format!("dir:{}", name),
        NodeType::File { name, path } => format!("file:{}:{}", name, path),
        NodeType::Section(s) => format!("section:{}", s.title),
    }
}

#[test]
fn a_single_file_shows_its_sections_alone() {
    let files = vec!["docs/a.md".to_string()];
    let sections = vec![
        section("docs/a.md", "One", 1),
        section("docs/a.md", "Two", 2),
        section("docs/a.md", "Three", 3),
    ];
    let nodes = build_tree(&files, &sections);
    assert_eq!(nodes.len(), 3);
    for (i, node) in nodes.iter().enumerate() {
        assert_eq!(node.section_index, Some(i));
        assert_eq!(node.tree_level, i);
        assert!(node.navigable);
    }
    assert_eq!(label(&nodes[1]), "section:Two");
}

#[test]
fn several_files_show_in_path_order_each_followed_by_its_sections() {
    let files = vec!["z/b.md".to_string(), "a/c.md".to_string(), "a-b.md".to_string()];
    let sections = vec![
        section("z/b.md", "B1", 1),
        section("a/c.md", "C1", 1),
        section("z/b.md", "B2", 2),
        section("a-b.md", "D1", 3),
    ];
    let nodes = build_tree(&files, &sections);
    let labels: Vec<String> = nodes.iter().map(label).collect();
    assert_eq!(
        labels,
        vec![
            "file:c.md:a/c.md",
            "section:C1",
            "file:a-b.md:a-b.md",
            "section:D1",
            "file:b.md:z/b.md",
            "section:B1",
            "section:B2",
        ]
    );
    let levels: Vec<usize> = nodes.iter().map(|n| n.tree_level).collect();
    assert_eq!(levels, vec![0, 1, 0, 3, 0, 1, 2]);
    let indices: Vec<Option<usize>> = nodes.iter().map(|n| n.section_index).collect();
    assert_eq!(indices, vec![None, Some(1), None, Some(3), None, Some(0), Some(2)]);
    let navigable: Vec<bool> = nodes.iter().map(|n| n.navigable).collect();
    assert_eq!(navigable, vec![false, true, false, true, false, true, true]);
}

#[test]
fn a_path_without_a_last_component_shows_whole() {
    let files = vec!["..".to_string(), "x.md".to_string()];
    let nodes = build_tree(&files, &vec![]);
    let labels: Vec<String> = nodes.iter().map(label).collect();
    assert_eq!(labels, vec!["file:..:..", "file:x.md:x.md"]);
}

#[test]
fn no_files_and_no_sections_give_no_rows() {
    assert!(build_tree(&vec![], &vec![]).is_empty());
}

#[test]
fn rows_are_found_by_section_index() {
    let files = vec!["b.md".to_string(), "a.md".to_string()];
    let sections = vec![section("b.md", "B", 1), section("a.md", "A", 1)];
    let nodes = build_tree(&files, &sections);
    assert_eq!(find_node(&nodes, 0), Some(3));
    assert_eq!(find_node(&nodes, 1), Some(1));
    assert_eq!(find_node(&nodes, 2), None);
}

#[test]
fn navigable_rows_are_found_in_both_directions() {
    let files = vec!["b.md".to_string(), "a.md".to_string()];
    let sections = vec![section("b.md", "B", 1), section("a.md", "A", 1)];
    let nodes = build_tree(&files, &sections);
    assert_eq!(find_navigable_from(&nodes, 0), Some(1));
    assert_eq!(find_navigable_from(&nodes, 2), Some(3));
    assert_eq!(find_navigable_from(&nodes, 4), None);
    assert_eq!(find_navigable_before(&nodes, 4), Some(3));
    assert_eq!(find_navigable_before(&nodes, 3), Some(1));
    assert_eq!(find_navigable_before(&nodes, 1), None);
    assert_eq!(find_navigable_before(&nodes, 0), None);
}

#[test]
fn node_constructors_set_the_flags() {
    let s = TreeNode::section(section("a.md", "A", 2), 1, 7);
    assert!(s.navigable);
    assert_eq!(s.section_index, Some(7));
    assert_eq!(s.tree_level, 1);
    let f = TreeNode::file("a.md".to_string(), "x/a.md".to_string(), 0);
    assert!(!f.navigable);
    assert_eq!(f.section_index, None);
    assert_eq!(label(&f), "file:a.md:x/a.md");
    let d = TreeNode::directory("x".to_string(), "x".to_string(), 0);
    assert!(!d.navigable);
    assert_eq!(label(&d), "dir:x");
}

#[test]
fn a_cloned_section_holds_the_same_values() {
    let mut s = section("a.md", "A", 2);
    s.children_indices = vec![3, 4];
    s.parent_index = Some(1);
    s.doc_comment = Some(vec!["x".to_string(), "y".to_string()]);
    s.lhs_content = Some("l".to_string());
    let c = s.clone();
    assert_eq!(c.title, "A");
    assert_eq!(c.level, 2);
    assert_eq!(c.file_path, "a.md");
    assert_eq!(c.children_indices, vec![3, 4]);
    assert_eq!(c.parent_index, Some(1));
    assert_eq!(c.doc_comment, Some(vec!["x".to_string(), "y".to_string()]));
    assert_eq!(c.lhs_content, Some("l".to_string()));
    assert_eq!(c.rhs_content, None);
}
