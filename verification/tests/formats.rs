use asterism::formats::difftastic::{
    chunk_section, chunk_sections, create_chunk_section, format_hunk_content, format_hunk_title,
    hunk_sections, side_string, sides_equal, spans_fit, DiffError, DifftChange, DifftFile,
    DifftLine, DifftSide, DifftasticFormat,
};
use asterism::formats::markdown::MarkdownFormat;
use asterism::formats::Format;
use asterism::section::ChunkType;

fn change(content: &str) -> DifftChange {
    DifftChange { start: 0, end: content.len() as u32, content: content.to_string(), highlight: "normal".to_string() }
}

fn side(line_number: u32, parts: &[&str]) -> DifftSide {
    DifftSide { line_number, changes: parts.iter().map(|p| change(p)).collect() }
}

#[test]
fn markdown_format_names_its_queries() {
    let f = MarkdownFormat;
    assert_eq!(f.file_extension(), "md");
    assert_eq!(f.section_query(), "(atx_heading) @heading");
    assert_eq!(
        f.title_query(),
        "(atx_heading (atx_h1_marker)? (atx_h2_marker)? (atx_h3_marker)? (atx_h4_marker)? (atx_h5_marker)? (atx_h6_marker)? (inline) @title)"
    );
}

#[test]
fn markdown_grammar_parses_headings() {
    let f = MarkdownFormat;
    let mut parser = tree_sitter::Parser::new();
    parser.set_language(&f.language()).unwrap();
    let tree = parser.parse("# One\n\ntext\n", None).unwrap();
    let query = tree_sitter::Query::new(&f.language(), f.section_query()).unwrap();
    assert_eq!(query.capture_names(), &["heading"]);
    assert_eq!(tree.root_node().kind(), "document");
}

#[test]
fn difftastic_format_has_no_queries() {
    let f = DifftasticFormat;
    assert_eq!(f.file_extension(), "diff");
    assert_eq!(f.section_query(), "");
    assert_eq!(f.title_query(), "");
    let mut parser = tree_sitter::Parser::new();
    assert!(parser.set_language(&f.language()).is_ok());
}

#[test]
fn hunk_title_with_both_sides() {
    let chunk = vec![
        DifftLine { lhs: Some(side(3, &["a"])), rhs: Some(side(4, &["b"])) },
        DifftLine { lhs: Some(side(5, &["c"])), rhs: None },
        DifftLine { lhs: None, rhs: Some(side(9, &["d"])) },
    ];
    assert_eq!(format_hunk_title(&chunk, 0), "Hunk 1 (@@ -3,3 +4,6 @@)");
    assert_eq!(format_hunk_title(&chunk, 11), "Hunk 12 (@@ -3,3 +4,6 @@)");
}

#[test]
fn hunk_title_with_one_side() {
    let deletion = vec![
        DifftLine { lhs: Some(side(7, &["a"])), rhs: None },
        DifftLine { lhs: Some(side(8, &["b"])), rhs: None },
    ];
    assert_eq!(format_hunk_title(&deletion, 1), "Hunk 2 (deletion @@ -7,2 @@)");
    let addition = vec![DifftLine { lhs: None, rhs: Some(side(0, &["a"])) }];
    assert_eq!(format_hunk_title(&addition, 2), "Hunk 3 (addition @@ +0,1 @@)");
}

#[test]
fn hunk_title_without_sides() {
    assert_eq!(format_hunk_title(&[], 4), "Hunk 5");
    let empty = vec![DifftLine { lhs: None, rhs: None }];
    assert_eq!(format_hunk_title(&empty, 0), "Hunk 1");
}

#[test]
fn spans_fit_tells_when_a_title_can_be_written() {
    let fine = vec![
        DifftLine { lhs: Some(side(3, &[])), rhs: None },
        DifftLine { lhs: Some(side(3, &[])), rhs: Some(side(0, &[])) },
    ];
    assert!(spans_fit(&fine));
    let backwards = vec![
        DifftLine { lhs: Some(side(5, &[])), rhs: None },
        DifftLine { lhs: Some(side(4, &[])), rhs: None },
    ];
    assert!(!spans_fit(&backwards));
    let too_long = vec![
        DifftLine { lhs: None, rhs: Some(side(0, &[])) },
        DifftLine { lhs: None, rhs: Some(side(u32::MAX, &[])) },
    ];
    assert!(!spans_fit(&too_long));
    assert!(spans_fit(&[]));
}

#[test]
fn hunk_content_shows_each_side_with_sign_and_line_number() {
    let chunk = vec![
        DifftLine { lhs: Some(side(0, &["#", " ", "1"])), rhs: Some(side(0, &["#", " ", "I"])) },
        DifftLine { lhs: Some(side(2, &["?"])), rhs: None },
        DifftLine { lhs: None, rhs: Some(side(12, &["!", "!"])) },
        DifftLine { lhs: None, rhs: None },
    ];
    assert_eq!(format_hunk_content(&chunk), "-0: # 1\n+0: # I\n-2: ?\n+12: !!\n \n");
    assert_eq!(format_hunk_content(&[]), "");
}

#[test]
fn chunk_section_is_a_one_line_second_level_section() {
    let s = create_chunk_section(
        "src/a.rs",
        "Chunk @@ src/a.rs:7 @@".to_string(),
        7,
        2,
        9,
        ChunkType::Modified,
        Some("old".to_string()),
        None,
    );
    assert_eq!(s.title, "Chunk @@ src/a.rs:7 @@");
    assert_eq!(s.level, 2);
    assert_eq!(s.line_start, 7);
    assert_eq!(s.line_end, 8);
    assert_eq!(s.column_start, 2);
    assert_eq!(s.column_end, 9);
    assert_eq!(s.byte_start, 0);
    assert_eq!(s.byte_end, 0);
    assert_eq!(s.file_path, "src/a.rs");
    assert_eq!(s.parent_index, None);
    assert!(s.children_indices.is_empty());
    assert_eq!(s.doc_comment, None);
    assert_eq!(s.chunk_type, Some(ChunkType::Modified));
    assert_eq!(s.lhs_content, Some("old".to_string()));
    assert_eq!(s.rhs_content, None);
}

fn file(path: &str, status: &str, chunks: Option<Vec<Vec<DifftLine>>>) -> DifftFile {
    DifftFile { language: "Text".to_string(), path: path.to_string(), chunks, status: status.to_string() }
}

fn both(number: u32, left: &str, right: &str) -> DifftLine {
    DifftLine { lhs: Some(side(number, &[left])), rhs: Some(side(number, &[right])) }
}

#[test]
fn hunks_become_top_level_sections_numbered_through() {
    let files = vec![
        file("skip.md", "unchanged", Some(vec![vec![both(0, "a", "b")]])),
        file("new.py", "created", None),
        file("test.md", "changed", Some(vec![
            vec![both(0, "# 1", "# I"), both(2, "?", "!")],
            vec![DifftLine { lhs: None, rhs: Some(side(9, &["x"])) }],
        ])),
        file("image.png", "changed", None),
        file("old.py", "deleted", None),
    ];
    let sections = hunk_sections(&files).unwrap();
    let seen: Vec<(String, String, i64, i64)> = sections
        .iter()
        .map(|s| (s.file_path.clone(), s.title.clone(), s.line_start, s.line_end))
        .collect();
    assert_eq!(
        seen,
        vec![
            ("new.py".to_string(), "File created (no detailed diff available)".to_string(), 0, 1),
            ("test.md".to_string(), "Hunk 1 (@@ -0,3 +0,3 @@)".to_string(), 2, 6),
            ("test.md".to_string(), "Hunk 2 (addition @@ +9,1 @@)".to_string(), 7, 8),
            ("old.py".to_string(), "File deleted (no detailed diff available)".to_string(), 9, 10),
        ]
    );
    for s in &sections {
        assert_eq!(s.level, 1);
        assert_eq!(s.parent_index, None);
        assert_eq!(s.chunk_type, None);
        assert_eq!((s.column_start, s.column_end, s.byte_start, s.byte_end), (0, 0, 0, 0));
    }
    assert_eq!(sections[0].doc_comment, Some(vec!["File was created".to_string()]));
    assert_eq!(
        sections[1].doc_comment,
        Some(vec!["-0: # 1\n+0: # I\n-2: ?\n+2: !\n".to_string()])
    );
    assert_eq!(sections[2].doc_comment, Some(vec!["+9: x\n".to_string()]));
}

#[test]
fn unchanged_files_give_no_sections() {
    let files = vec![file("unchanged.md", "unchanged", None)];
    assert!(hunk_sections(&files).unwrap().is_empty());
    assert!(hunk_sections(&vec![]).unwrap().is_empty());
}

#[test]
fn a_hunk_whose_lines_run_backwards_is_refused() {
    let files = vec![
        file("a.md", "changed", Some(vec![vec![both(0, "a", "b")]])),
        file("b.md", "changed", Some(vec![
            vec![both(1, "a", "b")],
            vec![both(5, "a", "b"), both(4, "a", "b")],
        ])),
    ];
    assert_eq!(hunk_sections(&files).err(), Some(DiffError::SpanOverflow { file: 1, hunk: 1 }));
}

#[test]
fn sides_are_compared_in_every_field() {
    let a = side(3, &["x", "y"]);
    assert!(sides_equal(&a, &side(3, &["x", "y"])));
    assert!(!sides_equal(&a, &side(4, &["x", "y"])));
    assert!(!sides_equal(&a, &side(3, &["x"])));
    assert!(!sides_equal(&a, &side(3, &["x", "z"])));
    let mut b = side(3, &["x", "y"]);
    b.changes[1].highlight = "keyword".to_string();
    assert!(!sides_equal(&a, &b));
    let mut c = side(3, &["x", "y"]);
    c.changes[0].start = 5;
    assert!(!sides_equal(&a, &c));
    assert_eq!(side_string(&a), "xy");
    assert_eq!(side_string(&side(0, &[])), "");
}

#[test]
fn a_line_of_a_chunk_becomes_a_second_level_section() {
    let mut left = side(7, &["let", " ", "x"]);
    left.changes[0].start = 4;
    left.changes[2].end = 9;
    let line = DifftLine { lhs: Some(left), rhs: Some(side(8, &["let y"])) };
    let s = chunk_section("src/a.rs", &line).unwrap();
    assert_eq!(s.title, "Chunk @@ src/a.rs:7 @@");
    assert_eq!(s.level, 2);
    assert_eq!(s.line_start, 7);
    assert_eq!(s.line_end, 8);
    assert_eq!(s.column_start, 4);
    assert_eq!(s.column_end, 9);
    assert_eq!(s.file_path, "src/a.rs");
    assert_eq!(s.chunk_type, Some(ChunkType::Modified));
    assert_eq!(s.lhs_content, Some("let x".to_string()));
    assert_eq!(s.rhs_content, Some("let y".to_string()));
    assert_eq!(s.doc_comment, None);
    assert!(chunk_section("a", &DifftLine { lhs: None, rhs: None }).is_none());
}

#[test]
fn chunk_types_tell_how_the_sides_compare() {
    let kinds: Vec<Option<ChunkType>> = [
        DifftLine { lhs: Some(side(1, &["a"])), rhs: None },
        DifftLine { lhs: None, rhs: Some(side(2, &[])) },
        both(3, "a", "a"),
        both(4, "a", "b"),
    ]
    .iter()
    .map(|l| chunk_section("f", l).unwrap().chunk_type)
    .collect();
    assert_eq!(
        kinds,
        vec![
            Some(ChunkType::Deleted),
            Some(ChunkType::Added),
            Some(ChunkType::Unchanged),
            Some(ChunkType::Modified)
        ]
    );
    let added = chunk_section("f", &DifftLine { lhs: None, rhs: Some(side(2, &[])) }).unwrap();
    assert_eq!((added.column_start, added.column_end), (0, 0));
    assert_eq!(added.lhs_content, None);
    assert_eq!(added.rhs_content, Some(String::new()));
    assert_eq!(added.line_start, 2);
}

#[test]
fn chunk_sections_walk_files_chunks_and_lines_in_order() {
    let files = vec![
        file("a.rs", "changed", Some(vec![
            vec![both(1, "a", "b"), DifftLine { lhs: None, rhs: None }],
            vec![both(5, "c", "c")],
        ])),
        file("b.rs", "unchanged", None),
        file("c.rs", "created", Some(vec![vec![DifftLine { lhs: None, rhs: Some(side(0, &["n"])) }]])),
    ];
    let titles: Vec<String> = chunk_sections(&files).iter().map(|s| s.title.clone()).collect();
    assert_eq!(
        titles,
        vec!["Chunk @@ a.rs:1 @@", "Chunk @@ a.rs:5 @@", "Chunk @@ c.rs:0 @@"]
    );
    assert!(chunk_sections(&vec![]).is_empty());
}
