use asterism::app_state::{find_match, remove_file, section_text, AppState, FileMode, MoveState, View};
use asterism::section::Section;
use edtui::{EditorState, Lines};
use std::collections::HashMap;

fn section(file: &str, title: &str, level: usize) -> Section {
    Section {
        title: title.to_string(),
        level,
        line_start: 0,
        line_end: 0,
        column_start: 0,
        column_end: 0,
        byte_start: 0,
        byte_end: 0,
        file_path: file.to_string(),
        parent_index: None,
        children_indices: vec![],
        doc_comment: None,
        chunk_type: None,
        lhs_content: None,
        rhs_content: None,
    }
}

/// A stand-in for the parser: one section per line that starts with `#`.
fn parse(path: &str, text: &str) -> Vec<Section> {
    let mut sections: Vec<Section> = Vec::new();
    let mut offset = 0usize;
    let lines: Vec<&str> = text.split_inclusive('\n').collect();
    for (number, line) in lines.iter().enumerate() {
        let start = offset;
        offset += line.len();
        if !line.starts_with('#') {
            continue;
        }
        let level = line.chars().take_while(|c| *c == '#').count();
        if let Some(open) = sections.last_mut() {
            open.line_end = number as i64;
            open.byte_end = start;
        }
        let mut s = section(path, line[level..].trim(), level);
        s.line_start = number as i64 + 1;
        s.line_end = lines.len() as i64;
        s.column_start = 0;
        s.column_end = line.trim_end().len() as i64;
        s.byte_start = offset;
        s.byte_end = text.len();
        sections.push(s);
    }
    for i in 0..sections.len() {
        let parent = (0..i).rev().find(|p| sections[*p].level < sections[i].level);
        sections[i].parent_index = parent;
        if let Some(p) = parent {
            sections[p].children_indices.push(i);
        }
    }
    sections
}

fn open(disk: &HashMap<String, String>, paths: &[&str]) -> AppState {
    let files: Vec<String> = paths.iter().map(|p| p.to_string()).collect();
    let mut sections = Vec::new();
    for p in paths {
        sections.extend(parse(p, &disk[*p]));
    }
    AppState::new(files, sections, 100)
}

fn enter(app: &mut AppState, disk: &HashMap<String, String>) {
    let content = app.get_current_section().and_then(|s| disk.get(&s.file_path)).cloned();
    app.enter_detail_view(content.as_deref());
}

fn type_text(app: &mut AppState, text: &str) {
    app.editor_state = Some(EditorState::new(Lines::from(text)));
}

fn rows(app: &AppState) -> Vec<String> {
    let editor = app.editor_state.as_ref().unwrap();
    editor.lines.iter_row().map(|row| row.iter().collect::<String>()).collect()
}

fn save_current(app: &mut AppState, disk: &mut HashMap<String, String>) -> Result<(), String> {
    let Some(request) = app.prepare_save() else {
        return Ok(());
    };
    let old_text = disk.get(&request.file_path).ok_or("unreadable")?.clone();
    let new_text = request
        .plan
        .apply_to_content(&request.file_path, &old_text)
        .map_err(|e| format!("{:?}", e))?;
    disk.insert(request.file_path.clone(), new_text.clone());
    let reparsed = Some(parse(&request.file_path, &new_text));
    app.complete_save(&request, &old_text, &new_text, reparsed);
    Ok(())
}

fn save_reorder(app: &mut AppState, disk: &mut HashMap<String, String>) -> usize {
    let Some(files) = app.reorder_files() else {
        return 0;
    };
    let mut written = 0;
    for file in &files {
        let rewritten = AppState::rewrite_file_sections(file, &disk[file], &app.sections);
        disk.insert(file.clone(), rewritten);
        written += 1;
    }
    let mut fresh = Vec::new();
    for file in app.files.clone() {
        fresh.extend(parse(&file, &disk[&file]));
    }
    app.complete_reorder(fresh);
    written
}

fn titles(app: &AppState) -> Vec<String> {
    app.sections.iter().map(|s| s.title.clone()).collect()
}

fn disk_with(files: &[(&str, &str)]) -> HashMap<String, String> {
    files.iter().map(|(p, t)| (p.to_string(), t.to_string())).collect()
}

#[test]
fn a_new_session_starts_in_the_list() {
    let disk = disk_with(&[("a.md", "# One\n\nA\n\n## Two\n\nB\n")]);
    let app = open(&disk, &["a.md"]);
    assert_eq!(app.file_mode, FileMode::Single);
    assert_eq!(app.current_view, View::List);
    assert_eq!(app.current_node_index, 0);
    assert!(app.editor_state.is_none());
    assert_eq!(app.command_buffer, "");
    assert_eq!(app.message, None);
    assert_eq!(app.wrap_width, 100);
    assert_eq!(app.move_state, MoveState::Idle);
    assert_eq!(app.moving_section_index, None);
    assert_eq!(app.tree_nodes.len(), 2);
    assert_eq!(app.get_current_section_index(), Some(0));
    assert_eq!(app.get_current_section().unwrap().title, "One");
    assert_eq!(app.cumulative_offset(1), 0);
}

#[test]
fn several_files_make_a_multi_file_session() {
    let disk = disk_with(&[("a.md", "# A\n\nx\n"), ("b.md", "# B\n\ny\n")]);
    let app = open(&disk, &["b.md", "a.md"]);
    assert_eq!(app.file_mode, FileMode::Multi);
    assert_eq!(app.tree_nodes.len(), 4);
    assert_eq!(app.get_current_section_index(), None);
    assert!(app.get_current_section().is_none());
    assert_eq!(app.find_next_node(), Some(1));
    assert_eq!(app.navigate_to_first(), Some(1));
    assert_eq!(app.navigate_to_last(), Some(3));
    assert_eq!(app.get_indent(), 0);
    assert_eq!(app.get_max_line_width(), 100);
}

#[test]
fn navigation_follows_the_hierarchy() {
    let disk = disk_with(&[(
        "a.md",
        "# One\n\n## Two\n\n### Three\n\n## Four\n\n# Five\n\n## Six\n",
    )]);
    let mut app = open(&disk, &["a.md"]);
    assert_eq!(app.navigate_to_parent(), None);
    assert_eq!(app.navigate_to_first_child(), Some(1));
    assert_eq!(app.navigate_to_next_descendant(), Some(1));
    assert_eq!(app.navigate_to_next_sibling(), Some(4));
    assert_eq!(app.navigate_to_prev_sibling(), None);
    assert_eq!(app.find_next_node(), Some(1));
    assert_eq!(app.find_prev_node(), None);
    app.current_node_index = 3;
    assert_eq!(app.navigate_to_parent(), Some(0));
    assert_eq!(app.navigate_to_first_child(), None);
    assert_eq!(app.navigate_to_next_descendant(), None);
    assert_eq!(app.navigate_to_next_sibling(), None);
    assert_eq!(app.navigate_to_prev_sibling(), Some(1));
    assert_eq!(app.navigate_to_first_at_level(), Some(1));
    assert_eq!(app.navigate_to_last_at_level(), Some(5));
    assert_eq!(app.find_prev_node(), Some(2));
    assert_eq!(app.get_indent(), 4);
    assert_eq!(app.get_max_line_width(), 96);
    app.current_node_index = 2;
    assert_eq!(app.navigate_to_next_descendant(), None);
    app.current_node_index = 9;
    assert_eq!(app.get_current_section_index(), None);
    assert_eq!(app.navigate_to_next_sibling(), None);
    assert_eq!(app.find_next_node(), None);
    assert_eq!(app.find_prev_node(), Some(5));
}

#[test]
fn next_sibling_of_the_last_child_is_none_though_the_level_comes_again() {
    let disk = disk_with(&[("a.md", "# One\n\n## Two\n\n# Three\n\n## Four\n")]);
    let mut app = open(&disk, &["a.md"]);
    app.current_node_index = 1;
    assert_eq!(app.navigate_to_next_sibling(), None);
    assert_eq!(app.navigate_to_last_at_level(), Some(3));
}

#[test]
fn the_width_never_goes_below_nothing() {
    let disk = disk_with(&[("a.md", "###### Deep\n\nx\n")]);
    let mut app = open(&disk, &["a.md"]);
    app.wrap_width = 10;
    assert_eq!(app.get_indent(), 12);
    assert_eq!(app.get_max_line_width(), 0);
}

#[test]
fn section_text_is_cut_off_at_the_end_of_the_file() {
    assert_eq!(section_text("# One\n\nA\n", 7, 9), "A\n");
    assert_eq!(section_text("# One\n\nA\n", 7, 900), "A\n");
    assert_eq!(section_text("# One\n\nA\n", 100, 900), "");
    assert_eq!(section_text("# One\n\nA\n", 8, 7), "");
    assert_eq!(section_text("é", 1, 2), "\u{FFFD}");
}

#[test]
fn entering_the_detail_view_loads_the_trimmed_section() {
    let disk = disk_with(&[("a.md", "# One\n\nA\n\n## Two\n\nB\n")]);
    let mut app = open(&disk, &["a.md"]);
    enter(&mut app, &disk);
    assert_eq!(app.current_view, View::Detail);
    assert_eq!(rows(&app), vec!["", "A", ""]);
}

#[test]
fn entering_the_detail_view_of_a_blank_section_loads_one_line_feed() {
    let disk = disk_with(&[("a.md", "# One\n\n\n## Two\n\nB\n")]);
    let mut app = open(&disk, &["a.md"]);
    enter(&mut app, &disk);
    assert_eq!(app.current_view, View::Detail);
    assert_eq!(rows(&app), vec!["", ""]);
}

#[test]
fn entering_the_detail_view_without_the_file_keeps_the_buffer() {
    let disk = disk_with(&[("a.md", "# One\n\nA\n")]);
    let mut app = open(&disk, &["a.md"]);
    app.enter_detail_view(None);
    assert_eq!(app.current_view, View::Detail);
    assert!(app.editor_state.is_none());
}

#[test]
fn entering_the_detail_view_needs_a_section_and_no_move() {
    let disk = disk_with(&[("a.md", "# A\n\nx\n"), ("b.md", "# B\n\ny\n")]);
    let mut app = open(&disk, &["a.md", "b.md"]);
    app.enter_detail_view(Some("# A\n\nx\n"));
    assert_eq!(app.current_view, View::List);
    assert!(app.editor_state.is_none());
    app.current_node_index = 1;
    app.start_move();
    app.enter_detail_view(Some("# A\n\nx\n"));
    assert_eq!(app.current_view, View::List);
    assert!(app.editor_state.is_none());
    app.cancel_move();
    app.enter_detail_view(Some("# A\n\nx\n"));
    assert_eq!(app.current_view, View::Detail);
}

#[test]
fn leaving_the_detail_view_keeps_the_lines_only_when_asked() {
    let disk = disk_with(&[("a.md", "# One\n\nA\n")]);
    let mut app = open(&disk, &["a.md"]);
    enter(&mut app, &disk);
    type_text(&mut app, "x\ny");
    app.exit_detail_view(false);
    assert_eq!(app.current_view, View::List);
    assert!(app.editor_state.is_none());
    assert_eq!(app.sections[0].doc_comment, None);
    enter(&mut app, &disk);
    type_text(&mut app, "x\ny");
    app.exit_detail_view(true);
    assert_eq!(app.sections[0].doc_comment, Some(vec!["x".to_string(), "y".to_string()]));
    assert!(app.editor_state.is_none());
}

#[test]
fn saving_without_an_editor_does_nothing() {
    let disk = disk_with(&[("a.md", "# One\n\nA\n")]);
    let mut app = open(&disk, &["a.md"]);
    assert!(app.prepare_save().is_none());
    assert_eq!(app.sections[0].doc_comment, None);
}

#[test]
fn the_save_plan_holds_one_edit_at_the_section_coordinates() {
    let disk = disk_with(&[("a.md", "# One\n\nA\n\n## Two\n\nB\n")]);
    let mut app = open(&disk, &["a.md"]);
    app.current_node_index = 1;
    enter(&mut app, &disk);
    type_text(&mut app, "\n  BBB  \nmore\n\n");
    let request = app.prepare_save().unwrap();
    assert_eq!(request.file_path, "a.md");
    assert_eq!(request.title, "Two");
    assert_eq!(request.level, 2);
    assert_eq!(request.plan.edits.len(), 1);
    let edit = &request.plan.edits[0];
    assert_eq!(edit.file_name, "a.md");
    assert_eq!(edit.line_start, 5);
    assert_eq!(edit.line_end, 7);
    assert_eq!(edit.column_start, 0);
    assert_eq!(edit.column_end, 6);
    assert_eq!(edit.doc_comment, "\nBBB  \nmore\n");
    assert_eq!(request.line_start, 5);
    assert_eq!(edit.item_name, "Two");
    assert_eq!(
        app.sections[1].doc_comment,
        Some(vec![
            "".to_string(),
            "  BBB  ".to_string(),
            "more".to_string(),
            "".to_string(),
            "".to_string()
        ])
    );
}

#[test]
fn a_save_rewrites_the_section_and_leaves_the_next_heading() {
    let mut disk = disk_with(&[("a.md", "# One\n\nA\n\n## Two\n\nB\n")]);
    let mut app = open(&disk, &["a.md"]);
    enter(&mut app, &disk);
    type_text(&mut app, "AAA\nextra");
    save_current(&mut app, &mut disk).unwrap();
    assert_eq!(disk["a.md"], "# One\n\nAAA\nextra\n## Two\n\nB\n");
    assert!(disk["a.md"].contains("AAA\nextra\n## Two"));
    assert_eq!(app.message, Some("Saved".to_string()));
    assert_eq!(titles(&app), vec!["One", "Two"]);
    assert_eq!(app.get_current_section_index(), Some(0));
    assert_eq!(app.sections[0].line_start, 1);
    assert_eq!(app.sections[0].line_end, 4);
    assert_eq!(app.sections[1].line_start, 5);
    assert_eq!(app.sections[0].doc_comment, None);
}

#[test]
fn two_saves_with_a_reparse_between_both_land_where_they_belong() {
    let mut disk = disk_with(&[("a.md", "# One\n\nA\n\n## Two\n\nB\n\n### Three\n\nC\n")]);
    let mut app = open(&disk, &["a.md"]);
    app.current_node_index = 0;
    enter(&mut app, &disk);
    type_text(&mut app, "\nAAA\n");
    save_current(&mut app, &mut disk).unwrap();
    app.exit_detail_view(true);
    app.current_node_index = 2;
    enter(&mut app, &disk);
    type_text(&mut app, "\nCCC\n");
    save_current(&mut app, &mut disk).unwrap();
    assert_eq!(disk["a.md"], "# One\n\nAAA\n## Two\n\nB\n\n### Three\n\nCCC\n");
    assert!(disk["a.md"].contains("## Two\n\nB\n"));
    assert_eq!(app.get_current_section().unwrap().title, "Three");
}

#[test]
fn a_failed_save_surfaces_the_error_and_keeps_the_list() {
    let mut disk = disk_with(&[("a.md", "# One\n\nA\n")]);
    let mut app = open(&disk, &["a.md"]);
    app.sections[0].line_end = 40;
    enter(&mut app, &disk);
    type_text(&mut app, "AAA");
    let r = save_current(&mut app, &mut disk);
    assert!(r.is_err());
    assert_eq!(disk["a.md"], "# One\n\nA\n");
    assert_eq!(titles(&app), vec!["One"]);
    assert_eq!(app.message, None);
}

#[test]
fn a_save_moves_the_sections_of_the_file_to_the_end_of_the_list() {
    let mut disk = disk_with(&[("a.md", "# A\n\nx\n\n# A2\n\ny\n"), ("b.md", "# B\n\nz\n")]);
    let mut app = open(&disk, &["a.md", "b.md"]);
    assert_eq!(titles(&app), vec!["A", "A2", "B"]);
    app.current_node_index = 2;
    assert_eq!(app.get_current_section().unwrap().title, "A2");
    enter(&mut app, &disk);
    type_text(&mut app, "new");
    save_current(&mut app, &mut disk).unwrap();
    assert_eq!(disk["a.md"], "# A\n\nx\n\n# A2\n\nnew\n");
    assert_eq!(disk["b.md"], "# B\n\nz\n");
    assert_eq!(titles(&app), vec!["B", "A", "A2"]);
    assert_eq!(app.get_current_section().unwrap().title, "A2");
    assert_eq!(app.get_current_section_index(), Some(2));
}

#[test]
fn without_a_match_the_selection_goes_to_the_last_fresh_section() {
    let disk = disk_with(&[("a.md", "# One\n\nA\n\n## Two\n\nB\n")]);
    let mut app = open(&disk, &["a.md"]);
    enter(&mut app, &disk);
    type_text(&mut app, "AAA");
    let request = app.prepare_save().unwrap();
    let fresh = parse("a.md", "# Uno\n\nAAA\n\n## Due\n\nB\n\n## Tre\n\nC\n");
    let new_text = "# Uno\n\nAAA\n\n## Due\n\nB\n\n## Tre\n\nC\n";
    app.complete_save(&request, &disk["a.md"], new_text, Some(fresh));
    assert_eq!(titles(&app), vec!["Uno", "Due", "Tre"]);
    assert_eq!(app.get_current_section_index(), Some(2));
}

#[test]
fn a_failed_reparse_keeps_the_list_and_still_reports_the_save() {
    let disk = disk_with(&[("a.md", "# One\n\nA\n")]);
    let mut app = open(&disk, &["a.md"]);
    enter(&mut app, &disk);
    type_text(&mut app, "AAA");
    let request = app.prepare_save().unwrap();
    app.complete_save(&request, "# One\n\nA\n", "# One\n\nAAA\nmore\n", None);
    assert_eq!(titles(&app), vec!["One"]);
    assert_eq!(app.sections[0].doc_comment, Some(vec!["AAA".to_string()]));
    assert_eq!(app.message, Some("Saved".to_string()));
    assert_eq!(app.file_offsets.cumulative_before("a.md", 2), 1);
}

#[test]
fn a_save_records_the_net_line_change_at_the_first_line_of_the_section() {
    let mut disk = disk_with(&[("a.md", "# One\n\nA\n\n## Two\n\nB\n")]);
    let mut app = open(&disk, &["a.md"]);
    enter(&mut app, &disk);
    type_text(&mut app, "a\nb\nc");
    save_current(&mut app, &mut disk).unwrap();
    assert_eq!(disk["a.md"], "# One\n\na\nb\nc\n## Two\n\nB\n");
    assert_eq!(app.file_offsets.cumulative_before("a.md", 1), 0);
    assert_eq!(app.file_offsets.cumulative_before("a.md", 2), 1);
    assert_eq!(app.cumulative_offset(0), 0);
    assert_eq!(app.cumulative_offset(1), 1);
}

#[test]
fn the_drift_of_a_save_depends_on_the_lines_it_replaced() {
    let text = "# One\n\nA\n\n## Two\n\n1\n2\n3\n4\n5\n6\n";
    let mut disk = disk_with(&[("a.md", text)]);
    let mut app = open(&disk, &["a.md"]);
    enter(&mut app, &disk);
    type_text(&mut app, "x\ny\nz");
    save_current(&mut app, &mut disk).unwrap();
    assert_eq!(app.file_offsets.cumulative_before("a.md", 100), 1);

    let mut disk = disk_with(&[("a.md", text)]);
    let mut app = open(&disk, &["a.md"]);
    app.current_node_index = 1;
    enter(&mut app, &disk);
    type_text(&mut app, "x\ny\nz");
    save_current(&mut app, &mut disk).unwrap();
    assert_eq!(disk["a.md"], "# One\n\nA\n\n## Two\n\nx\ny\nz\n");
    assert_eq!(app.file_offsets.cumulative_before("a.md", 5), 0);
    assert_eq!(app.file_offsets.cumulative_before("a.md", 6), -3);
}

#[test]
fn a_second_save_at_the_same_line_replaces_the_drift() {
    let mut disk = disk_with(&[("a.md", "# One\n\nA\n\n## Two\n\nB\n")]);
    let mut app = open(&disk, &["a.md"]);
    enter(&mut app, &disk);
    type_text(&mut app, "a\nb\nc\nd");
    save_current(&mut app, &mut disk).unwrap();
    assert_eq!(app.file_offsets.cumulative_before("a.md", 2), 2);
    type_text(&mut app, "a");
    save_current(&mut app, &mut disk).unwrap();
    assert_eq!(disk["a.md"], "# One\n\na\n## Two\n\nB\n");
    assert_eq!(app.file_offsets.cumulative_before("a.md", 2), -3);
}

#[test]
fn remove_file_keeps_the_other_sections_in_order() {
    let list = vec![
        section("a.md", "1", 1),
        section("b.md", "2", 1),
        section("a.md", "3", 1),
        section("c.md", "4", 1),
    ];
    let kept: Vec<String> = remove_file(list, "a.md").iter().map(|s| s.title.clone()).collect();
    assert_eq!(kept, vec!["2", "4"]);
}

#[test]
fn find_match_goes_by_title_and_level() {
    let list = vec![section("a.md", "X", 2), section("a.md", "X", 1), section("a.md", "X", 1)];
    assert_eq!(find_match(&list, "X", 1), Some(1));
    assert_eq!(find_match(&list, "X", 2), Some(0));
    assert_eq!(find_match(&list, "X", 3), None);
    assert_eq!(find_match(&list, "Y", 1), None);
}

#[test]
fn the_edit_plan_holds_the_sections_with_buffered_lines() {
    let disk = disk_with(&[("a.md", "# One\n\nA\n\n## Two\n\nB\n\n### Three\n\nC\n")]);
    let mut app = open(&disk, &["a.md"]);
    assert!(app.generate_edit_plan().edits.is_empty());
    app.sections[2].doc_comment = Some(vec!["x".to_string(), "y".to_string()]);
    app.sections[0].doc_comment = Some(vec![]);
    let plan = app.generate_edit_plan();
    assert_eq!(plan.edits.len(), 2);
    assert_eq!(plan.edits[0].item_name, "One");
    assert_eq!(plan.edits[0].doc_comment, "");
    assert_eq!(plan.edits[1].item_name, "Three");
    assert_eq!(plan.edits[1].file_name, "a.md");
    assert_eq!(plan.edits[1].line_start, 9);
    assert_eq!(plan.edits[1].line_end, 11);
    assert_eq!(plan.edits[1].column_start, 0);
    assert_eq!(plan.edits[1].column_end, 9);
    assert_eq!(plan.edits[1].doc_comment, "x\ny");
}

#[test]
fn test_edit_plan_captures_changes() {
    let mut disk = disk_with(&[("a.md", "# Test\n\nOriginal\n")]);
    let mut app = open(&disk, &["a.md"]);
    enter(&mut app, &disk);
    type_text(&mut app, "\nModified\n");
    save_current(&mut app, &mut disk).unwrap();
    app.exit_detail_view(true);
    let plan = app.generate_edit_plan();
    assert!(!plan.edits.is_empty());
    assert_eq!(plan.edits[0].doc_comment, "\nModified\n");
    assert_eq!(plan.edits[0].doc_comment.trim(), "Modified");
    assert_eq!(disk["a.md"], "# Test\n\nModified\n");
}

#[test]
fn loading_a_plan_restores_buffered_lines() {
    let disk = disk_with(&[("a.md", "# One\n\nA\n\n## Two\n\nB\n")]);
    let mut app = open(&disk, &["a.md"]);
    app.sections[1].doc_comment = Some(vec!["x".to_string(), "y".to_string()]);
    let mut plan = app.generate_edit_plan();
    let mut again = plan.edits[0].clone();
    again.doc_comment = "last\nwins".to_string();
    plan.edits.push(again);
    let mut stray = plan.edits[0].clone();
    stray.line_start = 77;
    plan.edits.push(stray);
    let mut later = open(&disk, &["a.md"]);
    later.load_docs(&plan);
    assert_eq!(later.sections[0].doc_comment, None);
    assert_eq!(later.sections[1].doc_comment, Some(vec!["last".to_string(), "wins".to_string()]));
}

#[test]
fn a_move_starts_on_a_section_and_changes_nothing() {
    let disk = disk_with(&[("a.md", "# One\n\nA\n\n# Two\n\nB\n")]);
    let mut app = open(&disk, &["a.md"]);
    app.current_node_index = 1;
    app.start_move();
    assert_eq!(app.move_state, MoveState::Selected);
    assert_eq!(app.moving_section_index, Some(1));
    assert_eq!(titles(&app), vec!["One", "Two"]);
    assert_eq!(app.reorder_files(), None);
    app.cancel_move();
    assert_eq!(app.move_state, MoveState::Idle);
    assert_eq!(app.moving_section_index, None);
    app.current_node_index = 5;
    app.start_move();
    assert_eq!(app.move_state, MoveState::Idle);
    assert_eq!(app.moving_section_index, None);
}

#[test]
fn moves_are_clamped_at_the_ends_of_the_list() {
    let disk = disk_with(&[("a.md", "# One\n\nA\n\n# Two\n\nB\n\n# Three\n\nC\n")]);
    let mut app = open(&disk, &["a.md"]);
    assert!(!app.move_section_up());
    assert!(!app.move_section_down());
    app.start_move();
    assert!(!app.move_section_up());
    assert!(!app.move_section_to_top());
    assert_eq!(app.move_state, MoveState::Selected);
    assert!(app.move_section_down());
    assert_eq!(titles(&app), vec!["Two", "One", "Three"]);
    assert_eq!(app.moving_section_index, Some(1));
    assert_eq!(app.current_node_index, 1);
    assert_eq!(app.move_state, MoveState::Moved);
    assert!(app.move_section_down());
    assert!(!app.move_section_down());
    assert!(!app.move_section_to_bottom());
    assert_eq!(titles(&app), vec!["Two", "Three", "One"]);
    assert!(app.move_section_to_top());
    assert_eq!(titles(&app), vec!["One", "Two", "Three"]);
    assert_eq!(app.moving_section_index, Some(0));
    assert!(app.move_section_to_bottom());
    assert_eq!(titles(&app), vec!["Two", "Three", "One"]);
    assert_eq!(app.moving_section_index, Some(2));
    assert_eq!(app.current_node_index, 2);
    assert!(app.move_section_up());
    assert_eq!(titles(&app), vec!["Two", "One", "Three"]);
}

#[test]
fn levels_are_clamped_between_one_and_six() {
    let disk = disk_with(&[("a.md", "## One\n\nA\n")]);
    let mut app = open(&disk, &["a.md"]);
    assert!(!app.move_section_in());
    app.start_move();
    assert!(app.move_section_in());
    assert_eq!(app.sections[0].level, 1);
    assert_eq!(app.move_state, MoveState::Moved);
    assert!(!app.move_section_in());
    assert_eq!(app.sections[0].level, 1);
    for expected in 2..=6 {
        assert!(app.move_section_out());
        assert_eq!(app.sections[0].level, expected);
        assert_eq!(app.tree_nodes[0].tree_level, expected - 1);
    }
    assert!(!app.move_section_out());
    assert_eq!(app.sections[0].level, 6);
}

#[test]
fn rewrite_writes_headings_and_trimmed_bodies() {
    let text = "# One\n\nA\n\n\n## Two\n\n## Three\n B \n";
    let mut sections = parse("a.md", text);
    sections.push(section("b.md", "Other", 1));
    let out = AppState::rewrite_file_sections("a.md", text, &sections);
    assert_eq!(out, "# One\n\nA\n\n## Two\n\n## Three\n\nB\n\n");
    assert_eq!(AppState::rewrite_file_sections("c.md", text, &sections), "");
    sections[0].byte_end = 1000;
    sections[2].byte_start = 8;
    sections[2].byte_end = 7;
    let out = AppState::rewrite_file_sections("a.md", text, &sections);
    assert_eq!(out, "# One\n\n## Two\n\n## Three\n\n");
}

#[test]
fn moving_down_twice_and_in_once_then_saving_rewrites_the_file() {
    let mut disk = disk_with(&[(
        "a.md",
        "## Zero\n\nz\n\n## One\n\nA\n\n## Two\n\nB\n\n## Three\n\nC\n",
    )]);
    let mut app = open(&disk, &["a.md"]);
    app.current_node_index = 1;
    app.start_move();
    assert!(app.move_section_down());
    assert!(app.move_section_down());
    assert!(app.move_section_in());
    assert_eq!(app.reorder_files(), Some(vec!["a.md".to_string()]));
    assert_eq!(save_reorder(&mut app, &mut disk), 1);
    assert_eq!(
        disk["a.md"],
        "## Zero\n\nz\n\n## Two\n\nB\n\n## Three\n\nC\n\n# One\n\nA\n\n"
    );
    assert_eq!(titles(&app), vec!["Zero", "Two", "Three", "One"]);
    assert_eq!(app.sections[3].level, 1);
    assert_eq!(app.move_state, MoveState::Idle);
    assert_eq!(app.moving_section_index, None);
    assert_eq!(app.message, Some("Sections reordered".to_string()));
}

#[test]
fn moving_to_the_top_and_saving_puts_the_heading_first() {
    let mut disk = disk_with(&[("a.md", "# One\n\nA\n\n## Two\n\nB\n\n### Three\n\nC\n")]);
    let mut app = open(&disk, &["a.md"]);
    app.current_node_index = 2;
    app.start_move();
    assert!(app.move_section_to_top());
    let in_memory = titles(&app);
    save_reorder(&mut app, &mut disk);
    assert!(disk["a.md"].starts_with("### Three\n\n"));
    assert_eq!(titles(&app), in_memory);
    assert_eq!(titles(&app), vec!["Three", "One", "Two"]);
}

#[test]
fn a_cancelled_move_writes_nothing() {
    let original = "# One\n\nA\n\n# Two\n\nB\n";
    let mut disk = disk_with(&[("a.md", original)]);
    let mut app = open(&disk, &["a.md"]);
    app.start_move();
    assert!(app.move_section_down());
    app.cancel_move();
    assert_eq!(app.reorder_files(), None);
    assert_eq!(save_reorder(&mut app, &mut disk), 0);
    assert_eq!(disk["a.md"], original);
    let reparsed: Vec<String> =
        parse("a.md", &disk["a.md"]).iter().map(|s| s.title.clone()).collect();
    assert_eq!(reparsed, vec!["One", "Two"]);
    assert_eq!(titles(&app), vec!["Two", "One"]);
}

#[test]
fn a_reorder_rewrites_each_file_once() {
    let mut disk = disk_with(&[("a.md", "# A\n\nx\n\n# A2\n\ny\n"), ("b.md", "# B\n\nz\n")]);
    let mut app = open(&disk, &["a.md", "b.md"]);
    app.current_node_index = 1;
    app.start_move();
    assert!(app.move_section_to_bottom());
    assert_eq!(titles(&app), vec!["A2", "B", "A"]);
    assert_eq!(app.reorder_files(), Some(vec!["a.md".to_string(), "b.md".to_string()]));
    assert_eq!(save_reorder(&mut app, &mut disk), 2);
    assert_eq!(disk["a.md"], "# A2\n\ny\n\n# A\n\nx\n\n");
    assert_eq!(disk["b.md"], "# B\n\nz\n\n");
    assert_eq!(titles(&app), vec!["A2", "A", "B"]);
}

#[test]
fn a_reorder_starts_the_offset_tracker_over() {
    let mut disk = disk_with(&[("a.md", "# One\n\nA\n\n# Two\n\nB\n")]);
    let mut app = open(&disk, &["a.md"]);
    app.file_offsets.record("a.md", 0, 5);
    app.start_move();
    assert!(app.move_section_down());
    save_reorder(&mut app, &mut disk);
    assert_eq!(app.file_offsets.cumulative_before("a.md", 100), 0);
}

#[test]
fn rebuilding_the_tree_lets_the_selection_follow_its_section() {
    let disk = disk_with(&[("a.md", "# A\n\nx\n"), ("b.md", "# B\n\ny\n")]);
    let mut app = open(&disk, &["a.md", "b.md"]);
    app.current_node_index = 3;
    app.files = vec!["a.md".to_string()];
    app.rebuild_tree();
    assert_eq!(app.tree_nodes.len(), 2);
    assert_eq!(app.current_node_index, 3);
    app.current_node_index = 1;
    app.sections.swap(0, 1);
    app.rebuild_tree();
    assert_eq!(app.current_node_index, 1);
    app.mark_moved();
    assert_eq!(app.move_state, MoveState::Moved);
}
