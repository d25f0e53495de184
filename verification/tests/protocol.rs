use asterism::app_state::{AppState, MoveState, View};
use asterism::protocol::{
    parse_command, AfterSave, Command, CommandEffect, Key, KeyPress, ListAction,
};
use asterism::section::Section;
use edtui::{EditorMode, EditorState, Lines};

fn section(file: &str, title: &str, level: usize) -> Section {
    Section {
        title: title.to_string(),
        level,
        line_start: 0,
        line_end: 0,
        column_start: 0,
        column_end: 0,
        byte_start: 0,
        byte_end: 0,
        file_path: file.to_string(),
        parent_index: None,
        children_indices: vec![],
        doc_comment: None,
        chunk_type: None,
        lhs_content: None,
        rhs_content: None,
    }
}

fn single() -> AppState {
    let sections = vec![section("a.md", "One", 1), section("a.md", "Two", 1)];
    AppState::new(vec!["a.md".to_string()], sections, 80)
}

fn multi() -> AppState {
    let sections = vec![section("a.md", "One", 1), section("b.md", "Two", 1)];
    AppState::new(vec!["a.md".to_string(), "b.md".to_string()], sections, 80)
}

fn with_editor(mut app: AppState, text: &str) -> AppState {
    app.enter_detail_view(Some(""));
    app.editor_state = Some(EditorState::new(Lines::from(text)));
    app
}

fn run(app: &mut AppState, line: &str) -> CommandEffect {
    assert!(app.open_command_line());
    app.command_buffer.push_str(line);
    app.execute_command()
}

#[test]
fn commands_are_read_from_the_command_line() {
    assert_eq!(parse_command("w"), Command::Write);
    assert_eq!(parse_command("x"), Command::WriteQuit);
    assert_eq!(parse_command("q"), Command::Quit);
    assert_eq!(parse_command("q!"), Command::Quit);
    assert_eq!(parse_command("wn"), Command::WriteNext);
    assert_eq!(parse_command("wp"), Command::WritePrev);
    assert_eq!(parse_command(""), Command::Unknown);
    assert_eq!(parse_command("wq"), Command::Unknown);
    assert_eq!(parse_command(" w"), Command::Unknown);
}

#[test]
fn the_command_line_opens_from_the_list_and_closes_on_escape() {
    let mut app = single();
    app.message = Some("old".to_string());
    app.command_buffer = "junk".to_string();
    assert!(app.intercepts_keys());
    assert!(app.open_command_line());
    assert_eq!(app.current_view, View::Command);
    assert_eq!(app.command_buffer, "");
    assert_eq!(app.message, None);
    assert!(!app.open_command_line());
    app.command_buffer.push('w');
    assert!(app.escape());
    assert_eq!(app.current_view, View::List);
    assert_eq!(app.command_buffer, "");
}

#[test]
fn the_detail_view_hands_keys_to_the_editor_outside_normal_mode() {
    let mut app = with_editor(single(), "text");
    assert_eq!(app.current_view, View::Detail);
    assert!(app.intercepts_keys());
    app.editor_state.as_mut().unwrap().mode = EditorMode::Insert;
    assert!(!app.intercepts_keys());
    assert!(!app.open_command_line());
    assert!(!app.escape());
    assert_eq!(app.current_view, View::Detail);
    assert!(app.editor_state.is_some());
    app.editor_state.as_mut().unwrap().mode = EditorMode::Normal;
    assert!(app.open_command_line());
    assert_eq!(app.current_view, View::Command);
}

#[test]
fn escape_leaves_the_detail_view_without_saving() {
    let mut app = with_editor(single(), "text");
    assert!(app.escape());
    assert_eq!(app.current_view, View::List);
    assert!(app.editor_state.is_none());
    assert_eq!(app.sections[0].doc_comment, None);
}

#[test]
fn escape_in_the_list_calls_off_a_move() {
    let mut app = single();
    app.start_move();
    assert!(app.move_section_down());
    assert!(app.escape());
    assert_eq!(app.move_state, MoveState::Idle);
    assert_eq!(app.moving_section_index, None);
    assert_eq!(app.sections[0].title, "Two");
    assert!(app.escape());
    assert_eq!(app.current_view, View::List);
}

#[test]
fn without_a_section_the_detail_view_takes_no_keys() {
    let mut app = single();
    app.current_view = View::Detail;
    assert!(!app.intercepts_keys());
    assert!(!app.open_command_line());
    assert!(!app.escape());
}

#[test]
fn write_saves_the_open_section_and_stays() {
    let mut app = with_editor(single(), "text");
    let effect = run(&mut app, "w");
    assert_eq!(effect, CommandEffect::SaveCurrent { then: AfterSave::Stay });
    assert_eq!(app.current_view, View::List);
    assert_eq!(app.command_buffer, "");
    assert!(app.editor_state.is_some());
    app.saved(AfterSave::Stay);
    assert_eq!(app.current_view, View::Detail);
    assert!(app.editor_state.is_some());
}

#[test]
fn write_with_nothing_to_save_says_so() {
    let mut app = single();
    assert_eq!(run(&mut app, "w"), CommandEffect::Done);
    assert_eq!(app.message, Some("Nothing to save".to_string()));
    assert_eq!(app.current_view, View::List);
    let mut app = single();
    assert_eq!(run(&mut app, "x"), CommandEffect::Done);
    assert_eq!(app.message, None);
    assert_eq!(run(&mut app, "wn"), CommandEffect::Done);
    assert_eq!(run(&mut app, "wp"), CommandEffect::Done);
    assert_eq!(app.message, None);
}

#[test]
fn write_saves_a_reorder_that_is_under_way() {
    let mut app = single();
    app.start_move();
    assert_eq!(run(&mut app, "w"), CommandEffect::Done);
    assert!(app.move_section_down());
    assert_eq!(run(&mut app, "w"), CommandEffect::SaveReorder);
    assert_eq!(app.move_state, MoveState::Moved);
    assert_eq!(run(&mut app, "x"), CommandEffect::SaveReorder);
    assert_eq!(app.current_view, View::List);
}

#[test]
fn write_and_quit_leaves_for_the_list_with_the_lines_kept() {
    let mut app = with_editor(single(), "a\nb");
    let effect = run(&mut app, "x");
    assert_eq!(effect, CommandEffect::SaveCurrent { then: AfterSave::Leave });
    app.saved(AfterSave::Leave);
    assert_eq!(app.current_view, View::List);
    assert!(app.editor_state.is_none());
    assert_eq!(app.sections[0].doc_comment, Some(vec!["a".to_string(), "b".to_string()]));
    assert_eq!(app.current_node_index, 0);
}

#[test]
fn write_and_next_advances_the_selection() {
    let mut app = with_editor(single(), "a");
    let effect = run(&mut app, "wn");
    assert_eq!(effect, CommandEffect::SaveCurrent { then: AfterSave::Next });
    app.saved(AfterSave::Next);
    assert_eq!(app.current_view, View::List);
    assert!(app.editor_state.is_none());
    assert_eq!(app.current_node_index, 1);
    assert_eq!(app.sections[0].doc_comment, Some(vec!["a".to_string()]));
    let mut app = with_editor(app, "b");
    assert_eq!(run(&mut app, "wn"), CommandEffect::SaveCurrent { then: AfterSave::Next });
    app.saved(AfterSave::Next);
    assert_eq!(app.message, Some("No more sections".to_string()));
    assert_eq!(app.current_node_index, 1);
    assert!(app.editor_state.is_some());
}

#[test]
fn write_and_previous_goes_back() {
    let mut app = single();
    app.current_node_index = 1;
    let mut app = with_editor(app, "b");
    assert_eq!(run(&mut app, "wp"), CommandEffect::SaveCurrent { then: AfterSave::Prev });
    app.saved(AfterSave::Prev);
    assert_eq!(app.current_node_index, 0);
    assert_eq!(app.sections[1].doc_comment, Some(vec!["b".to_string()]));
    let mut app = with_editor(app, "a");
    assert_eq!(run(&mut app, "wp"), CommandEffect::SaveCurrent { then: AfterSave::Prev });
    app.saved(AfterSave::Prev);
    assert_eq!(app.message, Some("No previous sections".to_string()));
    assert_eq!(app.current_node_index, 0);
}

#[test]
fn quit_discards_the_editor_first() {
    let mut app = with_editor(single(), "text");
    assert_eq!(run(&mut app, "q"), CommandEffect::Done);
    assert!(app.editor_state.is_none());
    assert_eq!(app.current_view, View::List);
    assert_eq!(app.sections[0].doc_comment, None);
}

#[test]
fn quit_calls_off_a_move_before_it_leaves() {
    let mut app = single();
    app.start_move();
    assert_eq!(run(&mut app, "q!"), CommandEffect::Done);
    assert_eq!(app.move_state, MoveState::Idle);
    assert_eq!(app.moving_section_index, None);
    assert_eq!(run(&mut app, "q"), CommandEffect::Quit);
}

#[test]
fn quit_leaves_for_the_files_where_there_are_several() {
    let mut app = multi();
    assert_eq!(run(&mut app, "q"), CommandEffect::ShowFiles);
    assert_eq!(app.current_view, View::List);
}

#[test]
fn an_unknown_command_leaves_a_message() {
    let mut app = with_editor(single(), "text");
    assert_eq!(run(&mut app, "frobnicate"), CommandEffect::Done);
    assert_eq!(app.message, Some("Unknown command: frobnicate".to_string()));
    assert_eq!(app.command_buffer, "");
    assert_eq!(app.current_view, View::List);
    assert!(app.editor_state.is_some());
}

#[test]
fn a_failed_save_returns_to_the_list_with_the_error() {
    let mut app = single();
    app.start_move();
    assert!(app.move_section_down());
    app.current_view = View::Command;
    app.save_failed("disk full");
    assert_eq!(app.message, Some("Error saving: disk full".to_string()));
    assert_eq!(app.current_view, View::List);
    assert_eq!(app.move_state, MoveState::Idle);
    assert_eq!(app.moving_section_index, None);
}

fn press(key: Key) -> KeyPress {
    KeyPress { key, ctrl: false, shift: false }
}

fn ctrl(key: Key) -> KeyPress {
    KeyPress { key, ctrl: true, shift: false }
}

fn shift(key: Key) -> KeyPress {
    KeyPress { key, ctrl: false, shift: true }
}

#[test]
fn plain_keys_navigate() {
    let app = single();
    assert_eq!(app.list_action(press(Key::Up)), ListAction::SelectPrev);
    assert_eq!(app.list_action(press(Key::Down)), ListAction::SelectNext);
    assert_eq!(app.list_action(press(Key::Left)), ListAction::SelectParent);
    assert_eq!(app.list_action(press(Key::Char('h'))), ListAction::SelectParent);
    assert_eq!(app.list_action(press(Key::Right)), ListAction::SelectDescendant);
    assert_eq!(app.list_action(press(Key::Char('l'))), ListAction::SelectDescendant);
    assert_eq!(app.list_action(press(Key::Home)), ListAction::SelectFirst);
    assert_eq!(app.list_action(press(Key::End)), ListAction::SelectLast);
    assert_eq!(app.list_action(press(Key::Enter)), ListAction::EnterDetail);
    assert_eq!(app.list_action(press(Key::Esc)), ListAction::Escape);
    assert_eq!(app.list_action(press(Key::Char(':'))), ListAction::OpenCommandLine);
    assert_eq!(app.list_action(press(Key::Char('z'))), ListAction::Ignore);
    assert_eq!(app.list_action(press(Key::Other)), ListAction::Ignore);
}

#[test]
fn shifted_keys_go_by_siblings_and_levels() {
    let app = single();
    assert_eq!(app.list_action(shift(Key::Up)), ListAction::SelectPrevSibling);
    assert_eq!(app.list_action(shift(Key::Down)), ListAction::SelectNextSibling);
    assert_eq!(app.list_action(shift(Key::Home)), ListAction::SelectFirstAtLevel);
    assert_eq!(app.list_action(shift(Key::End)), ListAction::SelectLastAtLevel);
}

#[test]
fn control_keys_start_and_steer_a_move() {
    let mut app = single();
    assert_eq!(app.list_action(ctrl(Key::Up)), ListAction::StartMove);
    assert_eq!(app.list_action(ctrl(Key::Down)), ListAction::StartMove);
    assert_eq!(app.list_action(ctrl(Key::Left)), ListAction::Ignore);
    assert_eq!(app.list_action(ctrl(Key::Right)), ListAction::Ignore);
    assert_eq!(app.list_action(ctrl(Key::Home)), ListAction::Ignore);
    assert_eq!(app.list_action(ctrl(Key::End)), ListAction::Ignore);
    app.start_move();
    assert_eq!(app.list_action(ctrl(Key::Up)), ListAction::MoveUp);
    assert_eq!(app.list_action(ctrl(Key::Down)), ListAction::MoveDown);
    assert_eq!(app.list_action(ctrl(Key::Left)), ListAction::MoveIn);
    assert_eq!(app.list_action(ctrl(Key::Char('h'))), ListAction::MoveIn);
    assert_eq!(app.list_action(ctrl(Key::Right)), ListAction::MoveOut);
    assert_eq!(app.list_action(ctrl(Key::Char('l'))), ListAction::MoveOut);
    assert_eq!(app.list_action(ctrl(Key::Home)), ListAction::MoveToTop);
    assert_eq!(app.list_action(ctrl(Key::End)), ListAction::MoveToBottom);
    assert_eq!(app.list_action(press(Key::Enter)), ListAction::Ignore);
}

#[test]
fn q_quits_a_single_file_and_shows_the_files_of_several() {
    assert_eq!(single().list_action(press(Key::Char('q'))), ListAction::Quit);
    assert_eq!(multi().list_action(press(Key::Char('q'))), ListAction::ShowFiles);
}
