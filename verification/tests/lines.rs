use asterism::edit_plan::{ApplyError, Edit};
use asterism::patch::added_lines;

fn edit(line_start: i64, line_end: i64, text: &str) -> Edit {
    Edit {
        file_name: "a.md".to_string(),
        line_start,
        line_end,
        column_start: 0,
        column_end: 0,
        doc_comment: text.to_string(),
        item_name: "test".to_string(),
    }
}

/// The lines of a text, counted by hand: one more than its line ends.
fn lines(text: &str) -> i64 {
    added_lines("", text) + 1
}

#[test]
fn a_text_has_one_line_more_than_line_ends() {
    assert_eq!(lines(""), 1);
    assert_eq!(lines("a"), 1);
    assert_eq!(lines("a\n"), 2);
    assert_eq!(lines("a\nb"), 2);
    assert_eq!(lines("\n\n\n"), 4);
}

#[test]
fn seven_characters_end_a_line() {
    assert_eq!(lines("a\u{000A}b"), 2);
    assert_eq!(lines("a\u{000B}b"), 2);
    assert_eq!(lines("a\u{000C}b"), 2);
    assert_eq!(lines("a\u{000D}b"), 2);
    assert_eq!(lines("a\u{0085}b"), 2);
    assert_eq!(lines("a\u{2028}b"), 2);
    assert_eq!(lines("a\u{2029}b"), 2);
    assert_eq!(lines("a\u{000B}b\u{000C}c\u{0085}d\u{2028}e\u{2029}f"), 6);
    assert_eq!(lines("a\tb c\u{00A0}d\u{200B}e"), 1);
}

#[test]
fn a_carriage_return_and_a_line_feed_end_a_line_together() {
    assert_eq!(lines("a\r\nb"), 2);
    assert_eq!(lines("\r\n"), 2);
    assert_eq!(lines("\r\r\n"), 3);
    assert_eq!(lines("\n\r"), 3);
    assert_eq!(lines("\r"), 2);
    assert_eq!(lines("a\r\n\r\nb\r"), 4);
}

#[test]
fn added_lines_is_the_difference_of_the_line_counts() {
    assert_eq!(added_lines("a\nb\n", "a\nb\n"), 0);
    assert_eq!(added_lines("a\nb\n", "a\n"), -1);
    assert_eq!(added_lines("a\n", "a\nb\nc\n"), 2);
    assert_eq!(added_lines("a\r\nb\r\n", "a\n"), -1);
}

#[test]
fn lines_start_right_behind_line_ends() {
    let text = "a\rb\r\nc\u{2028}d\n";
    assert_eq!(edit(0, 1, "X").apply_to(text).unwrap(), "\nX\nb\r\nc\u{2028}d\n");
    assert_eq!(edit(1, 2, "X").apply_to(text).unwrap(), "a\r\nX\nc\u{2028}d\n");
    assert_eq!(edit(2, 3, "X").apply_to(text).unwrap(), "a\rb\r\n\nX\nd\n");
    assert_eq!(edit(3, 4, "X").apply_to(text).unwrap(), "a\rb\r\nc\u{2028}\nX\n");
    assert_eq!(edit(4, 4, "X").apply_to(text).unwrap(), "a\rb\r\nc\u{2028}d\n\nX\n");
    assert!(matches!(edit(4, 5, "X").apply_to(text), Err(ApplyError::Rejected { .. })));
    assert!(matches!(edit(5, 5, "X").apply_to(text), Err(ApplyError::Rejected { .. })));
}

#[test]
fn the_last_line_of_a_text_without_a_final_line_end_can_only_be_inserted_before() {
    let text = "a\nb";
    assert_eq!(lines(text), 2);
    assert_eq!(edit(1, 1, "X").apply_to(text).unwrap(), "a\n\nX\nb");
    assert!(matches!(edit(1, 2, "X").apply_to(text), Err(ApplyError::Rejected { .. })));
}

#[test]
fn a_replacement_leaves_the_lines_above_it_where_they_start() {
    let text = "zero\none\ntwo\nthree\n";
    let once = edit(2, 3, "a\nb\nc").apply_to(text).unwrap();
    assert_eq!(once, "zero\none\n\na\nb\nc\nthree\n");
    let upper = edit(1, 2, "ONE").apply_to(&once).unwrap();
    assert_eq!(upper, "zero\n\nONE\n\na\nb\nc\nthree\n");
    let top = edit(0, 1, "ZERO").apply_to(&upper).unwrap();
    assert_eq!(top, "\nZERO\n\nONE\n\na\nb\nc\nthree\n");
}
