use asterism::config::Config;

#[test]
fn defaults_are_a_width_of_100_and_markdown_files() {
    let c = Config::default();
    assert_eq!(c.wrap_width, 100);
    assert_eq!(c.file_extensions, vec!["md".to_string()]);
}

#[test]
fn extensions_from_the_command_line_win() {
    let mut c = Config::default();
    c.override_extensions(vec!["txt".to_string(), "rst".to_string()]);
    assert_eq!(c.file_extensions, vec!["txt".to_string(), "rst".to_string()]);
    assert_eq!(c.wrap_width, 100);
}

#[test]
fn no_extensions_on_the_command_line_keep_the_configured_ones() {
    let mut c = Config { wrap_width: 80, file_extensions: vec!["org".to_string()] };
    c.override_extensions(vec![]);
    assert_eq!(c.file_extensions, vec!["org".to_string()]);
    let copy = c.clone();
    assert_eq!(copy.wrap_width, 80);
    assert_eq!(copy.file_extensions, vec!["org".to_string()]);
}
