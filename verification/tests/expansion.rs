use kd::expand::{
    count_argsfile_tokens, fresh_argsfile_name, render_args_file,
    replace_magic_strings_with_kd_args, u32_decimal,
};
use kd::runner::{interpret_wait_status, split_command, RunError};

fn strings(v: &[&str]) -> Vec<String> {
    v.iter().map(|s| s.to_string()).collect()
}

#[test]
fn args_token_splices_all_trailing_arguments_in_place() {
    let raw = strings(&["-v", "{{ARGS}}", "--done"]);
    let kd_args = strings(&["extra1", "b c", "extra3"]);
    let out = replace_magic_strings_with_kd_args(raw, &kd_args, Vec::new());
    assert_eq!(out, strings(&["-v", "extra1", "b c", "extra3", "--done"]));
}

#[test]
fn args_token_with_no_trailing_arguments_vanishes() {
    let raw = strings(&["{{ARGS}}"]);
    let out = replace_magic_strings_with_kd_args(raw, &Vec::new(), Vec::new());
    assert!(out.is_empty());
}

#[test]
fn argsfile_token_becomes_one_path_per_occurrence() {
    let raw = strings(&["a", "{{ARGSFILE}}", "b", "{{ARGSFILE}}"]);
    assert_eq!(count_argsfile_tokens(&raw), 2);
    let paths = strings(&["/tmp/kd-1", "/tmp/kd-2"]);
    let out = replace_magic_strings_with_kd_args(raw, &strings(&["x"]), paths);
    assert_eq!(out, strings(&["a", "/tmp/kd-1", "b", "/tmp/kd-2"]));
}

#[test]
fn substitution_needs_whole_token_equality() {
    let raw = strings(&["pre{{ARGS}}post", "{{ARGSFILE}}suffix"]);
    assert_eq!(count_argsfile_tokens(&raw), 0);
    let out = replace_magic_strings_with_kd_args(raw.clone(), &strings(&["x"]), Vec::new());
    assert_eq!(out, raw);
}

#[test]
fn mytool_example_forwards_trailing_arguments() {
    let (program, template) = split_command(&String::from("mytool {{ARGS}}")).unwrap();
    assert_eq!(program, "mytool");
    let kd_args = strings(&["extra1", "extra2"]);
    let n = count_argsfile_tokens(&template);
    assert_eq!(n, 0);
    let out = replace_magic_strings_with_kd_args(template, &kd_args, Vec::new());
    assert_eq!(out, strings(&["extra1", "extra2"]));
}

#[test]
fn echo_example_splits_into_program_and_args() {
    let (program, template) = split_command(&String::from("echo Hello World!")).unwrap();
    assert_eq!(program, "echo");
    let out = replace_magic_strings_with_kd_args(template, &Vec::new(), Vec::new());
    assert_eq!(out, strings(&["Hello", "World!"]));
}

#[test]
fn split_command_honours_shell_quoting() {
    let (program, template) = split_command(&String::from("say 'one two' three")).unwrap();
    assert_eq!(program, "say");
    assert_eq!(template, strings(&["one two", "three"]));
}

#[test]
fn unbalanced_quote_is_a_lexing_error() {
    let r = split_command(&String::from("tool 'unclosed"));
    assert!(matches!(r, Err(RunError::Lex(_))));
}

#[test]
fn empty_template_has_no_program() {
    assert!(matches!(
        split_command(&String::from("")),
        Err(RunError::EmptyCommand)
    ));
    assert!(matches!(
        split_command(&String::from("   ")),
        Err(RunError::EmptyCommand)
    ));
}

#[test]
fn args_file_round_trips_line_by_line() {
    let contents = render_args_file(&strings(&["a", "b c", "d"]));
    assert_eq!(contents, "a\nb c\nd\n");
    let lines: Vec<&str> = contents.lines().collect();
    assert_eq!(lines, vec!["a", "b c", "d"]);
}

#[test]
fn empty_argument_list_renders_an_empty_file() {
    assert_eq!(render_args_file(&Vec::new()), "");
}

#[test]
fn decimal_rendering_is_exact() {
    assert_eq!(u32_decimal(0), "0");
    assert_eq!(u32_decimal(7), "7");
    assert_eq!(u32_decimal(12345), "12345");
    assert_eq!(u32_decimal(u32::MAX), "4294967295");
}

#[test]
fn fresh_argsfile_names_have_the_fixed_prefix_and_a_numeric_suffix() {
    let name = fresh_argsfile_name();
    assert!(name.starts_with("kd-"));
    let suffix = &name["kd-".len()..];
    assert!(suffix.parse::<u32>().is_ok());
}

#[test]
fn wait_status_keeps_exit_codes_and_flags_signals() {
    assert_eq!(interpret_wait_status(Some(0)), Ok(0));
    assert_eq!(interpret_wait_status(Some(42)), Ok(42));
    assert_eq!(
        interpret_wait_status(None),
        Err(RunError::TerminatedBySignal)
    );
}
