use kd::config::KdConfig;
use kd::loader::ParseError;

#[test]
fn test_parsing_json() {
    let data = r#"
        {
            "hello": {
              "cmd": "echo Hello World!",
              "help": "Prints a friendly message"
            }
        }"#;
    let result = KdConfig::parse_commands(&data.as_bytes().to_vec());
    assert!(result.is_ok());

    let mapping = result.unwrap();
    assert!(mapping.get("hello").is_some());
    assert!(mapping.get("world").is_none());
}

#[test]
fn test_parsing_json_with_comments() {
    let data = r#"
        {
            // This is a helpful comment about a helpful command
            "hello": {
              /* Notice that we use the same phrase everyone else does?
                 That's on purpose. */
              "cmd": "echo Hello World!",
              "help": "Prints a friendly message"
            }
        }"#;
    let result = KdConfig::parse_commands(&data.as_bytes().to_vec());
    assert!(result.is_ok());

    let mapping = result.unwrap();
    assert!(mapping.get("hello").is_some());
    assert!(mapping.get("world").is_none());
}

#[test]
fn parsing_reads_fields_exactly() {
    let data = r#"{"hello": {"cmd": "echo Hello World!", "help": "greets"}}"#;
    let mapping = KdConfig::parse_commands(&data.as_bytes().to_vec()).unwrap();
    let entry = mapping.get("hello").unwrap();
    assert_eq!(entry.cmd, "echo Hello World!");
    assert_eq!(entry.help, "greets");
}

#[test]
fn commented_input_loads_like_hand_stripped_input() {
    let commented = r#"{
// a comment about hello
"hello": {"cmd": "echo hi", "help": "greets"} /* trailing note */
}"#;
    // The same bytes with each comment replaced by spaces by hand.
    let stripped = r#"{

"hello": {"cmd": "echo hi", "help": "greets"}
}"#;
    let a = KdConfig::parse_commands(&commented.as_bytes().to_vec()).unwrap();
    let b = KdConfig::parse_commands(&stripped.as_bytes().to_vec()).unwrap();
    assert_eq!(a, b);
}

#[test]
fn malformed_json_is_a_syntax_error() {
    let data = r#"{"hello": "#;
    let result = KdConfig::parse_commands(&data.as_bytes().to_vec());
    assert!(matches!(result, Err(ParseError::Syntax(_))));
}

#[test]
fn non_object_entry_is_a_syntax_error() {
    let data = r#"{"hello": "just a string"}"#;
    let result = KdConfig::parse_commands(&data.as_bytes().to_vec());
    assert!(matches!(result, Err(ParseError::Syntax(_))));
}

#[test]
fn unterminated_comment_is_a_syntax_error() {
    let data = r#"{"hello": {"cmd": "x", "help": "y"}} /* unclosed"#;
    let result = KdConfig::parse_commands(&data.as_bytes().to_vec());
    assert!(matches!(result, Err(ParseError::Syntax(_))));
}

#[test]
fn missing_cmd_field_is_reported_with_its_entry() {
    let data = r#"{"hello": {"help": "greets"}}"#;
    let result = KdConfig::parse_commands(&data.as_bytes().to_vec());
    match result {
        Err(ParseError::MissingField { name, field }) => {
            assert_eq!(name, "hello");
            assert_eq!(field, "cmd");
        }
        other => panic!("expected a missing-field error, got {:?}", other),
    }
}

#[test]
fn missing_help_field_is_reported_with_its_entry() {
    let data = r#"{"greet": {"cmd": "echo hi"}}"#;
    let result = KdConfig::parse_commands(&data.as_bytes().to_vec());
    match result {
        Err(ParseError::MissingField { name, field }) => {
            assert_eq!(name, "greet");
            assert_eq!(field, "help");
        }
        other => panic!("expected a missing-field error, got {:?}", other),
    }
}

#[test]
fn extra_fields_are_ignored() {
    let data = r#"{"hello": {"cmd": "echo hi", "help": "greets", "note": "extra"}}"#;
    let mapping = KdConfig::parse_commands(&data.as_bytes().to_vec()).unwrap();
    assert_eq!(mapping.get("hello").unwrap().cmd, "echo hi");
}

#[test]
fn help_entries_come_sorted_by_name() {
    let data = r#"{
        "zeta": {"cmd": "z", "help": "last"},
        "alpha": {"cmd": "a", "help": "first"},
        "mid": {"cmd": "m", "help": "middle"}
    }"#;
    let mapping = KdConfig::parse_commands(&data.as_bytes().to_vec()).unwrap();
    let listing = mapping.help_entries();
    let names: Vec<&str> = listing.iter().map(|p| p.0.as_str()).collect();
    assert_eq!(names, vec!["alpha", "mid", "zeta"]);
    assert_eq!(listing[0].1, "first");
    assert_eq!(listing[2].1, "last");
}

#[test]
fn duplicate_names_collapse_to_the_last_entry() {
    let data = r#"{
        "hello": {"cmd": "echo first", "help": "one"},
        "hello": {"cmd": "echo second", "help": "two"}
    }"#;
    let mapping = KdConfig::parse_commands(&data.as_bytes().to_vec()).unwrap();
    assert_eq!(mapping.entries.len(), 1);
    assert_eq!(mapping.get("hello").unwrap().cmd, "echo second");
}

#[test]
fn parse_keeps_the_root_directory() {
    let data = r#"{"hello": {"cmd": "echo hi", "help": "greets"}}"#;
    let config = KdConfig::parse(String::from("/some/project"), &data.as_bytes().to_vec()).unwrap();
    assert_eq!(config.root_path, "/some/project");
    assert!(config.commands_by_name.get("hello").is_some());
}
