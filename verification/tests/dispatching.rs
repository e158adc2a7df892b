use kd::config::KdConfig;
use kd::dispatch::{
    dispatch, first_run_message, help_prelude, is_help_trigger, no_subcommand_message,
    DispatchAction,
};
use kd::locate::{locate_from_probes, ProbeOutcome};

fn sample_config() -> KdConfig {
    let data = r#"{"hello": {"cmd": "echo Hello World!", "help": "greets"}}"#;
    KdConfig::parse(String::from("/project"), &data.as_bytes().to_vec()).unwrap()
}

#[test]
fn known_subcommand_runs_its_template_from_the_root_directory() {
    let action = dispatch(&Some(sample_config()), &String::from("hello"));
    assert_eq!(
        action,
        DispatchAction::RunCommand {
            cmd: String::from("echo Hello World!"),
            root_path: String::from("/project"),
        }
    );
}

#[test]
fn unknown_subcommand_is_reported_with_exit_one() {
    let action = dispatch(&Some(sample_config()), &String::from("nope"));
    assert_eq!(action, DispatchAction::ReportMissingSubcommand);
    assert_eq!(
        no_subcommand_message(&String::from("nope")),
        "No subcommand found called nope."
    );
}

#[test]
fn missing_configuration_gets_first_run_guidance() {
    let action = dispatch(&None, &String::from("hello"));
    assert_eq!(action, DispatchAction::ReportNoConfig);
    assert_eq!(
        first_run_message(),
        "You don't have a `.kdconfig` yet. Try making one."
    );
}

#[test]
fn help_triggers_show_help_even_without_a_configuration() {
    for name in ["-h", "--help", "help"] {
        assert!(is_help_trigger(&String::from(name)));
        assert_eq!(
            dispatch(&None, &String::from(name)),
            DispatchAction::ShowHelp
        );
        assert_eq!(
            dispatch(&Some(sample_config()), &String::from(name)),
            DispatchAction::ShowHelp
        );
    }
    assert!(!is_help_trigger(&String::from("hello")));
}

#[test]
fn help_prelude_is_the_usage_text() {
    assert_eq!(
        help_prelude(),
        "kd - A per-project command runner.\n\nUSAGE:\n  $ kd <subcommand> <subcommand arguments>\n"
    );
}

#[test]
fn discovery_settles_on_the_nearest_ancestor_with_the_file() {
    let probes = vec![
        ProbeOutcome::Missing,
        ProbeOutcome::Missing,
        ProbeOutcome::Found,
        ProbeOutcome::Missing,
    ];
    assert_eq!(locate_from_probes(&probes), Some(2));
    assert_eq!(locate_from_probes(&vec![ProbeOutcome::Found]), Some(0));
}

#[test]
fn discovery_reports_absence_when_no_ancestor_has_the_file() {
    let probes = vec![
        ProbeOutcome::Missing,
        ProbeOutcome::Missing,
        ProbeOutcome::Missing,
    ];
    assert_eq!(locate_from_probes(&probes), None);
    assert_eq!(locate_from_probes(&Vec::new()), None);
}

#[test]
fn an_unreadable_candidate_ends_discovery_like_absence() {
    let probes = vec![
        ProbeOutcome::Missing,
        ProbeOutcome::Unreadable,
        ProbeOutcome::Found,
    ];
    assert_eq!(locate_from_probes(&probes), None);
}
