use zc::cli::{parse_args, Args};
use zc::model::{FailOn, GroupMode, EXIT_OK, EXIT_USAGE};
use zc::style::Style;

fn parse(argv: &[&str]) -> Result<Args, (String, i32)> {
    parse_args(
        argv.iter().map(|arg| arg.to_string()).collect(),
        &Style::default(),
    )
}

#[test]
fn no_destination_is_requested_by_default() {
    let args = parse(&["main"]).expect("a bare ref parses");
    assert_eq!(args.opts.report_path, None);
    assert_eq!(args.opts.changelog_path, None);
    assert!(!args.opts.changelog_mode);
}

#[test]
fn changelog_file_takes_a_path_without_selecting_changelog_mode() {
    let args = parse(&["--changelog-file", "out/notes.md", "main"]).expect("the flag parses");
    assert_eq!(args.opts.changelog_path, Some("out/notes.md".to_string()));
    assert!(!args.opts.changelog_mode);
    assert_eq!(args.positional, vec!["main".to_string()]);
}

#[test]
fn changelog_file_composes_with_the_other_destinations() {
    let args = parse(&[
        "--changelog",
        "--changelog-file",
        "notes.md",
        "--report",
        "report.json",
        "--fail-on",
        "none",
    ])
    .expect("the flags compose");
    assert_eq!(args.opts.changelog_path, Some("notes.md".to_string()));
    assert_eq!(args.opts.report_path, Some("report.json".to_string()));
    assert!(args.opts.changelog_mode);
    assert_eq!(args.opts.fail_on, FailOn::Never);
}

#[test]
fn changelog_file_without_a_value_is_a_usage_error() {
    let Err((message, code)) = parse(&["--changelog-file"]) else {
        panic!("a flag with no value is rejected");
    };
    assert_eq!(code, EXIT_USAGE);
    assert_eq!(
        message,
        "error: '--changelog-file' needs a value (run with --help for usage)"
    );
}

#[test]
fn flags_set_modes_and_the_last_grouping_wins() {
    let args = parse(&["--with-lock", "--with-values", "--json", "--flat", "--by-type", "a", "b"])
        .expect("flags parse");
    assert!(args.opts.with_lock);
    assert!(args.opts.with_values);
    assert!(args.opts.json_mode);
    assert_eq!(args.opts.group_mode, GroupMode::Type);
    assert_eq!(args.positional, vec!["a".to_string(), "b".to_string()]);
}

#[test]
fn a_double_dash_ends_the_options() {
    let args = parse(&["--", "--json"]).expect("parses");
    assert!(!args.opts.json_mode);
    assert_eq!(args.positional, vec!["--json".to_string()]);
}

#[test]
fn unknown_options_and_extra_refs_are_usage_errors() {
    let Err((message, code)) = parse(&["--bogus"]) else {
        panic!("unknown option accepted");
    };
    assert_eq!(code, EXIT_USAGE);
    assert_eq!(message, "error: unknown option '--bogus' (run with --help for usage)");
    let Err((message, code)) = parse(&["a", "b", "c"]) else {
        panic!("three refs accepted");
    };
    assert_eq!(code, EXIT_USAGE);
    assert_eq!(
        message,
        "error: too many positional arguments, expected at most 2 (run with --help for usage)"
    );
    let Err((message, code)) = parse(&["--fail-on", "sometimes"]) else {
        panic!("bad policy accepted");
    };
    assert_eq!(code, EXIT_USAGE);
    assert_eq!(
        message,
        "error: invalid --fail-on value 'sometimes', expected breaking, api-breaking, error, or none (run with --help for usage)"
    );
}

#[test]
fn help_and_version_exit_cleanly() {
    let Err((message, code)) = parse(&["-V"]) else {
        panic!("version not printed");
    };
    assert_eq!(code, EXIT_OK);
    assert_eq!(message, "zc 0.1.0");
    let Err((message, code)) = parse(&["--help"]) else {
        panic!("help not printed");
    };
    assert_eq!(code, EXIT_OK);
    assert!(message.starts_with("zc:"));
}
