use zc::api::{env_toolchain, error_tail, hint, hint_for_lowercase, nightly_in, parse_diff, trim_command_substitution};

fn strings(lines: &[&str]) -> Vec<String> {
    lines.iter().map(|line| (*line).to_owned()).collect()
}

#[test]
fn parses_all_diff_sections_and_interleaves_changed_pairs() {
    let output = "\
-outside section
+outside section

Removed items from the public API
=============================
-old::gone()
(none)

Changed items in the public API
=============================
-old::first()
+new::first()
= unchanged::item()
-old::second()

Added items to the public API
=============================
+new::added()
(none)

+new::also_added()
";

    let parsed = parse_diff(output);

    assert_eq!(parsed.removed, strings(&["old::gone()"]));
    assert_eq!(
        parsed.changed,
        strings(&[
            "  - old::first()",
            "  + new::first()",
            "  - old::second()",
            "  + ",
        ])
    );
    assert_eq!(
        parsed.added,
        strings(&["new::added()", "new::also_added()"])
    );
    assert_eq!(parsed.removed.len(), 1);
    assert_eq!(parsed.changed_old_count, 2);
    assert_eq!(parsed.added.len(), 2);
}

#[test]
fn selects_hints_case_insensitively_in_spec_order() {
    const INSTALL_PROTOC: &str = "Install protoc, for example brew install protobuf or apt-get install protobuf-compiler, then rerun zc.";
    const BUILD_SCRIPT: &str = "A build script failed. Run the command shown above to inspect the crate's build requirements.";
    const LOCKFILE: &str = "The lockfile or dependency resolution failed at this ref. Check Cargo.lock and rerun zc.";
    const TOOLCHAIN: &str = "The selected Rust toolchain cannot build this ref. Install the required toolchain and rerun zc.";
    const LIBRARY: &str = "cargo-public-api can only analyze library targets. Exclude this crate or add a library target.";
    const COMPILE: &str = "The crate did not compile under the selected feature set. Fix the build or choose a supported feature policy.";
    const FALLBACK: &str = "Run the command shown above and fix the failing crate build before trusting the API diff.";

    let cases = [
        ("PROTOC was not found", INSTALL_PROTOC),
        ("install protobuf-compiler", INSTALL_PROTOC),
        ("protoc: custom build command failed", INSTALL_PROTOC),
        ("failed to run custom build command", BUILD_SCRIPT),
        ("Cargo.lock needs to be updated", LOCKFILE),
        ("failed to read lock file", LOCKFILE),
        ("dependency lockfile is invalid", LOCKFILE),
        ("package requires rustc 1.90", TOOLCHAIN),
        ("rustc 1.70 is not supported", TOOLCHAIN),
        ("package has no library targets", LIBRARY),
        ("package does not have a library target", LIBRARY),
        ("could not compile example", COMPILE),
        ("an unrelated failure", FALLBACK),
    ];

    for (stderr, expected) in cases {
        assert_eq!(hint(stderr), expected, "stderr: {stderr}");
    }
}

#[test]
fn only_the_first_rustc_mention_is_checked_for_support() {
    assert!(hint("rustc 1.0 ok; later rustc 2 is not supported").starts_with("The selected"));
    assert!(hint("uses rustc fine").starts_with("Run the command"));
}

#[test]
fn hints_ignore_letter_case() {
    for stderr in ["Could Not Compile foo", "FAILED TO RUN CUSTOM BUILD COMMAND", "No Library Targets"] {
        assert_eq!(hint(stderr), hint(&stderr.to_lowercase()), "stderr: {stderr}");
        assert_eq!(hint(stderr), hint(&stderr.to_uppercase()), "stderr: {stderr}");
    }
}

#[test]
fn the_lowercase_hint_rules_are_case_sensitive() {
    assert!(hint_for_lowercase("could not compile x").starts_with("The crate did not compile"));
    assert!(hint_for_lowercase("COULD NOT COMPILE x").starts_with("Run the command"));
}

#[test]
fn the_error_tail_keeps_the_last_eighty_lines() {
    let mut text = String::new();
    for i in 0..100 {
        text.push_str(&format!("line {i}\r\n"));
    }
    let tail = error_tail(&text);
    assert!(tail.starts_with("line 20\n"));
    assert!(tail.ends_with("line 99"));
    assert_eq!(tail.lines().count(), 80);
    assert_eq!(
        error_tail("\n\n"),
        "public API analysis failed without writing stderr"
    );
    assert_eq!(error_tail("a\nb"), "a\nb");
}

#[test]
fn command_substitution_drops_trailing_newlines_only() {
    assert_eq!(trim_command_substitution("v1.2\n\n"), "v1.2");
    assert_eq!(trim_command_substitution(" x \n y"), " x \n y");
}

#[test]
fn the_environment_toolchain_wins_when_not_empty() {
    assert_eq!(env_toolchain(Some("nightly-2024-01-01")), Some("nightly-2024-01-01".to_string()));
    assert_eq!(env_toolchain(Some("")), None);
    assert_eq!(env_toolchain(None), None);
}

#[test]
fn the_first_nightly_toolchain_is_selected() {
    let list = "stable-x86_64-unknown-linux-gnu (default)\nnightly-2024-05-01-x86_64-unknown-linux-gnu\nnightly-x86_64-unknown-linux-gnu\n";
    assert_eq!(nightly_in(list), Some("nightly-2024-05-01-x86_64-unknown-linux-gnu".to_string()));
    assert_eq!(nightly_in("stable-x86_64-unknown-linux-gnu (default)\n"), None);
}
