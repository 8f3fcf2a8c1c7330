use honu::candidate::Candidate;
use honu::command::Command;

const NOW: i64 = 2_000_000_000_000_000_000;

fn candidate(command: Command) -> Candidate {
    Candidate::new(command, NOW)
}

#[test]
fn display_aligns_age_directory_command_and_nonzero_exit_code() {
    let item = candidate(Command {
        directory: Some("/foo".into()),
        exit_code: Some(1),
        text: "bar".into(),
        timestamp_ns: NOW - 12_000_000_000,
    });

    assert_eq!(item.row().as_deref(), Some(" 12s  foo        [1]    bar"));
}

#[test]
fn display_ellipsizes_directory_by_terminal_width() {
    fn case(directory: &str, expected: &str) {
        assert_eq!(
            candidate(Command {
                directory: Some(directory.into()),
                ..Default::default()
            })
            .directory(),
            expected,
        );
    }

    case("/foobarbazqux", "foobarba…");
    case("/foo界界界界", "foo界界…");
}

#[test]
fn display_hides_zero_exit_code_and_uses_cwd_basename() {
    assert_eq!(
        candidate(Command {
            directory: Some("/foo/baz".into()),
            exit_code: Some(0),
            text: "bar".into(),
            timestamp_ns: NOW - 8 * 60 * 1_000_000_000,
        })
        .row()
        .as_deref(),
        Some("  8m  baz               bar"),
    );
}

#[test]
fn display_keeps_multiline_commands_on_one_row() {
    assert_eq!(
        candidate(Command {
            text: "foo\n\tbar".into(),
            timestamp_ns: NOW,
            ..Default::default()
        })
        .row()
        .as_deref(),
        Some("  0s                    foo  bar"),
    );
}

#[test]
fn display_preserves_empty_metadata_columns() {
    let item = candidate(Command {
        text: "foo".into(),
        timestamp_ns: 1,
        ..Default::default()
    });

    assert_eq!(item.row().as_deref(), Some("                        foo"));
}

#[test]
fn relative_age_uses_compact_units() {
    fn case(age_seconds: i64, expected: &str) {
        assert_eq!(
            candidate(Command {
                timestamp_ns: NOW - age_seconds * 1_000_000_000,
                ..Default::default()
            })
            .relative_age(),
            expected,
        );
    }

    case(12, "12s");
    case(8 * 60, "8m");
    case(3 * 60 * 60, "3h");
    case(4 * 24 * 60 * 60, "4d");
    case(5 * 30 * 24 * 60 * 60, "5mo");
    case(2 * 365 * 24 * 60 * 60, "2y");

    assert_eq!(
        candidate(Command {
            timestamp_ns: NOW + 1,
            ..Default::default()
        })
        .relative_age(),
        "0s",
    );

    assert_eq!(
        candidate(Command {
            timestamp_ns: 1,
            ..Default::default()
        })
        .relative_age(),
        "",
    );
}

#[test]
fn skim_item_matches_and_outputs_original_command() {
    let item = candidate(Command {
        directory: Some("/baz".into()),
        exit_code: Some(1),
        text: "foo\nbar".into(),
        ..Default::default()
    });

    assert_eq!(item.text(), "foo\nbar");
    assert_eq!(item.output(), "foo\nbar");
}

#[test]
fn relative_age_rounds_down_at_unit_boundaries() {
    fn case(age_ns: i64, expected: &str) {
        assert_eq!(
            candidate(Command {
                timestamp_ns: NOW - age_ns,
                ..Default::default()
            })
            .relative_age(),
            expected,
        );
    }

    case(59_999_999_999, "59s");
    case(60_000_000_000, "1m");
    case(24 * 60 * 60 * 1_000_000_000 - 1, "23h");
    case(365 * 24 * 60 * 60 * 1_000_000_000 - 1, "12mo");
}

#[test]
fn exit_code_shows_failures_only() {
    fn case(exit_code: Option<i32>, expected: &str) {
        assert_eq!(
            candidate(Command {
                exit_code,
                ..Default::default()
            })
            .exit_code(),
            expected,
        );
    }

    case(None, "");
    case(Some(0), "");
    case(Some(127), "[127]");
    case(Some(-1), "[-1]");
    case(Some(i32::MIN), "[-2147483648]");
}

#[test]
fn command_replaces_every_control_character() {
    assert_eq!(
        candidate(Command {
            text: "a\u{0}b\u{1b}c\u{7f}d\u{85}e\u{a0}f".into(),
            ..Default::default()
        })
        .command(),
        "a b c d e\u{a0}f",
    );
}

#[test]
fn directory_column_pads_to_its_width() {
    assert_eq!(
        candidate(Command {
            directory: Some("/a/b/".into()),
            ..Default::default()
        })
        .directory_column()
        .as_deref(),
        Some("b        "),
    );
    assert_eq!(
        candidate(Command::default()).directory_column().as_deref(),
        Some("         "),
    );
}
