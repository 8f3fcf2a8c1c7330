use honu::execution::Execution;

#[test]
fn directory() {
    assert_eq!(Execution::default().directory().unwrap(), None);

    assert_eq!(
        Execution {
            directory: Some("foo".into()),
            ..Default::default()
        }
        .directory()
        .unwrap(),
        Some("foo"),
    );
}

#[test]
fn listing_separates_timestamp_exit_code_and_command_with_tabs() {
    assert_eq!(
        Execution {
            command: "foo bar".into(),
            exit_code: Some(-2),
            timestamp_ns: -5,
            ..Default::default()
        }
        .listing(),
        "-5\t-2\tfoo bar",
    );
    assert_eq!(
        Execution {
            command: "foo".into(),
            timestamp_ns: 1,
            ..Default::default()
        }
        .listing(),
        "1\t\tfoo",
    );
}
