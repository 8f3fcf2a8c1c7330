use honu::database::{
    command_from_row, flag_from_rows, migration, migrations_from, recent_params, search_params, source_record_params,
    upsert_params, Database, ProgressEntry, MIGRATION_INITIAL, SCHEMA_VERSION,
};
use honu::sql::{Datum, Param};
use honu::error::HonuError;
use honu::execution::Execution;
use honu::record::Record;
use rusqlite::Connection;
use std::collections::HashMap;

fn memory() -> Database {
    Database::try_from(Connection::open_in_memory().unwrap()).unwrap()
}

fn record(command: &str, timestamp_ns: i64, fingerprint: &[u8]) -> Record {
    Record {
        execution: Execution {
            command: command.into(),
            timestamp_ns,
            ..Default::default()
        },
        fingerprint: fingerprint.to_vec(),
    }
}

#[test]
fn clear_deletes_all_executions() {
    let mut database = memory();

    database
        .insert(&Execution {
            command: "foo".into(),
            ..Default::default()
        })
        .unwrap();

    database
        .connection()
        .execute(
            "INSERT INTO import_sources (id, format, path) VALUES (?1, ?2, ?3)",
            (uuid::Uuid::new_v4().to_string(), "foo", b"bar".as_slice()),
        )
        .unwrap();

    database.clear().unwrap();

    assert_eq!(
        (
            database.recent(20).unwrap(),
            database
                .connection()
                .query_row("SELECT COUNT(*) FROM import_sources", [], |row| {
                    row.get::<_, i64>(0)
                })
                .unwrap(),
            database
                .connection()
                .query_row("SELECT COUNT(*) FROM commands", [], |row| {
                    row.get::<_, i64>(0)
                })
                .unwrap(),
        ),
        (Vec::new(), 0, 0),
    );

    database
        .insert(&Execution {
            command: "bar".into(),
            ..Default::default()
        })
        .unwrap();

    assert_eq!(database.recent(20).unwrap().len(), 1);
}

#[test]
fn for_each_command_visits_every_unique_command_in_recent_order() {
    let mut database = memory();

    for (command, timestamp_ns) in [("foo", 1), ("bar", 2), ("foo", 3)] {
        database
            .insert(&Execution {
                command: command.into(),
                timestamp_ns,
                ..Default::default()
            })
            .unwrap();
    }

    let mut commands = Vec::new();

    database
        .for_each_command(|command| {
            commands.push(command);
            true
        })
        .unwrap();

    assert_eq!(commands, ["foo", "bar"]);

    database
        .for_each_command(|command| {
            commands.push(command);
            false
        })
        .unwrap();

    assert_eq!(commands, ["foo", "bar", "foo"]);
}

#[test]
fn import_inserts_and_is_idempotent() {
    let mut database = memory();

    let records = [record("foo", 1, b"foo"), record("bar", 2, b"bar")];

    assert_eq!(
        database
            .import("test", b"foo", || records.iter().cloned().map(Ok).collect(), |_| {})
            .unwrap(),
        2,
    );

    let imported = database.recent(20).unwrap();

    assert_eq!(
        database
            .import("test", b"foo", || records.into_iter().map(Ok).collect(), |_| {})
            .unwrap(),
        0,
    );
    assert_eq!(database.recent(20).unwrap(), imported);
}

#[test]
fn import_preserves_repeated_commands_and_metadata() {
    let mut database = memory();

    let first = Execution {
        command: "foo".into(),
        timestamp_ns: 1,
        duration_ns: Some(2),
        exit_code: Some(3),
        directory: Some("/foo".into()),
        session: Some("bar".into()),
        hostname: Some("foo".into()),
        shell: Some("zsh".into()),
    };

    let second = Execution {
        command: "foo".into(),
        timestamp_ns: 4,
        duration_ns: Some(5),
        exit_code: Some(6),
        directory: Some("/bar".into()),
        session: Some("foo".into()),
        hostname: Some("bar".into()),
        shell: Some("zsh".into()),
    };

    assert_eq!(
        database
            .import(
                "test",
                b"foo",
                || vec![
                    Ok(Record {
                        execution: first.clone(),
                        fingerprint: b"foo".to_vec(),
                    }),
                    Ok(Record {
                        execution: second.clone(),
                        fingerprint: b"bar".to_vec(),
                    }),
                ],
                |_| {},
            )
            .unwrap(),
        2,
    );

    assert_eq!(
        (
            database
                .recent(20)
                .unwrap()
                .into_iter()
                .map(|(_, execution)| execution)
                .collect::<Vec<_>>(),
            database
                .search("foo", 20)
                .unwrap()
                .into_iter()
                .map(|(_, execution)| execution)
                .collect::<Vec<_>>(),
        ),
        (vec![second.clone(), first], vec![second]),
    );
}

#[test]
fn import_refreshes_command_recency() {
    let mut database = memory();

    for records in [
        [("foo", 3, b"foo".as_slice()), ("bar", 2, b"bar".as_slice())],
        [("foo", 1, b"foo".as_slice()), ("bar", 2, b"bar".as_slice())],
    ] {
        database
            .import(
                "test",
                b"foo",
                || records
                    .iter()
                    .map(|(command, timestamp_ns, fingerprint)| {
                        Ok(record(command, *timestamp_ns, fingerprint))
                    })
                    .collect(),
                |_| {},
            )
            .unwrap();
    }

    let commands = database
        .connection()
        .prepare(
            "SELECT command, timestamp_ns
             FROM commands
             ORDER BY timestamp_ns DESC, execution_id DESC",
        )
        .unwrap()
        .query_map([], |row| Ok((row.get::<_, String>(0)?, row.get::<_, i64>(1)?)))
        .unwrap()
        .collect::<rusqlite::Result<Vec<_>>>()
        .unwrap();

    assert_eq!(commands, [("bar".into(), 2), ("foo".into(), 1)]);
}

#[test]
fn import_reconciles_ordered_source_snapshots() {
    let mut database = memory();

    assert_eq!(
        database
            .import(
                "test",
                b"foo",
                || vec![Ok(record("foo", 1, b"foo")), Ok(record("bar", 2, b"bar"))],
                |_| {},
            )
            .unwrap(),
        2,
    );

    let original = database
        .recent(20)
        .unwrap()
        .into_iter()
        .map(|(id, execution)| (execution.command, (id, execution.timestamp_ns)))
        .collect::<HashMap<_, _>>();

    assert_eq!(
        database
            .import(
                "test",
                b"foo",
                || vec![
                    Ok(record("baz", 1, b"baz")),
                    Ok(record("foo", 2, b"foo")),
                    Ok(record("bar", 3, b"bar")),
                ],
                |_| {},
            )
            .unwrap(),
        1,
    );

    let reconciled = database
        .recent(20)
        .unwrap()
        .into_iter()
        .map(|(id, execution)| (execution.command, (id, execution.timestamp_ns)))
        .collect::<HashMap<_, _>>();

    assert_eq!(
        (
            reconciled["foo"].0,
            reconciled["bar"].0,
            reconciled["foo"].1,
            reconciled["bar"].1,
        ),
        (original["foo"].0, original["bar"].0, 2, 3),
    );
}

#[test]
fn import_retains_truncated_records_and_preserves_new_duplicates() {
    let mut database = memory();

    assert_eq!(
        database
            .import(
                "test",
                b"foo",
                || vec![Ok(record("foo", 1, b"foo")), Ok(record("bar", 2, b"bar"))],
                |_| {},
            )
            .unwrap(),
        2,
    );

    assert_eq!(
        database
            .import("test", b"foo", || vec![Ok(record("bar", 1, b"bar"))], |_| {})
            .unwrap(),
        0,
    );

    assert_eq!(database.recent(20).unwrap().len(), 2);

    assert_eq!(
        database
            .import(
                "test",
                b"foo",
                || vec![Ok(record("bar", 1, b"bar")), Ok(record("bar", 2, b"bar"))],
                |_| {},
            )
            .unwrap(),
        1,
    );

    assert_eq!(database.recent(20).unwrap().len(), 3);
}

#[test]
fn import_rolls_back_complete_batch_on_constraint_failure() {
    let mut database = memory();

    let error = database
        .import(
            "test",
            b"foo",
            || vec![
                Ok(record("foo", 0, b"foo")),
                Ok(Record {
                    execution: Execution {
                        command: "bar".into(),
                        duration_ns: Some(-1),
                        ..Default::default()
                    },
                    fingerprint: b"bar".to_vec(),
                }),
            ],
            |_| {},
        )
        .unwrap_err();

    assert_eq!(
        (error.sqlite_code(), error.message(), database.recent(20).unwrap()),
        (
            Some(19),
            "CHECK constraint failed: duration_ns IS NULL OR duration_ns >= 0".into(),
            Vec::new(),
        ),
    );
}

#[test]
fn import_rolls_back_complete_batch_on_iterator_failure() {
    let mut database = memory();

    let mut progress = Vec::new();

    let error = database
        .import(
            "test",
            b"foo",
            || vec![Ok(record("foo", 0, b"foo")), Err(HonuError::Sqlite { code: None, message: "bar".into() })],
            |status: ProgressEntry| progress.push((status.processed, status.inserted)),
        )
        .unwrap_err();

    assert_eq!(
        (error.message(), progress, database.recent(20).unwrap()),
        ("bar".into(), Vec::new(), Vec::new()),
    );
}

#[test]
fn import_reports_progress_after_each_record() {
    let mut database = memory();

    let mut progress = Vec::new();

    database
        .import(
            "test",
            b"foo",
            || vec![Ok(record("foo", 1, b"foo")), Ok(record("bar", 2, b"bar"))],
            |status: ProgressEntry| progress.push((status.processed, status.inserted)),
        )
        .unwrap();

    database
        .import(
            "test",
            b"foo",
            || vec![Ok(record("foo", 1, b"foo")), Ok(record("baz", 3, b"baz"))],
            |status: ProgressEntry| progress.push((status.processed, status.inserted)),
        )
        .unwrap();

    assert_eq!(progress, [(1, 1), (2, 2), (1, 0), (2, 1)]);
}

#[test]
fn reserve_source_advances_the_generation() {
    let mut database = memory();

    let (source, generation) = database.reserve_source("test", b"foo").unwrap();
    let (again, next) = database.reserve_source("test", b"foo").unwrap();

    assert_eq!((again, next), (source, generation + 1));

    assert_eq!(
        database
            .import("test", b"foo", || vec![Ok(record("foo", 0, b"foo"))], |_| {})
            .unwrap(),
        1,
    );
}

#[test]
fn insert_stores_every_execution() {
    let mut database = memory();

    let execution = Execution {
        command: "foo".into(),
        timestamp_ns: 1,
        duration_ns: Some(2),
        exit_code: Some(0),
        directory: Some("/foo".into()),
        session: Some("bar".into()),
        hostname: Some("foo".into()),
        shell: Some("bar".into()),
    };

    let (first, second) = (
        database.insert(&execution).unwrap(),
        database.insert(&execution).unwrap(),
    );

    assert_ne!(first, second);

    let mut expected = vec![(first, execution.clone()), (second, execution)];

    expected.sort_by(|(left, _), (right, _)| right.cmp(left));

    assert_eq!(database.recent(2).unwrap(), expected);
}

#[test]
fn negative_duration_is_rejected() {
    let mut database = memory();

    let execution = Execution {
        command: "foo".into(),
        duration_ns: Some(-1),
        ..Default::default()
    };

    let error = database.insert(&execution).unwrap_err();

    assert_eq!(
        (error.sqlite_code(), error.message()),
        (
            Some(19),
            "CHECK constraint failed: duration_ns IS NULL OR duration_ns >= 0".into(),
        ),
    );
}

#[test]
fn open_creates_schema() {
    let mut database = Database::open(":memory:").unwrap();

    let mut database = Database::try_from(database.into_connection()).unwrap();

    assert_eq!(
        database
            .connection()
            .query_row("PRAGMA user_version", [], |row| row.get::<_, i64>(0))
            .unwrap(),
        i64::try_from(SCHEMA_VERSION).unwrap(),
    );
}

#[test]
fn open_upgrades_schema() {
    let connection = Connection::open_in_memory().unwrap();

    connection.execute_batch(MIGRATION_INITIAL).unwrap();

    for (id, command, timestamp_ns) in [("foo", "foo", 1), ("bar", "bar", 2), ("baz", "foo", 3)] {
        connection
            .execute(
                "INSERT INTO executions (id, command, timestamp_ns)
                 VALUES (?1, ?2, ?3)",
                (id, command, timestamp_ns),
            )
            .unwrap();
    }

    connection.pragma_update(None, "user_version", 1).unwrap();

    let mut database = Database::try_from(connection).unwrap();

    let columns = database
        .connection()
        .prepare("SELECT name FROM pragma_index_info('executions_timestamp')")
        .unwrap()
        .query_map([], |row| row.get::<_, String>(0))
        .unwrap()
        .collect::<rusqlite::Result<Vec<_>>>()
        .unwrap();

    let commands = database
        .connection()
        .prepare(
            "SELECT command, timestamp_ns, execution_id
             FROM commands
             ORDER BY timestamp_ns DESC, execution_id DESC",
        )
        .unwrap()
        .query_map([], |row| {
            Ok((
                row.get::<_, String>(0)?,
                row.get::<_, i64>(1)?,
                row.get::<_, String>(2)?,
            ))
        })
        .unwrap()
        .collect::<rusqlite::Result<Vec<_>>>()
        .unwrap();

    assert_eq!(
        (
            database
                .connection()
                .query_row("PRAGMA user_version", [], |row| row.get::<_, i64>(0))
                .unwrap(),
            columns,
            commands,
        ),
        (
            4,
            vec!["timestamp_ns".to_string(), "id".to_string()],
            vec![
                ("foo".to_string(), 3, "baz".to_string()),
                ("bar".to_string(), 2, "bar".to_string())
            ],
        ),
    );
}

#[test]
fn recent_orders_and_limits_executions() {
    let mut database = memory();

    database
        .insert(&Execution {
            command: "foo".into(),
            timestamp_ns: 1,
            ..Default::default()
        })
        .unwrap();

    let id = database
        .insert(&Execution {
            command: "bar".into(),
            timestamp_ns: 2,
            ..Default::default()
        })
        .unwrap();

    assert_eq!(
        database.recent(1).unwrap(),
        vec![(
            id,
            Execution {
                command: "bar".into(),
                timestamp_ns: 2,
                ..Default::default()
            },
        )],
    );

    assert_eq!(database.recent(0).unwrap(), Vec::new());
}

#[test]
fn recent_rejects_large_limit() {
    let mut database = memory();

    let Err(error) = database.recent(usize::MAX) else {
        panic!("expected large limit to fail")
    };

    assert_eq!(error.message(), "execution limit exceeds SQLite integer range");
}

#[test]
fn search_filters_orders_and_collapses_executions() {
    let mut database = memory();

    database
        .insert(&Execution {
            command: "git status".into(),
            timestamp_ns: 1,
            exit_code: Some(1),
            ..Default::default()
        })
        .unwrap();

    let uppercase = database
        .insert(&Execution {
            command: "GIT log".into(),
            timestamp_ns: 2,
            ..Default::default()
        })
        .unwrap();

    let newest = database
        .insert(&Execution {
            command: "git status".into(),
            timestamp_ns: 3,
            exit_code: Some(0),
            directory: Some("/foo".into()),
            ..Default::default()
        })
        .unwrap();

    database
        .insert(&Execution {
            command: "cargo test".into(),
            timestamp_ns: 4,
            ..Default::default()
        })
        .unwrap();

    let literal = database
        .insert(&Execution {
            command: "echo %".into(),
            timestamp_ns: 5,
            ..Default::default()
        })
        .unwrap();

    assert_eq!(
        database.search("gIt", 20).unwrap(),
        vec![
            (
                newest,
                Execution {
                    command: "git status".into(),
                    timestamp_ns: 3,
                    exit_code: Some(0),
                    directory: Some("/foo".into()),
                    ..Default::default()
                },
            ),
            (
                uppercase,
                Execution {
                    command: "GIT log".into(),
                    timestamp_ns: 2,
                    ..Default::default()
                },
            ),
        ],
    );

    assert_eq!(database.search("git", 0).unwrap(), Vec::new());

    assert_eq!(
        database.search("%", 20).unwrap(),
        vec![(
            literal,
            Execution {
                command: "echo %".into(),
                timestamp_ns: 5,
                ..Default::default()
            },
        )],
    );

    assert_eq!(
        database
            .search("", 1)
            .unwrap()
            .into_iter()
            .map(|(_, execution)| execution.command)
            .collect::<Vec<_>>(),
        vec!["echo %"],
    );
}

#[test]
fn search_rejects_large_limit() {
    let mut database = memory();

    let Err(error) = database.search("foo", usize::MAX) else {
        panic!("expected large limit to fail")
    };

    assert_eq!(error.message(), "execution limit exceeds SQLite integer range");
}

#[test]
fn unsupported_schema_is_rejected() {
    let connection = Connection::open_in_memory().unwrap();

    connection.execute_batch("PRAGMA user_version = 5").unwrap();

    let Err(error) = Database::try_from(connection) else {
        panic!("expected unsupported schema to fail")
    };

    assert_eq!(
        error.message(),
        "database schema version 5 is unsupported; expected 4",
    );
}

#[test]
fn has_executions_reflects_inserts_and_clear() {
    let mut database = memory();
    assert!(!database.has_executions().unwrap());
    database
        .insert(&Execution {
            command: "foo".into(),
            ..Default::default()
        })
        .unwrap();
    assert!(database.has_executions().unwrap());
    database.clear().unwrap();
    assert!(!database.has_executions().unwrap());
}

#[test]
fn reconcile_matches_equal_fingerprints_in_order() {
    let previous = vec![
        (b"foo".to_vec(), "1".to_string()),
        (b"bar".to_vec(), "2".to_string()),
        (b"qux".to_vec(), "3".to_string()),
    ];
    let records = vec![
        record("baz", 0, b"baz"),
        record("foo", 0, b"foo"),
        record("qux", 0, b"qux"),
    ];
    assert_eq!(
        Database::reconcile(&previous, &records).unwrap(),
        vec![None, Some("1".to_string()), Some("3".to_string())],
    );
    assert_eq!(Database::reconcile(&[], &records).unwrap(), vec![None, None, None]);
}

#[test]
fn reconciling_an_unchanged_snapshot_keeps_every_identifier() {
    let previous = vec![
        (b"foo".to_vec(), "1".to_string()),
        (b"foo".to_vec(), "2".to_string()),
        (b"bar".to_vec(), "3".to_string()),
    ];
    let records = vec![
        record("foo", 0, b"foo"),
        record("foo", 0, b"foo"),
        record("bar", 0, b"bar"),
    ];
    assert_eq!(
        Database::reconcile(&previous, &records).unwrap(),
        vec![Some("1".to_string()), Some("2".to_string()), Some("3".to_string())],
    );
}

#[test]
fn query_parameters_carry_limit_and_text() {
    assert_eq!(recent_params(20), vec![Param::Integer(20)]);
    assert_eq!(
        search_params("git", 5),
        vec![Param::Text("git".into()), Param::Integer(5)],
    );
}

#[test]
fn existence_flag_is_read_from_first_cell() {
    assert_eq!(flag_from_rows(&vec![vec![Datum::Integer(1)]]), Ok(true));
    assert_eq!(flag_from_rows(&vec![vec![Datum::Integer(0)]]), Ok(false));
    assert_eq!(flag_from_rows(&vec![]), Err(HonuError::NoRows));
    assert_eq!(
        flag_from_rows(&vec![vec![Datum::Null]]),
        Err(HonuError::InvalidColumn { index: 0 }),
    );
}

#[test]
fn migrations_run_from_stored_version_to_current() {
    assert_eq!(
        migrations_from(1).unwrap(),
        vec![(migration(1), 2), (migration(2), 3), (migration(3), 4)],
    );
    assert_eq!(migrations_from(4).unwrap(), Vec::new());
    assert_eq!(migrations_from(0).unwrap().len(), 4);
    assert_eq!(migrations_from(0).unwrap()[0].0, MIGRATION_INITIAL);
    assert_eq!(
        migrations_from(5).unwrap_err(),
        HonuError::UnsupportedSchema { version: 5 },
    );
    assert_eq!(SCHEMA_VERSION, 4);
}

#[test]
fn snapshot_and_upsert_parameters() {
    assert_eq!(
        source_record_params(&"s".to_string(), 3, &b"fp".to_vec(), &"id".to_string()),
        vec![
            Param::Text("s".into()),
            Param::Integer(3),
            Param::Blob(b"fp".to_vec()),
            Param::Text("id".into()),
        ],
    );
    let params = upsert_params(&"id".to_string(), &record("foo", 7, b"").execution, true);
    assert_eq!(params.len(), 10);
    assert_eq!(params[1], Param::Text("foo".into()));
    assert_eq!(params[2], Param::Integer(7));
    assert_eq!(params[9], Param::Integer(1));
    assert_eq!(
        upsert_params(&"id".to_string(), &record("foo", 7, b"").execution, false)[9],
        Param::Integer(0),
    );
}

#[test]
fn reconciling_an_extended_snapshot_keeps_the_prefix() {
    let previous = vec![(b"foo".to_vec(), "1".to_string()), (b"bar".to_vec(), "2".to_string())];
    let records = vec![record("foo", 0, b"foo"), record("bar", 0, b"bar"), record("foo", 0, b"foo")];
    assert_eq!(
        Database::reconcile(&previous, &records).unwrap(),
        vec![Some("1".to_string()), Some("2".to_string()), None],
    );
}

#[test]
fn connection_round_trips() {
    let mut database = memory();
    let connection = database.into_connection();
    assert_eq!(
        connection
            .query_row("PRAGMA user_version", [], |row| row.get::<_, i64>(0))
            .unwrap(),
        4,
    );
}

#[test]
fn command_is_read_from_first_cell() {
    assert_eq!(command_from_row(&vec![Datum::Text("foo".into())]), Ok("foo".to_string()));
    assert_eq!(
        command_from_row(&vec![Datum::Integer(1)]),
        Err(HonuError::InvalidColumn { index: 0 }),
    );
}

#[test]
fn limit_beyond_sqlite_integers_is_refused_without_sqlite_code() {
    let mut database = memory();

    let error = database.recent(usize::MAX).unwrap_err();

    assert_eq!(
        (error.sqlite_code(), error.message()),
        (None, "execution limit exceeds SQLite integer range".to_string()),
    );
}

#[test]
fn import_superseded_source_generation_is_discarded() {
    let uri = "file:import_superseded_source_generation_is_discarded?mode=memory&cache=shared";
    let mut database = Database::open(uri).unwrap();
    let mut other = Database::open(uri).unwrap();

    let inserted = database
        .import(
            "test",
            b"foo",
            || {
                other.reserve_source("test", b"foo").unwrap();
                vec![Ok(record("foo", 0, b"foo"))]
            },
            |_| {},
        )
        .unwrap();

    assert_eq!(inserted, 0);
    assert_eq!(database.recent(20).unwrap(), Vec::new());
}

#[test]
fn failed_insert_rolls_back_its_transaction() {
    let mut database = memory();

    let rejected = Execution {
        command: "foo".into(),
        duration_ns: Some(-1),
        ..Default::default()
    };

    assert_eq!(database.insert(&rejected).unwrap_err().sqlite_code(), Some(19));

    let accepted = Execution {
        command: "bar".into(),
        ..Default::default()
    };

    database.insert(&accepted).unwrap();

    let stored = database.recent(20).unwrap();
    assert_eq!(stored.len(), 1);
    assert_eq!(stored[0].1.command, "bar");
}

#[test]
fn failed_import_rolls_back_its_transaction() {
    let mut database = memory();

    let rejected = Record {
        execution: Execution {
            command: "bar".into(),
            duration_ns: Some(-1),
            ..Default::default()
        },
        fingerprint: b"bar".to_vec(),
    };

    assert!(database
        .import("test", b"foo", || vec![Ok(record("foo", 1, b"foo")), Ok(rejected)], |_| {})
        .is_err());

    assert_eq!(
        database.import("test", b"foo", || vec![Ok(record("foo", 1, b"foo"))], |_| {}).unwrap(),
        1,
    );
    assert_eq!(database.recent(20).unwrap().len(), 1);
}
