//! The commands' behaviour, through the library calls they make.

use honu::database::Database;
use honu::execution::Execution;
use honu::importer::{import_items, import_message};
use honu::zsh::Zsh;
use rusqlite::Connection;

fn memory() -> Database {
    Database::try_from(Connection::open_in_memory().unwrap()).unwrap()
}

fn add(database: &mut Database, execution: Execution) {
    database.insert(&execution).unwrap();
}

fn import_zsh(database: &mut Database, contents: &[u8], path: &str) -> String {
    let items = import_items(Zsh::history(contents), "zsh");
    let inserted = database.import("zsh", path.as_bytes(), || items, |_| {}).unwrap();
    import_message(inserted, path)
}

fn executions(database: &mut Database) -> Vec<Execution> {
    let mut all = database
        .recent(usize::try_from(i64::MAX).unwrap())
        .unwrap()
        .into_iter()
        .map(|(_, execution)| execution)
        .collect::<Vec<_>>();
    all.reverse();
    all
}

fn listing(database: &mut Database, limit: usize) -> String {
    database
        .recent(limit)
        .unwrap()
        .into_iter()
        .map(|(_, execution)| execution.listing() + "\n")
        .collect()
}

fn bare(command: &str, timestamp_ns: i64) -> Execution {
    Execution {
        command: command.into(),
        timestamp_ns,
        ..Default::default()
    }
}

#[test]
fn defaults() {
    let mut database = memory();
    add(&mut database, bare("foo", 0));
    assert_eq!(executions(&mut database).len(), 1);
}

#[test]
fn record() {
    let mut database = memory();
    let execution = Execution {
        directory: Some("/foo".into()),
        duration_ns: Some(2),
        exit_code: Some(0),
        hostname: Some("foo".into()),
        session: Some("bar".into()),
        shell: Some("zsh".into()),
        ..bare("foo", 1)
    };
    add(&mut database, execution.clone());
    assert_eq!(executions(&mut database), [execution]);
}

#[test]
fn add_record() {
    let mut database = memory();
    let execution = Execution {
        directory: Some("/foo".into()),
        duration_ns: Some(2),
        exit_code: Some(0),
        hostname: Some("foo".into()),
        session: Some("bar".into()),
        shell: Some("zsh".into()),
        ..bare("foo", 1)
    };
    add(&mut database, execution.clone());
    assert_eq!(executions(&mut database), [execution]);
}

#[test]
fn clear_clear() {
    let mut database = memory();
    assert_eq!(
        import_zsh(&mut database, b"foo\n", "history"),
        "imported 1 executions from history",
    );
    database.clear().unwrap();
    assert_eq!(executions(&mut database).len(), 0);
}

#[test]
fn integration_clear() {
    let mut database = memory();
    assert_eq!(
        import_zsh(&mut database, b"foo\n", "[ROOT]/history"),
        "imported 1 executions from [ROOT]/history",
    );
    database.clear().unwrap();
    assert_eq!(
        database
            .connection()
            .query_row("SELECT COUNT(*) FROM executions", [], |row| row.get::<_, i64>(0))
            .unwrap(),
        0,
    );
}

#[test]
fn zsh() {
    let mut database = memory();
    let contents = b"git status\n: 1700000000:2;cargo test\n";
    assert_eq!(
        import_zsh(&mut database, contents, "history"),
        "imported 2 executions from history",
    );
    assert_eq!(
        executions(&mut database),
        [
            Execution {
                shell: Some("zsh".into()),
                ..bare("git status", 1)
            },
            Execution {
                duration_ns: Some(2_000_000_000),
                shell: Some("zsh".into()),
                ..bare("cargo test", 1_700_000_000_000_000_000)
            },
        ],
    );
    assert_eq!(
        import_zsh(&mut database, contents, "history"),
        "imported 0 executions from history",
    );
    assert_eq!(executions(&mut database).len(), 2);
}

#[test]
fn list_list() {
    let mut database = memory();
    add(
        &mut database,
        Execution {
            exit_code: Some(1),
            ..bare("foo", 1)
        },
    );
    add(
        &mut database,
        Execution {
            exit_code: Some(0),
            ..bare("bar", 2)
        },
    );
    assert_eq!(listing(&mut database, 50), "2\t0\tbar\n1\t1\tfoo\n");
    assert_eq!(listing(&mut database, 1), "2\t0\tbar\n");
    assert_eq!(listing(&mut database, 0), "");
}

#[test]
fn integration_list() {
    let mut database = memory();
    assert_eq!(
        import_zsh(&mut database, b"foo\n", "[ROOT]/history"),
        "imported 1 executions from [ROOT]/history",
    );
    assert_eq!(listing(&mut database, 1), "1\t\tfoo\n");
}

#[test]
fn search_empty() {
    let mut database = memory();
    assert_eq!(database.search("foo", 50).unwrap(), Vec::new());
}

#[test]
fn empty() {
    let mut database = memory();
    assert_eq!(database.search("foo", 50).unwrap(), Vec::new());
}

#[test]
fn import_of_a_broken_history_changes_nothing() {
    let mut database = memory();
    let items = import_items(Zsh::history(b"foo\n: 99999999999:1;bar\n"), "zsh");
    let error = database.import("zsh", b"history", || items, |_| {}).unwrap_err();
    assert_eq!(error.message(), "timestamp on history line 2 overflows nanoseconds");
    assert_eq!(executions(&mut database).len(), 0);
}
