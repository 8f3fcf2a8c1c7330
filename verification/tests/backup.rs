use honu::backup::{Backup, FileAction, FileOutcome};
use honu::database::Database;
use honu::error::HonuError;
use honu::execution::Execution;
use honu::importer::{import_items, import_message};
use honu::zsh::Zsh;
use rusqlite::Connection;
use std::collections::{HashMap, HashSet};

/// A fresh database file of its own for a test.
fn scratch() -> String {
    format!("/tmp/honu-test-{}.db", uuid::Uuid::new_v4())
}

/// A file of the simulated file system: the database file holding its
/// contents, and its permission bits.
struct File {
    contents: String,
    mode: u32,
}

/// The file system a backup runs against, with each file's contents held in
/// a database file of its own.
#[derive(Default)]
struct Disk {
    directories: HashSet<String>,
    files: HashMap<String, File>,
    operations: Vec<String>,
}

impl Disk {
    fn perform(&mut self, database: &mut Database, action: &FileAction) -> FileOutcome {
        match action {
            FileAction::CreateDirectory(directory) => {
                self.operations.push(format!("mkdir {directory}"));
                self.directories.insert(directory.clone());
                FileOutcome::Done
            }
            FileAction::CheckExists(path) => {
                self.operations.push(format!("exists {path}"));
                FileOutcome::Exists(self.files.contains_key(path))
            }
            FileAction::CreateFile(path) => {
                self.operations.push(format!("create {path}"));
                if self.files.contains_key(path) {
                    return FileOutcome::Failed("File exists (os error 17)".into());
                }
                self.files.insert(
                    path.clone(),
                    File {
                        contents: scratch(),
                        mode: 0o600,
                    },
                );
                FileOutcome::Done
            }
            FileAction::CopyDatabase(path) => {
                self.operations.push(format!("copy {path}"));
                match database.backup(&self.files[path].contents) {
                    Ok(()) => FileOutcome::Done,
                    Err(error) => FileOutcome::Failed(error.message()),
                }
            }
            FileAction::RestrictPermissions(path) => {
                self.operations.push(format!("chmod {path}"));
                self.files.get_mut(path).unwrap().mode = 0o600;
                FileOutcome::Done
            }
            FileAction::Rename { from, to } => {
                self.operations.push(format!("rename {from} {to}"));
                let file = self.files.remove(from).unwrap();
                self.files.insert(to.clone(), file);
                FileOutcome::Done
            }
            FileAction::RemoveFile(path) => {
                self.operations.push(format!("remove {path}"));
                self.files.remove(path);
                FileOutcome::Done
            }
            FileAction::Finish(_) => unreachable!(),
        }
    }

    fn backup(&mut self, database: &mut Database, path: &str, force: bool) -> Result<(), HonuError> {
        let mut backup = Backup::new(path, force);
        let mut action = backup.action();
        loop {
            if let FileAction::Finish(result) = action {
                return result;
            }
            let outcome = self.perform(database, &action);
            action = backup.step(outcome);
        }
    }

    fn open(&self, path: &str) -> Database {
        Database::open(&self.files[path].contents).unwrap()
    }

    fn count(&self, path: &str) -> i64 {
        Connection::open(&self.files[path].contents)
            .unwrap()
            .query_row("SELECT COUNT(*) FROM executions", [], |row| row.get::<_, i64>(0))
            .unwrap()
    }
}

fn bare(command: &str, timestamp_ns: i64) -> Execution {
    Execution {
        command: command.into(),
        timestamp_ns,
        ..Default::default()
    }
}

fn import_zsh(database: &mut Database, contents: &[u8], path: &str) -> String {
    let items = import_items(Zsh::history(contents), "zsh");
    let inserted = database.import("zsh", path.as_bytes(), || items, |_| {}).unwrap();
    import_message(inserted, path)
}

#[test]
fn backup_copies_executions_while_source_remains_open() {
    let mut disk = Disk::default();
    let mut database = Database::open(&scratch()).unwrap();
    let first = database.insert(&bare("foo", 1)).unwrap();
    let second = database.insert(&bare("bar", 2)).unwrap();
    disk.backup(&mut database, "bar/backup.db", false).unwrap();
    database.insert(&bare("baz", 3)).unwrap();
    let mut copy = disk.open("bar/backup.db");
    assert_eq!(
        (
            copy.connection()
                .query_row("PRAGMA integrity_check", [], |row| row.get::<_, String>(0))
                .unwrap(),
            copy.recent(20).unwrap(),
        ),
        (
            "ok".into(),
            vec![(second, bare("bar", 2)), (first, bare("foo", 1))],
        ),
    );
}

#[test]
fn backup_refuses_existing_destination_unless_forced() {
    let mut disk = Disk::default();
    let mut database = Database::open(&scratch()).unwrap();
    database.insert(&bare("foo", 0)).unwrap();
    disk.backup(&mut database, "backup.db", false).unwrap();
    database.insert(&bare("bar", 0)).unwrap();
    assert_eq!(
        disk.backup(&mut database, "backup.db", false).unwrap_err().message(),
        format!("backup `{}` already exists; use --force to overwrite it", "backup.db"),
    );
    disk.backup(&mut database, "backup.db", true).unwrap();
    assert_eq!(disk.open("backup.db").recent(20).unwrap().len(), 2);
}

#[test]
fn backup_backup() {
    let mut disk = Disk::default();
    let mut database = Database::open(&scratch()).unwrap();
    assert_eq!(
        import_zsh(&mut database, b"foo\n", "history"),
        "imported 1 executions from history",
    );
    disk.backup(&mut database, "foo/bar/honu.sqlite", false).unwrap();
    assert_eq!(disk.count("foo/bar/honu.sqlite"), 1);
    assert_eq!(disk.files["foo/bar/honu.sqlite"].mode & 0o777, 0o600);
    assert_eq!(
        disk.backup(&mut database, "foo/bar/honu.sqlite", false).unwrap_err().message(),
        "backup `foo/bar/honu.sqlite` already exists; use --force to overwrite it",
    );
    assert_eq!(
        import_zsh(&mut database, b"foo\nbar\n", "history"),
        "imported 1 executions from history",
    );
    disk.backup(&mut database, "foo/bar/honu.sqlite", true).unwrap();
    assert_eq!(disk.count("foo/bar/honu.sqlite"), 2);
}

#[test]
fn integration_backup() {
    let mut disk = Disk::default();
    let mut database = Database::open(&scratch()).unwrap();
    let path = "[ROOT]/foo/bar/honu.sqlite";
    assert_eq!(
        import_zsh(&mut database, b"foo\n", "[ROOT]/history"),
        "imported 1 executions from [ROOT]/history",
    );
    disk.backup(&mut database, path, false).unwrap();
    let connection = Connection::open(&disk.files[path].contents).unwrap();
    assert_eq!(
        (
            connection
                .query_row("PRAGMA integrity_check", [], |row| row.get::<_, String>(0))
                .unwrap(),
            connection
                .query_row("SELECT COUNT(*) FROM executions", [], |row| row.get::<_, i64>(0))
                .unwrap(),
        ),
        ("ok".into(), 1),
    );
    drop(connection);
    assert_eq!(disk.files[path].mode & 0o777, 0o600);
    assert_eq!(
        disk.backup(&mut database, path, false).unwrap_err().message(),
        "backup `[ROOT]/foo/bar/honu.sqlite` already exists; use --force to overwrite it",
    );
    assert_eq!(
        import_zsh(&mut database, b"foo\nbar\n", "[ROOT]/history"),
        "imported 1 executions from [ROOT]/history",
    );
    disk.backup(&mut database, path, true).unwrap();
    assert_eq!(disk.count(path), 2);
}

#[test]
fn backup_is_usable_application_database() {
    let mut disk = Disk::default();
    let source = scratch();
    let mut database = Database::open(&source).unwrap();
    assert_eq!(
        import_zsh(&mut database, b"foo\n", "history"),
        "imported 1 executions from history",
    );
    disk.backup(&mut database, "backup/honu/history.db", false).unwrap();
    let mut restored = disk.open("backup/honu/history.db");
    assert_eq!(
        import_zsh(&mut restored, b"foo\n", "history"),
        "imported 0 executions from history",
    );
    assert_eq!(
        import_zsh(&mut restored, b"foo\nbar\n", "history"),
        "imported 1 executions from history",
    );
    assert_eq!(
        database
            .connection()
            .query_row("SELECT COUNT(*) FROM executions", [], |row| row.get::<_, i64>(0))
            .unwrap(),
        1,
    );
    assert_eq!(disk.count("backup/honu/history.db"), 2);
}

#[test]
fn refused_backup_leaves_no_temporary_file() {
    let mut disk = Disk::default();
    let mut database = Database::open(&scratch()).unwrap();
    disk.backup(&mut database, "out/copy.db", false).unwrap();
    assert!(disk.backup(&mut database, "out/copy.db", false).is_err());
    assert_eq!(disk.files.keys().collect::<Vec<_>>(), ["out/copy.db"]);
    assert!(disk.directories.contains("out"));
    assert_eq!(
        disk.operations[disk.operations.len() - 2..],
        ["mkdir out".to_owned(), "exists out/copy.db".to_owned()],
    );
}

const NIL: &str = "00000000-0000-0000-0000-000000000000";

#[test]
fn backup_operations_in_order() {
    let mut backup = Backup::planned("bar/backup.db", false, 0);
    let temporary = format!("bar/.honu-backup-{NIL}.tmp");
    assert_eq!(backup.action(), FileAction::CreateDirectory("bar".into()));
    assert_eq!(backup.step(FileOutcome::Done), FileAction::CheckExists("bar/backup.db".into()));
    assert_eq!(backup.step(FileOutcome::Exists(false)), FileAction::CreateFile(temporary.clone()));
    assert_eq!(backup.step(FileOutcome::Done), FileAction::CopyDatabase(temporary.clone()));
    assert_eq!(backup.step(FileOutcome::Done), FileAction::RestrictPermissions(temporary.clone()));
    assert_eq!(backup.step(FileOutcome::Done), FileAction::CheckExists("bar/backup.db".into()));
    assert_eq!(
        backup.step(FileOutcome::Exists(false)),
        FileAction::Rename {
            from: temporary,
            to: "bar/backup.db".into(),
        },
    );
    assert_eq!(backup.step(FileOutcome::Done), FileAction::Finish(Ok(())));
    assert_eq!(backup.step(FileOutcome::Done), FileAction::Finish(Ok(())));
}

#[test]
fn forced_backup_skips_existence_checks() {
    let mut backup = Backup::planned("/backup.db", true, 1);
    let temporary = "/.honu-backup-00000000-0000-0000-0000-000000000001.tmp".to_owned();
    assert_eq!(backup.action(), FileAction::CreateDirectory("/".into()));
    assert_eq!(backup.step(FileOutcome::Done), FileAction::CreateFile(temporary.clone()));
    assert_eq!(backup.step(FileOutcome::Done), FileAction::CopyDatabase(temporary.clone()));
    assert_eq!(backup.step(FileOutcome::Done), FileAction::RestrictPermissions(temporary.clone()));
    assert_eq!(
        backup.step(FileOutcome::Done),
        FileAction::Rename {
            from: temporary,
            to: "/backup.db".into(),
        },
    );
}

#[test]
fn backup_without_directory_uses_current_directory() {
    let mut backup = Backup::planned("backup.db", false, 0);
    assert_eq!(backup.action(), FileAction::CreateDirectory(".".into()));
    backup.step(FileOutcome::Done);
    assert_eq!(
        backup.step(FileOutcome::Exists(false)),
        FileAction::CreateFile(format!("./.honu-backup-{NIL}.tmp")),
    );
}

#[test]
fn failed_copy_removes_temporary_file_and_reports_destination() {
    let mut backup = Backup::planned("bar/backup.db", false, 0);
    backup.step(FileOutcome::Done);
    backup.step(FileOutcome::Exists(false));
    backup.step(FileOutcome::Done);
    assert_eq!(
        backup.step(FileOutcome::Failed("disk I/O error".into())),
        FileAction::RemoveFile(format!("bar/.honu-backup-{NIL}.tmp")),
    );
    let error = HonuError::Backup {
        path: "bar/backup.db".into(),
        cause: "disk I/O error".into(),
    };
    assert_eq!(error.message(), "failed to back up database to `bar/backup.db`");
    assert_eq!(
        backup.step(FileOutcome::Failed("permission denied".into())),
        FileAction::Finish(Err(error)),
    );
}

#[test]
fn destination_appearing_during_copy_is_kept() {
    let mut backup = Backup::planned("backup.db", false, 0);
    backup.step(FileOutcome::Done);
    backup.step(FileOutcome::Exists(false));
    backup.step(FileOutcome::Done);
    backup.step(FileOutcome::Done);
    backup.step(FileOutcome::Done);
    assert_eq!(
        backup.step(FileOutcome::Exists(true)),
        FileAction::RemoveFile(format!("./.honu-backup-{NIL}.tmp")),
    );
    assert_eq!(
        backup.step(FileOutcome::Done),
        FileAction::Finish(Err(HonuError::BackupExists {
            path: "backup.db".into()
        })),
    );
}

#[test]
fn failure_before_temporary_file_ends_backup() {
    let mut backup = Backup::planned("bar/backup.db", false, 0);
    assert_eq!(
        backup.step(FileOutcome::Failed("read-only file system".into())),
        FileAction::Finish(Err(HonuError::Io("read-only file system".into()))),
    );
}
