//! Backing up the database into a file. The copy is made into a fresh
//! temporary file beside the destination, which is renamed over the
//! destination once it is complete, so that the destination never holds a
//! partial copy; an existing destination is only replaced when forced, and a
//! failure after the temporary file was made removes it again.
//!
//! The decisions are a state machine: `Backup::action` names the file
//! operation to perform next, and `Backup::step` takes its outcome and names
//! the one after, until the action is `FileAction::Finish`.

use vstd::prelude::*;
use crate::error::HonuError;
use crate::ids::{new_v4, uuid_text, uuid_to_string};
use crate::text::{chars_of, push_str, string_from_chars};

verus! {

/// What `std::path::Path::parent` gives for `path`, as text.
pub uninterp spec fn path_parent(path: Seq<char>) -> Option<Seq<char>>;

/// Calls `Path::parent` on `path`: the result is the named function of it.
#[verifier::external_body]
fn parent_of(path: &str) -> (r: Option<String>)
    ensures
        match r {
            Some(p) => path_parent(path@) == Some(p@),
            None => path_parent(path@) is None,
        },
{
    std::path::Path::new(path).parent().map(|p| p.to_string_lossy().into_owned())
}

/// The directory the backup is made in: the parent of `path`, or `.` when
/// it has none or an empty one.
pub open spec fn backup_directory(path: Seq<char>) -> Seq<char> {
    match path_parent(path) {
        Some(p) => if p.len() > 0 {
            p
        } else {
            "."@
        },
        None => "."@,
    }
}

/// `name`, a relative path of one component, appended to `directory` with a
/// separator between them where `directory` does not end in one.
pub open spec fn joined(directory: Seq<char>, name: Seq<char>) -> Seq<char> {
    if directory.len() == 0 {
        name
    } else if directory.last() == '/' {
        directory + name
    } else {
        directory + "/"@ + name
    }
}

/// The name of the temporary file of a backup, told apart by `nonce`.
pub open spec fn temporary_name(nonce: u128) -> Seq<char> {
    ".honu-backup-"@ + uuid_text(nonce) + ".tmp"@
}

/// Why a backup failed.
#[derive(Clone, Copy, Debug, PartialEq, Eq)]
pub enum Failure {
    /// A file operation failed.
    Io,
    /// The destination exists and the backup is not forced.
    Exists,
    /// Copying the database failed.
    Copy,
}

/// Where a backup stands: the operation it waits on, or its end.
#[derive(Clone, Copy, Debug, PartialEq, Eq)]
pub enum Phase {
    CreatingDirectory,
    CheckingBefore,
    CreatingFile,
    Copying,
    Restricting,
    CheckingAfter,
    Renaming,
    /// Removing the temporary file after the failure.
    Removing(Failure),
    /// Done, successfully or with the failure.
    Finished(Option<Failure>),
}

/// The outcome of a file operation.
#[derive(Clone, Debug, PartialEq, Eq)]
pub enum FileOutcome {
    /// It succeeded.
    Done,
    /// A check succeeded and found the file present or absent.
    Exists(bool),
    /// It failed, with the system's message.
    Failed(String),
}

/// The next thing to do.
#[derive(Debug, PartialEq, Eq)]
pub enum FileAction {
    /// Create the directory and its missing ancestors.
    CreateDirectory(String),
    /// Check whether the file exists.
    CheckExists(String),
    /// Create the file, failing if it exists, readable and writable by its owner only.
    CreateFile(String),
    /// Copy the database into the file (`Database::backup`).
    CopyDatabase(String),
    /// Make the file readable and writable by its owner only.
    RestrictPermissions(String),
    /// Rename `from` to `to`, replacing `to`.
    Rename { from: String, to: String },
    /// Remove the file; its outcome does not matter.
    RemoveFile(String),
    /// The backup is over, with this result.
    Finish(Result<(), HonuError>),
}

/// A backup of the database to `path` in progress.
pub struct Backup {
    path: String,
    force: bool,
    directory: String,
    temporary: String,
    phase: Phase,
    cause: String,
}

pub struct BackupView {
    pub path: Seq<char>,
    pub force: bool,
    pub directory: Seq<char>,
    pub temporary: Seq<char>,
    pub phase: Phase,
    /// The message of the failure, once one occurred.
    pub cause: Seq<char>,
}

impl View for Backup {
    type V = BackupView;

    closed spec fn view(&self) -> BackupView {
        BackupView {
            path: self.path@,
            force: self.force,
            directory: self.directory@,
            temporary: self.temporary@,
            phase: self.phase,
            cause: self.cause@,
        }
    }
}

/// A backup to `path` whose temporary file is told apart by `nonce`, before
/// anything was done.
pub open spec fn initial(path: Seq<char>, force: bool, nonce: u128) -> BackupView {
    let directory = backup_directory(path);
    BackupView {
        path,
        force,
        directory,
        temporary: joined(directory, temporary_name(nonce)),
        phase: Phase::CreatingDirectory,
        cause: Seq::empty(),
    }
}

/// The phase after `phase` when its operation succeeded; `present` is what a
/// check found.
pub open spec fn next_phase(phase: Phase, force: bool, present: bool) -> Phase {
    match phase {
        Phase::CreatingDirectory => if force {
            Phase::CreatingFile
        } else {
            Phase::CheckingBefore
        },
        Phase::CheckingBefore => if present {
            Phase::Finished(Some(Failure::Exists))
        } else {
            Phase::CreatingFile
        },
        Phase::CreatingFile => Phase::Copying,
        Phase::Copying => Phase::Restricting,
        Phase::Restricting => if force {
            Phase::Renaming
        } else {
            Phase::CheckingAfter
        },
        Phase::CheckingAfter => if present {
            Phase::Removing(Failure::Exists)
        } else {
            Phase::Renaming
        },
        Phase::Renaming => Phase::Finished(None),
        Phase::Removing(f) => Phase::Finished(Some(f)),
        Phase::Finished(r) => Phase::Finished(r),
    }
}

/// The phase after `phase` when its operation failed. Before the temporary
/// file exists the backup ends at once; after, the file is removed first.
pub open spec fn failed_phase(phase: Phase) -> Phase {
    match phase {
        Phase::CreatingDirectory => Phase::Finished(Some(Failure::Io)),
        Phase::CheckingBefore => Phase::Finished(Some(Failure::Io)),
        Phase::CreatingFile => Phase::Removing(Failure::Io),
        Phase::Copying => Phase::Removing(Failure::Copy),
        Phase::Restricting => Phase::Removing(Failure::Io),
        Phase::CheckingAfter => Phase::Removing(Failure::Io),
        Phase::Renaming => Phase::Removing(Failure::Io),
        Phase::Removing(f) => Phase::Finished(Some(f)),
        Phase::Finished(r) => Phase::Finished(r),
    }
}

/// Whether `phase` waits on an operation whose failure is the backup's.
pub open spec fn failure_counts(phase: Phase) -> bool {
    !(phase is Removing) && !(phase is Finished)
}

/// The backup after the outcome `o` of the operation it waited on.
pub open spec fn next_view(b: BackupView, o: FileOutcome) -> BackupView {
    match o {
        FileOutcome::Failed(m) => if failure_counts(b.phase) {
            BackupView { phase: failed_phase(b.phase), cause: m@, ..b }
        } else {
            BackupView { phase: failed_phase(b.phase), ..b }
        },
        FileOutcome::Exists(present) => BackupView { phase: next_phase(b.phase, b.force, present), ..b },
        FileOutcome::Done => BackupView { phase: next_phase(b.phase, b.force, false), ..b },
    }
}

/// Whether `e` reports the failure `f` of the backup `b`.
pub open spec fn reports(e: HonuError, f: Failure, b: BackupView) -> bool {
    match f {
        Failure::Io => e matches HonuError::Io(m) && m@ == b.cause,
        Failure::Exists => e matches HonuError::BackupExists { path } && path@ == b.path,
        Failure::Copy => e matches HonuError::Backup { path, cause } && path@ == b.path && cause@
            == b.cause,
    }
}

/// Whether `a` is the operation the backup `b` waits on.
pub open spec fn announces(b: BackupView, a: FileAction) -> bool {
    match b.phase {
        Phase::CreatingDirectory => a matches FileAction::CreateDirectory(d) && d@ == b.directory,
        Phase::CheckingBefore => a matches FileAction::CheckExists(p) && p@ == b.path,
        Phase::CreatingFile => a matches FileAction::CreateFile(t) && t@ == b.temporary,
        Phase::Copying => a matches FileAction::CopyDatabase(t) && t@ == b.temporary,
        Phase::Restricting => a matches FileAction::RestrictPermissions(t) && t@ == b.temporary,
        Phase::CheckingAfter => a matches FileAction::CheckExists(p) && p@ == b.path,
        Phase::Renaming => a matches FileAction::Rename { from, to } && from@ == b.temporary && to@
            == b.path,
        Phase::Removing(_) => a matches FileAction::RemoveFile(t) && t@ == b.temporary,
        Phase::Finished(None) => a matches FileAction::Finish(Ok(_)),
        Phase::Finished(Some(f)) => a matches FileAction::Finish(Err(e)) && reports(e, f, b),
    }
}

/// How many operations a backup in `phase` performs at most before it is over.
pub open spec fn remaining(phase: Phase) -> nat {
    match phase {
        Phase::CreatingDirectory => 8,
        Phase::CheckingBefore => 7,
        Phase::CreatingFile => 6,
        Phase::Copying => 5,
        Phase::Restricting => 4,
        Phase::CheckingAfter => 3,
        Phase::Renaming => 2,
        Phase::Removing(_) => 1,
        Phase::Finished(_) => 0,
    }
}

/// The text of a path joined from `directory` and `name`.
fn join(directory: &str, name: &str) -> (r: String)
    ensures
        r@ == joined(directory@, name@),
{
    let mut out: Vec<char> = Vec::new();
    push_str(&mut out, directory);
    if out.len() > 0 && out[out.len() - 1] != '/' {
        push_str(&mut out, "/");
    }
    push_str(&mut out, name);
    proof {
        reveal_strlit("/");
    }
    string_from_chars(out.as_slice())
}

impl Backup {
    /// A backup of the database to `path`, replacing an existing file only
    /// when `force` is set. Its temporary file is named by a random UUID.
    pub fn new(path: &str, force: bool) -> (r: Backup)
        ensures
            exists|nonce: u128| r@ == initial(path@, force, nonce),
    {
        let nonce = new_v4();
        Backup::planned(path, force, nonce)
    }

    /// A backup of the database to `path` whose temporary file is named by `nonce`.
    pub fn planned(path: &str, force: bool, nonce: u128) -> (r: Backup)
        ensures
            r@ == initial(path@, force, nonce),
    {
        let directory = match parent_of(path) {
            Some(p) => if chars_of(p.as_str()).len() > 0 {
                p
            } else {
                String::from_str(".")
            },
            None => String::from_str("."),
        };
        proof {
            reveal_strlit(".");
        }
        let mut name: Vec<char> = Vec::new();
        push_str(&mut name, ".honu-backup-");
        let id = uuid_to_string(nonce);
        push_str(&mut name, id.as_str());
        push_str(&mut name, ".tmp");
        let name = string_from_chars(name.as_slice());
        let temporary = join(directory.as_str(), name.as_str());
        Backup {
            path: String::from_str(path),
            force,
            directory,
            temporary,
            phase: Phase::CreatingDirectory,
            cause: String::new(),
        }
    }

    /// The operation the backup waits on, or its result once it is over.
    pub fn action(&self) -> (a: FileAction)
        ensures
            announces(self@, a),
    {
        match self.phase {
            Phase::CreatingDirectory => FileAction::CreateDirectory(self.directory.clone()),
            Phase::CheckingBefore => FileAction::CheckExists(self.path.clone()),
            Phase::CreatingFile => FileAction::CreateFile(self.temporary.clone()),
            Phase::Copying => FileAction::CopyDatabase(self.temporary.clone()),
            Phase::Restricting => FileAction::RestrictPermissions(self.temporary.clone()),
            Phase::CheckingAfter => FileAction::CheckExists(self.path.clone()),
            Phase::Renaming => FileAction::Rename {
                from: self.temporary.clone(),
                to: self.path.clone(),
            },
            Phase::Removing(_) => FileAction::RemoveFile(self.temporary.clone()),
            Phase::Finished(None) => FileAction::Finish(Ok(())),
            Phase::Finished(Some(f)) => FileAction::Finish(
                Err(
                    match f {
                        Failure::Io => HonuError::Io(self.cause.clone()),
                        Failure::Exists => HonuError::BackupExists { path: self.path.clone() },
                        Failure::Copy => HonuError::Backup {
                            path: self.path.clone(),
                            cause: self.cause.clone(),
                        },
                    },
                ),
            ),
        }
    }

    /// Takes the outcome of the operation the backup waited on; returns the
    /// next operation, or the result once the backup is over.
    pub fn step(&mut self, outcome: FileOutcome) -> (a: FileAction)
        ensures
            final(self)@ == next_view(old(self)@, outcome),
            announces(final(self)@, a),
    {
        let counts = match self.phase {
            Phase::Removing(_) => false,
            Phase::Finished(_) => false,
            _ => true,
        };
        match outcome {
            FileOutcome::Failed(message) => {
                self.phase = match self.phase {
                    Phase::CreatingDirectory => Phase::Finished(Some(Failure::Io)),
                    Phase::CheckingBefore => Phase::Finished(Some(Failure::Io)),
                    Phase::CreatingFile => Phase::Removing(Failure::Io),
                    Phase::Copying => Phase::Removing(Failure::Copy),
                    Phase::Restricting => Phase::Removing(Failure::Io),
                    Phase::CheckingAfter => Phase::Removing(Failure::Io),
                    Phase::Renaming => Phase::Removing(Failure::Io),
                    Phase::Removing(f) => Phase::Finished(Some(f)),
                    Phase::Finished(r) => Phase::Finished(r),
                };
                if counts {
                    self.cause = message;
                }
            },
            other => {
                let present = match other {
                    FileOutcome::Exists(present) => present,
                    _ => false,
                };
                self.phase = match self.phase {
                    Phase::CreatingDirectory => if self.force {
                        Phase::CreatingFile
                    } else {
                        Phase::CheckingBefore
                    },
                    Phase::CheckingBefore => if present {
                        Phase::Finished(Some(Failure::Exists))
                    } else {
                        Phase::CreatingFile
                    },
                    Phase::CreatingFile => Phase::Copying,
                    Phase::Copying => Phase::Restricting,
                    Phase::Restricting => if self.force {
                        Phase::Renaming
                    } else {
                        Phase::CheckingAfter
                    },
                    Phase::CheckingAfter => if present {
                        Phase::Removing(Failure::Exists)
                    } else {
                        Phase::Renaming
                    },
                    Phase::Renaming => Phase::Finished(None),
                    Phase::Removing(f) => Phase::Finished(Some(f)),
                    Phase::Finished(r) => Phase::Finished(r),
                };
            },
        }
        self.action()
    }
}

/// The backup after the outcomes `outcomes` of its operations, in order.
pub open spec fn run(b: BackupView, outcomes: Seq<FileOutcome>) -> BackupView
    decreases outcomes.len(),
{
    if outcomes.len() == 0 {
        b
    } else {
        run(next_view(b, outcomes[0]), outcomes.drop_first())
    }
}

/// A whole backup whose every operation succeeds: without `force` it makes
/// the directory, finds no destination, makes, fills and restricts the
/// temporary file, finds no destination again and renames the file over it;
/// with `force` it skips both checks. Either way it ends successfully.
pub proof fn successful_backup_runs(path: Seq<char>, nonce: u128)
    ensures
        run(
            initial(path, false, nonce),
            seq![
                FileOutcome::Done,
                FileOutcome::Exists(false),
                FileOutcome::Done,
                FileOutcome::Done,
                FileOutcome::Done,
                FileOutcome::Exists(false),
                FileOutcome::Done,
            ],
        ).phase == Phase::Finished(None),
        run(
            initial(path, true, nonce),
            seq![FileOutcome::Done, FileOutcome::Done, FileOutcome::Done, FileOutcome::Done, FileOutcome::Done],
        ).phase == Phase::Finished(None),
{
    reveal_with_fuel(run, 8);
}

/// An unforced backup to an existing destination fails cleanly: right after
/// making the directory and finding the destination, it ends with the error
/// that the destination exists, before any file was made, so the destination
/// is left as it was.
pub proof fn unforced_backup_refuses_existing_destination(path: Seq<char>, nonce: u128)
    ensures
        ({
            let b = initial(path, false, nonce);
            let after_directory = next_view(b, FileOutcome::Done);
            let end = run(b, seq![FileOutcome::Done, FileOutcome::Exists(true)]);
            &&& after_directory.phase == Phase::CheckingBefore
            &&& end.phase == Phase::Finished(Some(Failure::Exists))
            &&& forall|a: FileAction| #[trigger] announces(end, a) ==> (a matches FileAction::Finish(
                Err(HonuError::BackupExists { path: p }),
            ) && p@ == path)
        }),
{
    reveal_with_fuel(run, 3);
}

/// Without `force`, the destination is only ever replaced right after a
/// check that found it absent, made after the copy was complete.
pub proof fn unforced_rename_follows_absent_check(b: BackupView, o: FileOutcome)
    requires
        !b.force,
        next_view(b, o).phase is Renaming,
    ensures
        b.phase is CheckingAfter,
        o == FileOutcome::Exists(false) || o == FileOutcome::Done,
{
}

/// Once the temporary file may exist, every failure removes it before the
/// backup ends; before that, a failure ends the backup at once.
pub proof fn failures_remove_the_temporary_file(b: BackupView, m: String)
    requires
        failure_counts(b.phase),
    ensures
        ({
            let after = next_view(b, FileOutcome::Failed(m));
            &&& after.cause == m@
            &&& if b.phase is CreatingDirectory || b.phase is CheckingBefore {
                after.phase is Finished
            } else {
                after.phase is Removing
            }
        }),
{
}

/// A backup is over after at most eight operations, whatever their outcomes,
/// and once over it stays over with the same result.
pub proof fn backups_finish(b: BackupView, o: FileOutcome)
    ensures
        b.phase is Finished ==> next_view(b, o) == b,
        !(b.phase is Finished) ==> remaining(next_view(b, o).phase) < remaining(b.phase),
        remaining(initial(b.path, b.force, 0).phase) == 8,
{
}

} // verus!
