//! The errors of the library, with the messages they are reported by.

use vstd::prelude::*;
use crate::text::{decimal, push_decimal, push_signed_decimal, push_str, signed_decimal, string_from_chars};

verus! {

/// Which value of an extended zsh history line failed to convert.
#[derive(Clone, Copy, Debug, PartialEq, Eq)]
pub enum Field {
    Timestamp,
    Duration,
}

#[derive(Clone, Debug, PartialEq, Eq)]
pub enum HonuError {
    /// The metafied input ended in the middle of an escape.
    IncompleteMetafiedByte,
    /// A value of an extended history line does not fit in `i64` nanoseconds.
    NanosecondsOverflow { field: Field, line: usize },
    /// More plain history lines than `i64::MAX`.
    PlainTimestampOverflow,
    /// A row limit above `i64::MAX`.
    LimitOutOfRange,
    /// The database was written by a newer schema, or a corrupt one.
    UnsupportedSchema { version: i64 },
    /// A schema migration failed.
    Migration { version: usize, cause: String },
    /// SQLite reported an error: its extended result code, where SQLite
    /// itself failed, and its message.
    Sqlite { code: Option<i32>, message: String },
    /// An execution identifier in the database is not a UUID.
    InvalidExecutionId(String),
    /// A column of a query's row holds a value of the wrong type.
    InvalidColumn { index: usize },
    /// The history holds more records than `i32::MAX`.
    TooManyRecords,
    /// The previous snapshot of a source holds more records than the diff supports.
    PreviousTooManyRecords,
    /// The current snapshot of a source holds more records than the diff supports.
    CurrentTooManyRecords,
    /// A fresh execution identifier collided with a stored one.
    DuplicateExecutionId(String),
    /// A query that must return a row returned none.
    NoRows,
    /// A file operation failed; the system's message.
    Io(String),
    /// A backup would replace an existing file without being forced to.
    BackupExists { path: String },
    /// Copying the database into a backup failed.
    Backup { path: String, cause: String },
}

pub open spec fn field_name(field: Field) -> Seq<char> {
    match field {
        Field::Timestamp => "timestamp"@,
        Field::Duration => "duration"@,
    }
}

/// The text each error is reported with.
pub open spec fn error_message(e: HonuError) -> Seq<char> {
    match e {
        HonuError::IncompleteMetafiedByte => "zsh history ends with an incomplete metafied byte"@,
        HonuError::NanosecondsOverflow { field, line } => field_name(field) + " on history line "@
            + decimal(line as nat) + " overflows nanoseconds"@,
        HonuError::PlainTimestampOverflow => "plain history timestamp exceeds SQLite integer range"@,
        HonuError::LimitOutOfRange => "execution limit exceeds SQLite integer range"@,
        HonuError::UnsupportedSchema { version } => "database schema version "@ + signed_decimal(
            version as int,
        ) + " is unsupported; expected 4"@,
        HonuError::Migration { version, .. } => "failed to apply database migration "@
            + decimal(version as nat),
        HonuError::Sqlite { message, .. } => message@,
        HonuError::InvalidExecutionId(id) => "invalid execution ID `"@ + id@ + "`"@,
        HonuError::InvalidColumn { index } => "invalid value in result column "@ + decimal(
            index as nat,
        ),
        HonuError::TooManyRecords => "history contains too many records"@,
        HonuError::PreviousTooManyRecords => "previous history contains too many records"@,
        HonuError::CurrentTooManyRecords => "current history contains too many records"@,
        HonuError::DuplicateExecutionId(id) => "generated duplicate execution ID `"@ + id@ + "`"@,
        HonuError::NoRows => "query returned no rows"@,
        HonuError::Io(message) => message@,
        HonuError::BackupExists { path } => "backup `"@ + path@
            + "` already exists; use --force to overwrite it"@,
        HonuError::Backup { path, .. } => "failed to back up database to `"@ + path@ + "`"@,
    }
}

/// The primary result code within an extended SQLite result code: its low
/// eight bits.
pub open spec fn primary_code(extended: i32) -> i32 {
    extended & 0xff
}

impl HonuError {
    /// Where SQLite itself failed, the primary result code of its failure
    /// (19 for a violated constraint).
    pub fn sqlite_code(&self) -> (r: Option<i32>)
        ensures
            r == match *self {
                HonuError::Sqlite { code: Some(c), .. } => Some(primary_code(c)),
                _ => None,
            },
    {
        match self {
            HonuError::Sqlite { code: Some(c), .. } => Some(*c & 0xff),
            _ => None,
        }
    }

    /// The text this error is reported with.
    pub fn message(&self) -> (r: String)
        ensures
            r@ == error_message(*self),
    {
        let mut out: Vec<char> = Vec::new();
        match self {
            HonuError::IncompleteMetafiedByte => {
                push_str(&mut out, "zsh history ends with an incomplete metafied byte");
            },
            HonuError::NanosecondsOverflow { field, line } => {
                match field {
                    Field::Timestamp => push_str(&mut out, "timestamp"),
                    Field::Duration => push_str(&mut out, "duration"),
                }
                push_str(&mut out, " on history line ");
                push_decimal(&mut out, *line as u64);
                push_str(&mut out, " overflows nanoseconds");
            },
            HonuError::PlainTimestampOverflow => {
                push_str(&mut out, "plain history timestamp exceeds SQLite integer range");
            },
            HonuError::LimitOutOfRange => {
                push_str(&mut out, "execution limit exceeds SQLite integer range");
            },
            HonuError::UnsupportedSchema { version } => {
                push_str(&mut out, "database schema version ");
                push_signed_decimal(&mut out, *version);
                push_str(&mut out, " is unsupported; expected 4");
            },
            HonuError::Migration { version, .. } => {
                push_str(&mut out, "failed to apply database migration ");
                push_decimal(&mut out, *version as u64);
            },
            HonuError::Sqlite { message, .. } => {
                push_str(&mut out, message.as_str());
            },
            HonuError::InvalidExecutionId(id) => {
                push_str(&mut out, "invalid execution ID `");
                push_str(&mut out, id.as_str());
                push_str(&mut out, "`");
            },
            HonuError::InvalidColumn { index } => {
                push_str(&mut out, "invalid value in result column ");
                push_decimal(&mut out, *index as u64);
            },
            HonuError::TooManyRecords => {
                push_str(&mut out, "history contains too many records");
            },
            HonuError::PreviousTooManyRecords => {
                push_str(&mut out, "previous history contains too many records");
            },
            HonuError::CurrentTooManyRecords => {
                push_str(&mut out, "current history contains too many records");
            },
            HonuError::DuplicateExecutionId(id) => {
                push_str(&mut out, "generated duplicate execution ID `");
                push_str(&mut out, id.as_str());
                push_str(&mut out, "`");
            },
            HonuError::NoRows => {
                push_str(&mut out, "query returned no rows");
            },
            HonuError::Io(message) => {
                push_str(&mut out, message.as_str());
            },
            HonuError::BackupExists { path } => {
                push_str(&mut out, "backup `");
                push_str(&mut out, path.as_str());
                push_str(&mut out, "` already exists; use --force to overwrite it");
            },
            HonuError::Backup { path, .. } => {
                push_str(&mut out, "failed to back up database to `");
                push_str(&mut out, path.as_str());
                push_str(&mut out, "`");
            },
        }
        string_from_chars(out.as_slice())
    }
}

} // verus!
