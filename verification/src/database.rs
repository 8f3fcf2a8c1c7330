//! The history database: executions, the most recent run of each distinct
//! command, and the import sources with the fingerprints of their records.

use vstd::prelude::*;
use rusqlite::Connection;
use crate::diff::{kept, kept_count, lemma_kept_count_monotonic, lemma_kept_count_prefix_unflagged, lemma_kept_count_step, lemma_kept_count_unflagged, lemma_kept_len, lemma_matched_items_equal, myers, myers_diff};
use crate::error::HonuError;
use crate::record::byte_views;
use crate::execution::{text_view, Execution, ExecutionView};
use crate::ids::{new_v4, parse_uuid, uuid_parse, uuid_text, uuid_to_string};
use crate::sql::{added_calls, backup_main, busy_timeout, done_or_failed, error_code, error_message, execute, execute_batch, extends, lookup, open_connection, pragma_update, query, ran, row_views, sql_value, statement, Call, Datum, Journal, Outcome, Param, Request};

verus! {

pub const SCHEMA_VERSION: usize = 4;

pub const MIGRATION_INITIAL: &'static str = "
CREATE TABLE executions (
  id TEXT PRIMARY KEY NOT NULL,
  command TEXT NOT NULL,
  timestamp_ns INTEGER NOT NULL,
  duration_ns INTEGER CHECK (duration_ns IS NULL OR duration_ns >= 0),
  exit_code INTEGER,
  directory TEXT,
  session TEXT,
  hostname TEXT,
  shell TEXT
);
CREATE INDEX executions_timestamp ON executions (timestamp_ns);
";

pub const MIGRATION_EXECUTION_TIMESTAMP_ID: &'static str = "
DROP INDEX executions_timestamp;
CREATE INDEX executions_timestamp ON executions (timestamp_ns, id);
";

pub const MIGRATION_IMPORT_SOURCES: &'static str = "
CREATE TABLE import_sources (
  id TEXT PRIMARY KEY NOT NULL,
  format TEXT NOT NULL,
  path BLOB NOT NULL,
  generation INTEGER NOT NULL DEFAULT 0,
  UNIQUE (format, path)
);
CREATE TABLE source_records (
  source_id TEXT NOT NULL REFERENCES import_sources (id) ON DELETE CASCADE,
  position INTEGER NOT NULL,
  fingerprint BLOB NOT NULL,
  execution_id TEXT NOT NULL,
  PRIMARY KEY (source_id, position)
);
";

pub const MIGRATION_COMMANDS: &'static str = "
CREATE TABLE commands (
  command TEXT PRIMARY KEY NOT NULL,
  timestamp_ns INTEGER NOT NULL,
  execution_id TEXT NOT NULL
);
INSERT OR IGNORE INTO commands (command, timestamp_ns, execution_id)
  SELECT command, timestamp_ns, id
  FROM executions
  ORDER BY timestamp_ns DESC, id DESC;
";

/// The migrations, in order: the one at `version` brings the schema from
/// `version` to `version + 1`.
pub open spec fn migration_at(version: nat) -> &'static str {
    if version == 0 {
        MIGRATION_INITIAL
    } else if version == 1 {
        MIGRATION_EXECUTION_TIMESTAMP_ID
    } else if version == 2 {
        MIGRATION_IMPORT_SOURCES
    } else {
        MIGRATION_COMMANDS
    }
}

/// The migration that brings the schema from `version` to `version + 1`.
pub fn migration(version: usize) -> (r: &'static str)
    requires
        version < SCHEMA_VERSION,
    ensures
        r == migration_at(version as nat),
{
    if version == 0 {
        MIGRATION_INITIAL
    } else if version == 1 {
        MIGRATION_EXECUTION_TIMESTAMP_ID
    } else if version == 2 {
        MIGRATION_IMPORT_SOURCES
    } else {
        MIGRATION_COMMANDS
    }
}

/// The schema version migrations start from, for a database whose stored
/// version is `version`: only versions up to the current one are supported.
pub fn first_migration(version: i64) -> (r: Result<usize, HonuError>)
    ensures
        match r {
            Ok(start) => 0 <= version <= SCHEMA_VERSION && start == version,
            Err(e) => (version < 0 || version > SCHEMA_VERSION) && e
                == HonuError::UnsupportedSchema { version },
        },
{
    if version < 0 || version > SCHEMA_VERSION as i64 {
        Err(HonuError::UnsupportedSchema { version })
    } else {
        Ok(version as usize)
    }
}

/// The migrations a database whose stored schema version is `version` needs,
/// in order, each with the schema version it brings the database to; a
/// version that is negative or newer than this library's is refused.
pub fn migrations_from(version: i64) -> (r: Result<Vec<(&'static str, i64)>, HonuError>)
    ensures
        match r {
            Ok(steps) => 0 <= version <= SCHEMA_VERSION && steps@.len() == SCHEMA_VERSION - version
                && forall|k: int|
                0 <= k < steps@.len() ==> #[trigger] steps@[k] == (
                    migration_at((version + k) as nat),
                    (version + k + 1) as i64,
                ),
            Err(e) => (version < 0 || version > SCHEMA_VERSION) && e
                == HonuError::UnsupportedSchema { version },
        },
{
    let mut next = match first_migration(version) {
        Ok(start) => start,
        Err(e) => return Err(e),
    };
    let mut steps: Vec<(&'static str, i64)> = Vec::new();
    while next < SCHEMA_VERSION
        invariant
            version <= next <= SCHEMA_VERSION,
            0 <= version,
            steps@.len() == next - version,
            forall|k: int|
                0 <= k < steps@.len() ==> #[trigger] steps@[k] == (
                    migration_at((version + k) as nat),
                    (version + k + 1) as i64,
                ),
        decreases SCHEMA_VERSION - next,
    {
        steps.push((migration(next), (next + 1) as i64));
        next = next + 1;
    }
    Ok(steps)
}

/// The text of a text value.
pub open spec fn text_of(v: Datum) -> Option<Seq<char>> {
    match v {
        Datum::Text(s) => Some(s@),
        _ => None,
    }
}

/// Whether `v` is a value column `column` of an execution row may hold: the
/// identifier and the command are text, the timestamp an integer, the duration
/// a null or an integer, the exit code a null or an `i32`, the rest null or text.
pub open spec fn cell_fits(v: Datum, column: int) -> bool {
    if column == 0 || column == 1 {
        v is Text
    } else if column == 2 {
        v is Integer
    } else if column == 3 {
        v is Null || v is Integer
    } else if column == 4 {
        v is Null || (v matches Datum::Integer(i) && i32::MIN <= i <= i32::MAX)
    } else {
        v is Null || v is Text
    }
}

/// The first of the execution columns from `from` on that is missing from
/// `row` or holds the wrong kind of value.
pub open spec fn first_bad_column(row: Seq<Datum>, from: int) -> Option<int>
    decreases 9 - from,
{
    if from >= 9 {
        None
    } else if from >= row.len() || !cell_fits(row[from], from) {
        Some(from)
    } else {
        first_bad_column(row, from + 1)
    }
}

pub open spec fn optional_text(v: Datum) -> Option<Seq<char>> {
    match v {
        Datum::Text(s) => Some(s@),
        _ => None,
    }
}

pub open spec fn optional_integer(v: Datum) -> Option<i64> {
    match v {
        Datum::Integer(i) => Some(i),
        _ => None,
    }
}

/// The execution the columns of `row` describe.
pub open spec fn row_execution(row: Seq<Datum>) -> ExecutionView {
    ExecutionView {
        command: text_of(row[1])->Some_0,
        directory: optional_text(row[5]),
        duration_ns: optional_integer(row[3]),
        exit_code: match optional_integer(row[4]) {
            Some(i) => Some(i as i32),
            None => None,
        },
        hostname: optional_text(row[7]),
        session: optional_text(row[6]),
        shell: optional_text(row[8]),
        timestamp_ns: optional_integer(row[2])->Some_0,
    }
}

/// Whether `row` describes an execution with a valid identifier.
pub open spec fn row_ok(row: Seq<Datum>) -> bool {
    first_bad_column(row, 0) is None && uuid_parse(text_of(row[0])->Some_0) is Some
}

/// Whether `e` is the error `row` is refused with.
pub open spec fn row_error(row: Seq<Datum>, e: HonuError) -> bool {
    match e {
        HonuError::InvalidColumn { index } => first_bad_column(row, 0) == Some(index as int),
        HonuError::InvalidExecutionId(id) => first_bad_column(row, 0) is None && text_of(row[0])
            == Some(id@) && uuid_parse(id@) is None,
        _ => false,
    }
}

fn text_cell(v: &Datum) -> (r: String)
    requires
        v is Text,
    ensures
        Some(r@) == text_of(*v),
{
    match v {
        Datum::Text(s) => s.clone(),
        _ => String::new(),
    }
}

fn optional_text_cell(v: &Datum) -> (r: Option<String>)
    ensures
        text_view(r) == optional_text(*v),
{
    match v {
        Datum::Text(s) => Some(s.clone()),
        _ => None,
    }
}

fn optional_integer_cell(v: &Datum) -> (r: Option<i64>)
    ensures
        r == optional_integer(*v),
{
    match v {
        Datum::Integer(i) => Some(*i),
        _ => None,
    }
}

fn cell_fits_exec(v: &Datum, column: usize) -> (r: bool)
    ensures
        r == cell_fits(*v, column as int),
{
    if column == 0 || column == 1 {
        matches!(v, Datum::Text(_))
    } else if column == 2 {
        matches!(v, Datum::Integer(_))
    } else if column == 3 {
        matches!(v, Datum::Null) || matches!(v, Datum::Integer(_))
    } else if column == 4 {
        match v {
            Datum::Null => true,
            Datum::Integer(i) => i32::MIN as i64 <= *i && *i <= i32::MAX as i64,
            _ => false,
        }
    } else {
        matches!(v, Datum::Null) || matches!(v, Datum::Text(_))
    }
}

/// The execution and identifier a row of a query over `executions` describes.
pub fn execution_from_row(row: &Vec<Datum>) -> (r: Result<(u128, Execution), HonuError>)
    ensures
        match r {
            Ok((id, execution)) => row_ok(row@) && uuid_parse(text_of(row@[0])->Some_0) == Some(id)
                && execution@ == row_execution(row@),
            Err(e) => !row_ok(row@) && row_error(row@, e),
        },
{
    let mut column: usize = 0;
    while column < 9
        invariant
            column <= 9,
            first_bad_column(row@, 0) == first_bad_column(row@, column as int),
            forall|k: int| 0 <= k < column ==> k < row@.len() && #[trigger] cell_fits(row@[k], k),
        decreases 9 - column,
    {
        if column >= row.len() || !cell_fits_exec(&row[column], column) {
            return Err(HonuError::InvalidColumn { index: column });
        }
        column = column + 1;
    }
    assert(cell_fits(row@[8], 8));
    assert(cell_fits(row@[0], 0));
    assert(cell_fits(row@[1], 1));
    assert(cell_fits(row@[2], 2));
    assert(cell_fits(row@[4], 4));
    let id_text = text_cell(&row[0]);
    let id = match parse_uuid(id_text.as_str()) {
        Some(id) => id,
        None => return Err(HonuError::InvalidExecutionId(id_text)),
    };
    let exit_code = match optional_integer_cell(&row[4]) {
        Some(code) => Some(code as i32),
        None => None,
    };
    let execution = Execution {
        command: text_cell(&row[1]),
        directory: optional_text_cell(&row[5]),
        duration_ns: optional_integer_cell(&row[3]),
        exit_code,
        hostname: optional_text_cell(&row[7]),
        session: optional_text_cell(&row[6]),
        shell: optional_text_cell(&row[8]),
        timestamp_ns: match optional_integer_cell(&row[2]) {
            Some(t) => t,
            None => 0,
        },
    };
    Ok((id, execution))
}

/// The executions the rows of a query over `executions` describe, or the
/// error of the first row that does not describe one.
pub fn executions_from_rows(rows: &Vec<Vec<Datum>>) -> (r: Result<Vec<(u128, Execution)>, HonuError>)
    ensures
        match r {
            Ok(executions) => executions@.len() == rows@.len() && forall|i: int|
                0 <= i < rows@.len() ==> #[trigger] row_ok(rows@[i]@) && uuid_parse(
                    text_of(rows@[i]@[0])->Some_0,
                ) == Some(executions@[i].0) && executions@[i].1@ == row_execution(rows@[i]@),
            Err(e) => exists|k: int|
                0 <= k < rows@.len() && (forall|i: int| 0 <= i < k ==> #[trigger] row_ok(rows@[i]@))
                    && !row_ok(rows@[k]@) && row_error(rows@[k]@, e),
        },
{
    let mut executions: Vec<(u128, Execution)> = Vec::new();
    let mut i: usize = 0;
    while i < rows.len()
        invariant
            i <= rows@.len(),
            executions@.len() == i,
            forall|j: int|
                0 <= j < i ==> #[trigger] row_ok(rows@[j]@) && uuid_parse(
                    text_of(rows@[j]@[0])->Some_0,
                ) == Some(executions@[j].0) && executions@[j].1@ == row_execution(rows@[j]@),
        decreases rows@.len() - i,
    {
        match execution_from_row(&rows[i]) {
            Ok(pair) => executions.push(pair),
            Err(e) => {
                assert(forall|j: int| 0 <= j < i ==> #[trigger] row_ok(rows@[j]@));
                return Err(e);
            },
        }
        i = i + 1;
    }
    Ok(executions)
}

/// The integer in the first column of the first row.
pub fn first_integer(rows: &Vec<Vec<Datum>>) -> (r: Result<i64, HonuError>)
    ensures
        match r {
            Ok(i) => rows@.len() > 0 && rows@[0]@.len() > 0 && rows@[0]@[0] == Datum::Integer(i),
            Err(e) => if rows@.len() == 0 {
                e == HonuError::NoRows
            } else {
                e == (HonuError::InvalidColumn { index: 0 }) && !(rows@[0]@.len() > 0
                    && rows@[0]@[0] is Integer)
            },
        },
{
    if rows.len() == 0 {
        return Err(HonuError::NoRows);
    }
    if rows[0].len() == 0 {
        return Err(HonuError::InvalidColumn { index: 0 });
    }
    match &rows[0][0] {
        Datum::Integer(i) => Ok(*i),
        _ => Err(HonuError::InvalidColumn { index: 0 }),
    }
}

/// An SQLite error, by its message.
fn sqlite(error: rusqlite::Error) -> (r: HonuError)
    ensures
        r is Sqlite,
{
    HonuError::Sqlite { code: error_code(&error), message: error_message(&error) }
}

/// Whether `calls` are a transaction begun with `begin` that did not commit:
/// beginning it failed and nothing more was asked, or it was begun and the
/// last call rolled it back.
pub open spec fn aborted(calls: Seq<Call>, begin: Seq<char>) -> bool {
    &&& calls.len() >= 1
    &&& calls[0].request == Request::Batch(begin)
    &&& if calls[0].outcome is Failed {
        calls.len() == 1
    } else {
        calls.len() >= 2 && calls.last().request == Request::Batch("ROLLBACK"@)
    }
}

/// Whether the call that failed is the last one asked before the rollback,
/// or the only one asked.
pub open spec fn failed_at_end(calls: Seq<Call>) -> bool {
    if calls.len() == 1 {
        calls[0].outcome is Failed
    } else {
        calls.len() >= 2 && calls[calls.len() - 2].outcome is Failed
    }
}

/// Whether `calls` are a transaction begun with `begin` that ended in the
/// error `e`: it was not committed, and where `e` is SQLite's, the call that
/// gave it is the last one before the rollback.
pub open spec fn failed_transaction(calls: Seq<Call>, begin: Seq<char>, e: HonuError) -> bool {
    &&& aborted(calls, begin)
    &&& e is Sqlite ==> failed_at_end(calls)
}

/// Beginning the transaction asked for after `before` failed, and nothing
/// was asked since.
proof fn lemma_begin_failed(before: Seq<Call>, calls: Seq<Call>, begin: Seq<char>)
    requires
        calls.len() == before.len() + 1,
        forall|j: int| 0 <= j < before.len() ==> #[trigger] calls[j] == before[j],
        calls.last().request == Request::Batch(begin),
        calls.last().outcome is Failed,
    ensures
        extends(before, calls),
        aborted(added_calls(before, calls), begin),
        failed_at_end(added_calls(before, calls)),
{
    assert(added_calls(before, calls).len() == 1);
    assert(added_calls(before, calls)[0] == calls.last());
}

/// The transaction begun at `start` (the first call after `before`) was
/// rolled back after the calls `failed`.
proof fn lemma_rolled_back(before: Seq<Call>, start: int, calls: Seq<Call>, failed: Seq<Call>, begin: Seq<char>)
    requires
        before.len() <= start < failed.len(),
        extends(before, failed),
        failed[start].request == Request::Batch(begin),
        failed[start].outcome is Done,
        calls.len() == failed.len() + 1,
        forall|j: int| 0 <= j < failed.len() ==> #[trigger] calls[j] == failed[j],
        calls.last().request == Request::Batch("ROLLBACK"@),
    ensures
        extends(before, calls),
        aborted(calls.skip(start), begin),
        failed.last().outcome is Failed ==> failed_at_end(calls.skip(start)),
{
    let rest = calls.skip(start);
    assert(rest[0] == calls[start]);
    assert(rest.last() == calls.last());
    assert(rest[rest.len() - 2] == calls[calls.len() - 2]);
    assert(calls[calls.len() - 2] == failed.last());
    assert forall|j: int| 0 <= j < before.len() implies #[trigger] calls[j] == before[j] by {
        assert(calls[j] == failed[j]);
    }
}

/// Ends the open transaction, undoing its changes; its own failure is ignored,
/// as the error that led here is the one reported.
fn rollback(connection: &Connection, journal: &mut Journal)
    ensures
        final(journal).calls().drop_last() == old(journal).calls(),
        final(journal).calls().len() == old(journal).calls().len() + 1,
        final(journal).calls().last().request == Request::Batch("ROLLBACK"@),
{
    let _ = execute_batch(connection, "ROLLBACK", journal);
}

fn optional_text_param(s: &Option<String>) -> (r: Param)
    ensures
        text_param(r) == text_view(*s),
        r is Null || r is Text,
{
    match s {
        Some(t) => Param::Text(t.clone()),
        None => Param::Null,
    }
}

/// The parameters a row of `executions` is written with: identifier, command,
/// timestamp, duration, exit code, directory, session, hostname and shell.
pub open spec fn execution_params_ok(id: Seq<char>, execution: ExecutionView, params: Seq<Param>) -> bool {
    &&& params.len() == 9
    &&& params[0] matches Param::Text(t) && t@ == id
    &&& params[1] matches Param::Text(t) && t@ == execution.command
    &&& params[2] == Param::Integer(execution.timestamp_ns)
    &&& params[3] == match execution.duration_ns {
        Some(d) => Param::Integer(d),
        None => Param::Null,
    }
    &&& params[4] == match execution.exit_code {
        Some(c) => Param::Integer(c as i64),
        None => Param::Null,
    }
    &&& text_param(params[5]) == execution.directory
    &&& text_param(params[6]) == execution.session
    &&& text_param(params[7]) == execution.hostname
    &&& text_param(params[8]) == execution.shell
    &&& forall|i: int| 5 <= i < 9 ==> (#[trigger] params[i] is Null || params[i] is Text)
}

pub open spec fn text_param(p: Param) -> Option<Seq<char>> {
    match p {
        Param::Text(t) => Some(t@),
        _ => None,
    }
}

/// The parameters an execution is written with.
pub fn execution_params(id: &String, execution: &Execution) -> (r: Vec<Param>)
    ensures
        execution_params_ok(id@, execution@, r@),
{
    let mut params: Vec<Param> = Vec::new();
    params.push(Param::Text(id.clone()));
    params.push(Param::Text(execution.command.clone()));
    params.push(Param::Integer(execution.timestamp_ns));
    params.push(
        match execution.duration_ns {
            Some(d) => Param::Integer(d),
            None => Param::Null,
        },
    );
    params.push(
        match execution.exit_code {
            Some(c) => Param::Integer(c as i64),
            None => Param::Null,
        },
    );
    params.push(optional_text_param(&execution.directory));
    params.push(optional_text_param(&execution.session));
    params.push(optional_text_param(&execution.hostname));
    params.push(optional_text_param(&execution.shell));
    params
}

/// Whether `executions` are what the query rows `rows` describe, one per row
/// and in order.
pub open spec fn executions_of(rows: Seq<Seq<Datum>>, executions: Seq<(u128, Execution)>) -> bool {
    &&& executions.len() == rows.len()
    &&& forall|i: int|
        0 <= i < rows.len() ==> #[trigger] row_ok(rows[i]) && uuid_parse(text_of(rows[i][0])->Some_0)
            == Some(executions[i].0) && executions[i].1@ == row_execution(rows[i])
}

/// Whether every one of `rows` describes an execution.
pub open spec fn rows_ok(rows: Seq<Seq<Datum>>) -> bool {
    forall|i: int| 0 <= i < rows.len() ==> #[trigger] row_ok(rows[i])
}

/// What the answer rows of an existence query say: whether the flag in the
/// first column of the first row is set.
pub open spec fn exists_flag(rows: Seq<Seq<Datum>>) -> Result<bool, HonuError> {
    if rows.len() == 0 {
        Err(HonuError::NoRows)
    } else if rows[0].len() > 0 && rows[0][0] is Integer {
        Ok(rows[0][0]->Integer_0 != 0)
    } else {
        Err(HonuError::InvalidColumn { index: 0 })
    }
}

/// Reads the answer of an existence query.
pub fn flag_from_rows(rows: &Vec<Vec<Datum>>) -> (r: Result<bool, HonuError>)
    ensures
        r == exists_flag(row_views(rows@)),
{
    match first_integer(rows) {
        Ok(flag) => Ok(flag != 0),
        Err(e) => Err(e),
    }
}

/// The parameters of the query for the `limit` most recent executions.
pub fn recent_params(limit: usize) -> (r: Vec<Param>)
    requires
        limit <= i64::MAX,
    ensures
        r@ == seq![Param::Integer(limit as i64)],
{
    let mut params: Vec<Param> = Vec::new();
    params.push(Param::Integer(limit as i64));
    params
}

/// The parameters of the query for the `limit` most recent executions whose
/// command contains `query_text`.
pub fn search_params(query_text: &str, limit: usize) -> (r: Vec<Param>)
    requires
        limit <= i64::MAX,
    ensures
        r@.len() == 2,
        r@[0] matches Param::Text(t) && t@ == query_text@,
        r@[1] == Param::Integer(limit as i64),
{
    let mut params: Vec<Param> = Vec::new();
    params.push(Param::Text(String::from_str(query_text)));
    params.push(Param::Integer(limit as i64));
    params
}

/// The parameters the most recent run of `execution`'s command is recorded
/// with: the command, its timestamp and the execution's identifier `id`.
pub fn command_params(execution: &Execution, id: &String) -> (r: Vec<Param>)
    ensures
        r@.len() == 3,
        r@[0] matches Param::Text(t) && t@ == execution.command@,
        r@[1] == Param::Integer(execution.timestamp_ns),
        r@[2] matches Param::Text(t) && t@ == id@,
{
    let mut params: Vec<Param> = Vec::new();
    params.push(Param::Text(execution.command.clone()));
    params.push(Param::Integer(execution.timestamp_ns));
    params.push(Param::Text(id.clone()));
    params
}

pub const INSERT_EXECUTION: &'static str = "INSERT INTO executions (
  id, command, timestamp_ns, duration_ns, exit_code, directory, session, hostname, shell
) VALUES (?1, ?2, ?3, ?4, ?5, ?6, ?7, ?8, ?9)";

pub const UPSERT_COMMAND: &'static str = "INSERT INTO commands (command, timestamp_ns, execution_id)
VALUES (?1, ?2, ?3)
ON CONFLICT (command) DO UPDATE SET
  timestamp_ns = excluded.timestamp_ns,
  execution_id = excluded.execution_id
WHERE excluded.timestamp_ns > commands.timestamp_ns
  OR (
    excluded.timestamp_ns = commands.timestamp_ns
    AND excluded.execution_id > commands.execution_id
  )";

pub const SELECT_RECENT: &'static str = "SELECT
  id, command, timestamp_ns, duration_ns, exit_code, directory, session, hostname, shell
FROM executions
ORDER BY timestamp_ns DESC, id DESC
LIMIT ?1";

pub const SELECT_SEARCH: &'static str = "WITH matches AS (
  SELECT
    id, command, timestamp_ns, duration_ns, exit_code, directory, session, hostname, shell,
    ROW_NUMBER() OVER (
      PARTITION BY command
      ORDER BY timestamp_ns DESC, id DESC
    ) AS command_rank
  FROM executions
  WHERE INSTR(LOWER(command), LOWER(?1)) > 0
)
SELECT
  id, command, timestamp_ns, duration_ns, exit_code, directory, session, hostname, shell
FROM matches
WHERE command_rank = 1
ORDER BY timestamp_ns DESC, id DESC
LIMIT ?2";

/// The history database, with the record of the requests it made of SQLite.
pub struct Database {
    connection: Connection,
    journal: Journal,
}

/// Whether `e` is an error that opening a database can end with: one that
/// SQLite reported, a schema version this library does not support, a failed
/// migration to one of its versions, or a version that could not be read.
pub open spec fn opening_error(e: HonuError) -> bool {
    match e {
        HonuError::Sqlite { .. } => true,
        HonuError::NoRows => true,
        HonuError::InvalidColumn { index } => index == 0,
        HonuError::UnsupportedSchema { version } => version < 0 || version > SCHEMA_VERSION,
        HonuError::Migration { version, .. } => 1 <= version <= SCHEMA_VERSION,
        _ => false,
    }
}

/// Whether `call` is the successful run of the statements `sql`.
pub open spec fn ran_batch(call: Call, sql: Seq<char>) -> bool {
    call.request == Request::Batch(sql) && call.outcome == Outcome::Done
}

/// The integer in the first column of the first of `rows`, if there is one.
pub open spec fn first_integer_of(rows: Seq<Seq<Datum>>) -> Option<i64> {
    if rows.len() > 0 && rows[0].len() > 0 && rows[0][0] is Integer {
        Some(rows[0][0]->Integer_0)
    } else {
        None
    }
}

/// Whether `calls` are what opening a database makes of SQLite when it
/// succeeds: a busy timeout of five seconds, write-ahead logging and foreign
/// keys switched on, then in one transaction the stored schema version is
/// read and each migration it lacks is run, each followed by writing the
/// version it brings the schema to.
pub open spec fn opened(calls: Seq<Call>) -> bool {
    exists|version: i64|
        #![trigger version_read(calls, version)]
        0 <= version <= SCHEMA_VERSION && version_read(calls, version) && calls.len() == 6 + 2 * (
        SCHEMA_VERSION - version) && (forall|k: int|
            0 <= k < SCHEMA_VERSION - version ==> #[trigger] ran_batch(
                calls[5 + 2 * k],
                migration_at((version + k) as nat)@,
            ) && calls[6 + 2 * k].request == Request::Pragma(
                "user_version"@,
                Param::Integer((version + k + 1) as i64),
            ) && calls[6 + 2 * k].outcome == Outcome::Done) && ran_batch(
            calls[calls.len() - 1],
            "COMMIT"@,
        )
}

/// Whether the first five of `calls` set up the connection, start the
/// transaction and read the stored schema version `version`.
pub open spec fn version_read(calls: Seq<Call>, version: i64) -> bool {
    &&& calls.len() >= 5
    &&& calls[0] == Call { request: Request::BusyTimeout(5000), outcome: Outcome::Done }
    &&& calls[1].request matches Request::Pragma(name, value) && name == "journal_mode"@
        && text_param(value) == Some("WAL"@)
    &&& calls[1].outcome == Outcome::Done
    &&& calls[2] == Call {
        request: Request::Pragma("foreign_keys"@, Param::Integer(1)),
        outcome: Outcome::Done,
    }
    &&& ran_batch(calls[3], "BEGIN IMMEDIATE"@)
    &&& calls[4].request == lookup("PRAGMA user_version"@, Seq::empty())
    &&& calls[4].outcome matches Outcome::Rows(rows) && first_integer_of(rows) == Some(version)
}

/// Whether `call` is the successful run of the statement `sql` with the
/// parameters `params`.
pub open spec fn ran_statement(call: Call, sql: Seq<char>, params: Seq<Param>) -> bool {
    call.request == statement(sql, params) && call.outcome is Changed
}

/// Whether `call` wrote `execution` under the identifier `id`.
pub open spec fn inserted_execution(call: Call, id: Seq<char>, execution: ExecutionView) -> bool {
    exists|params: Seq<Param>|
        #![trigger statement(INSERT_EXECUTION@, params)]
        ran_statement(call, INSERT_EXECUTION@, params) && execution_params_ok(id, execution, params)
}

/// Whether `call` recorded the execution `id` of `execution` as its command's
/// most recent run, where it is the latest.
pub open spec fn recorded_command(call: Call, id: Seq<char>, execution: ExecutionView) -> bool {
    exists|params: Seq<Param>|
        #![trigger statement(UPSERT_COMMAND@, params)]
        ran_statement(call, UPSERT_COMMAND@, params) && params.len() == 3 && text_param(params[0])
            == Some(execution.command) && params[1] == Param::Integer(execution.timestamp_ns)
            && text_param(params[2]) == Some(id)
}

/// Whether `request` is the query for the `limit` most recent executions
/// whose command contains `text`.
pub open spec fn search_request(request: Request, text: Seq<char>, limit: usize) -> bool {
    exists|params: Seq<Param>|
        #![trigger lookup(SELECT_SEARCH@, params)]
        request == lookup(SELECT_SEARCH@, params) && params.len() == 2 && text_param(params[0])
            == Some(text) && params[1] == Param::Integer(limit as i64)
}

/// A search hands SQLite its own statement with two parameters: the whole
/// query text, as given, and the limit. No other text stands in for the
/// query: a request made with a different text is not this search's.
pub proof fn searches_hand_over_the_whole_query(request: Request, text: Seq<char>, limit: usize)
    requires
        search_request(request, text, limit),
    ensures
        request matches Request::Query(sql, values) && sql == SELECT_SEARCH@ && values.len() == 2,
        exists|pattern: Param|
            #![trigger sql_value(pattern)]
            text_param(pattern) == Some(text) && request->Query_1[0] == sql_value(pattern),
        request->Query_1[1] == sql_value(Param::Integer(limit as i64)),
{
    let params = choose|params: Seq<Param>|
        #![trigger lookup(SELECT_SEARCH@, params)]
        {
            &&& request == lookup(SELECT_SEARCH@, params)
            &&& params.len() == 2
            &&& text_param(params[0]) == Some(text)
            &&& params[1] == Param::Integer(limit as i64)
        };
    assert(request->Query_1[0] == sql_value(params[0]));
}

/// What a listing of executions gives for the outcome of its query: the
/// executions the rows describe, or the error of SQLite or of the first row
/// that describes none.
pub open spec fn listing_result(outcome: Outcome, r: Result<Vec<(u128, Execution)>, HonuError>) -> bool {
    match outcome {
        Outcome::Rows(rows) => match r {
            Ok(executions) => rows_ok(rows) && executions_of(rows, executions@),
            Err(e) => !rows_ok(rows) && (e is InvalidColumn || e is InvalidExecutionId),
        },
        _ => r matches Err(e) && e is Sqlite,
    }
}

impl Database {
    /// The connection the database works through.
    pub closed spec fn handle(&self) -> Connection {
        self.connection
    }

    /// The requests made of SQLite through this database so far, in order,
    /// with their outcomes.
    pub closed spec fn calls(&self) -> Seq<Call> {
        self.journal.calls()
    }

    /// The connection to the database file.
    pub fn connection(&self) -> (r: &Connection)
        ensures
            *r == self.handle(),
    {
        &self.connection
    }

    /// Gives the connection back.
    pub fn into_connection(self) -> (r: Connection)
        ensures
            r == self.handle(),
    {
        self.connection
    }

    /// Opens the database file at `path`, creating it if needed, and brings
    /// its schema up to date.
    pub fn open(path: &str) -> (r: Result<Database, HonuError>)
        ensures
            r matches Ok(database) ==> opened(database.calls()),
            r matches Err(e) ==> opening_error(e),
    {
        match open_connection(path) {
            Ok(connection) => Database::try_from(connection),
            Err(e) => Err(sqlite(e)),
        }
    }

    /// Sets up `connection` (a busy timeout of five seconds, write-ahead
    /// logging, foreign keys) and applies the migrations its schema lacks, in
    /// one transaction. A schema version that is negative or newer than this
    /// library's is refused, with nothing changed.
    pub fn try_from(connection: Connection) -> (r: Result<Database, HonuError>)
        ensures
            r matches Ok(database) ==> database.handle() == connection && opened(database.calls()),
            r matches Err(e) ==> opening_error(e),
    {
        let ghost old_connection = connection;
        let mut journal = Journal::new();
        if let Err(e) = busy_timeout(&connection, 5000, &mut journal) {
            return Err(sqlite(e));
        }
        if let Err(e) = pragma_update(&connection, "journal_mode", &Param::Text(String::from_str("WAL")), &mut journal) {
            return Err(sqlite(e));
        }
        proof {
            reveal_strlit("WAL");
        }
        if let Err(e) = pragma_update(&connection, "foreign_keys", &Param::Integer(1), &mut journal) {
            return Err(sqlite(e));
        }
        if let Err(e) = execute_batch(&connection, "BEGIN IMMEDIATE", &mut journal) {
            return Err(sqlite(e));
        }
        let no_params: Vec<Param> = Vec::new();
        let rows = match query(&connection, "PRAGMA user_version", no_params.as_slice(), &mut journal) {
            Ok(rows) => rows,
            Err(e) => {
                rollback(&connection, &mut journal);
                return Err(sqlite(e));
            },
        };
        let version = match first_integer(&rows) {
            Ok(version) => version,
            Err(e) => {
                rollback(&connection, &mut journal);
                return Err(e);
            },
        };
        assert(row_views(rows@)[0] == rows@[0]@);
        let ghost start = journal.calls();
        assert(version_read(start, version));
        let steps = match migrations_from(version) {
            Ok(steps) => steps,
            Err(e) => {
                rollback(&connection, &mut journal);
                return Err(e);
            },
        };
        let mut i: usize = 0;
        while i < steps.len()
            invariant
                i <= steps@.len(),
                connection == old_connection,
                0 <= version <= SCHEMA_VERSION,
                steps@.len() == SCHEMA_VERSION - version,
                forall|k: int|
                    0 <= k < steps@.len() ==> #[trigger] steps@[k] == (
                        migration_at((version + k) as nat),
                        (version + k + 1) as i64,
                    ),
                start.len() == 5,
                version_read(start, version),
                journal.calls().len() == 5 + 2 * i,
                journal.calls().take(5) == start,
                forall|k: int|
                    0 <= k < i ==> #[trigger] ran_batch(
                        journal.calls()[5 + 2 * k],
                        migration_at((version + k) as nat)@,
                    ) && journal.calls()[6 + 2 * k].request == Request::Pragma(
                        "user_version"@,
                        Param::Integer((version + k + 1) as i64),
                    ) && journal.calls()[6 + 2 * k].outcome == Outcome::Done,
            decreases steps@.len() - i,
        {
            let ghost prev = journal.calls();
            let (sql, target) = steps[i];
            if let Err(e) = execute_batch(&connection, sql, &mut journal) {
                rollback(&connection, &mut journal);
                return Err(HonuError::Migration { version: target as usize, cause: error_message(&e) });
            }
            if let Err(e) = pragma_update(&connection, "user_version", &Param::Integer(target), &mut journal) {
                rollback(&connection, &mut journal);
                return Err(sqlite(e));
            }
            let ghost old_i = i;
            i = i + 1;
            proof {
                let calls = journal.calls();
                assert(calls.take(5) =~= prev.take(5));
                assert forall|k: int| 0 <= k < i implies #[trigger] ran_batch(
                    calls[5 + 2 * k],
                    migration_at((version + k) as nat)@,
                ) && calls[6 + 2 * k].request == Request::Pragma(
                    "user_version"@,
                    Param::Integer((version + k + 1) as i64),
                ) && calls[6 + 2 * k].outcome == Outcome::Done by {
                    if k < old_i {
                        assert(calls[5 + 2 * k] == prev[5 + 2 * k]);
                        assert(calls[6 + 2 * k] == prev[6 + 2 * k]);
                        assert(ran_batch(prev[5 + 2 * k], migration_at((version + k) as nat)@));
                    } else {
                        assert(k == old_i);
                        assert(steps@[k] == (migration_at((version + k) as nat), (version + k + 1) as i64));
                        assert(sql == migration_at((version + k) as nat));
                        assert(prev.len() == 5 + 2 * k);
                        assert(calls[5 + 2 * k] == Call { request: Request::Batch(sql@), outcome: Outcome::Done });
                        assert(calls[6 + 2 * k] == Call {
                            request: Request::Pragma("user_version"@, Param::Integer(target)),
                            outcome: Outcome::Done,
                        });
                    }
                }
            }
        }
        if let Err(e) = execute_batch(&connection, "COMMIT", &mut journal) {
            rollback(&connection, &mut journal);
            return Err(sqlite(e));
        }
        let ghost last = journal.calls();
        let database = Database { connection, journal };
        assert(opened(database.calls())) by {
            let calls = database.calls();
            assert(calls.take(5) =~= start);
            assert(calls[0] == start[0] && calls[1] == start[1] && calls[2] == start[2] && calls[3] == start[3] && calls[4] == start[4]);
            assert(version_read(calls, version));
            assert forall|k: int| 0 <= k < SCHEMA_VERSION - version implies #[trigger] ran_batch(
                calls[5 + 2 * k],
                migration_at((version + k) as nat)@,
            ) && calls[6 + 2 * k].request == Request::Pragma(
                "user_version"@,
                Param::Integer((version + k + 1) as i64),
            ) && calls[6 + 2 * k].outcome == Outcome::Done by {
                assert(calls[5 + 2 * k] == last[5 + 2 * k]);
                assert(calls[6 + 2 * k] == last[6 + 2 * k]);
                assert(ran_batch(last[5 + 2 * k], migration_at((version + k) as nat)@));
            }
        }
        Ok(database)
    }

    /// Copies the database, as it stands, into the database file at
    /// `destination` (the copy step of a `crate::backup::Backup`).
    pub fn backup(&mut self, destination: &str) -> (r: Result<(), HonuError>)
        ensures
            final(self).handle() == old(self).handle(),
            final(self).calls() == old(self).calls().push(
                Call { request: Request::Backup(destination@), outcome: done_or_failed(r) },
            ),
            r matches Err(e) ==> e is Sqlite,
    {
        match backup_main(&self.connection, destination, &mut self.journal) {
            Ok(()) => Ok(()),
            Err(e) => Err(sqlite(e)),
        }
    }

    /// Deletes every execution, command and import source, in one transaction.
    pub fn clear(&mut self) -> (r: Result<(), HonuError>)
        ensures
            final(self).handle() == old(self).handle(),
            r is Ok ==> extends(old(self).calls(), final(self).calls()) && ran(
                added_calls(old(self).calls(), final(self).calls()),
                seq![
                    Request::Batch("BEGIN"@),
                    Request::Batch("DELETE FROM commands"@),
                    Request::Batch("DELETE FROM import_sources"@),
                    Request::Batch("DELETE FROM executions"@),
                    Request::Batch("COMMIT"@),
                ],
            ),
            r matches Err(e) ==> e is Sqlite && extends(old(self).calls(), final(self).calls())
                && failed_transaction(added_calls(old(self).calls(), final(self).calls()), "BEGIN"@, e),
    {
        let ghost before = self.journal.calls();
        let ghost start = before.len() as int;
        if let Err(e) = execute_batch(&self.connection, "BEGIN", &mut self.journal) {
            proof {
                lemma_begin_failed(before, self.journal.calls(), "BEGIN"@);
            }
            return Err(sqlite(e));
        }
        let ghost begun = self.journal.calls();
        if let Err(e) = execute_batch(&self.connection, "DELETE FROM commands", &mut self.journal) {
            let ghost failed = self.journal.calls();
            rollback(&self.connection, &mut self.journal);
            proof {
                lemma_rolled_back(before, start, self.journal.calls(), failed, "BEGIN"@);
            }
            return Err(sqlite(e));
        }
        if let Err(e) = execute_batch(&self.connection, "DELETE FROM import_sources", &mut self.journal) {
            let ghost failed = self.journal.calls();
            rollback(&self.connection, &mut self.journal);
            proof {
                assert(failed[start] == begun[start]);
                lemma_rolled_back(before, start, self.journal.calls(), failed, "BEGIN"@);
            }
            return Err(sqlite(e));
        }
        if let Err(e) = execute_batch(&self.connection, "DELETE FROM executions", &mut self.journal) {
            let ghost failed = self.journal.calls();
            rollback(&self.connection, &mut self.journal);
            proof {
                assert(failed[start] == begun[start]);
                lemma_rolled_back(before, start, self.journal.calls(), failed, "BEGIN"@);
            }
            return Err(sqlite(e));
        }
        if let Err(e) = execute_batch(&self.connection, "COMMIT", &mut self.journal) {
            let ghost failed = self.journal.calls();
            rollback(&self.connection, &mut self.journal);
            proof {
                assert(failed[start] == begun[start]);
                lemma_rolled_back(before, start, self.journal.calls(), failed, "BEGIN"@);
            }
            return Err(sqlite(e));
        }
        proof {
            let added = added_calls(before, self.journal.calls());
            assert(added.len() == 5);
        }
        Ok(())
    }

    /// Whether any execution is stored.
    pub fn has_executions(&mut self) -> (r: Result<bool, HonuError>)
        ensures
            final(self).handle() == old(self).handle(),
            final(self).calls().drop_last() == old(self).calls(),
            final(self).calls().len() == old(self).calls().len() + 1,
            final(self).calls().last().request == lookup(
                "SELECT EXISTS(SELECT 1 FROM executions)"@,
                Seq::empty(),
            ),
            match final(self).calls().last().outcome {
                Outcome::Rows(rows) => r == exists_flag(rows),
                _ => r matches Err(e) && e is Sqlite,
            },
    {
        let no_params: Vec<Param> = Vec::new();
        let rows = match query(&self.connection, "SELECT EXISTS(SELECT 1 FROM executions)", no_params.as_slice(), &mut self.journal) {
            Ok(rows) => rows,
            Err(e) => return Err(sqlite(e)),
        };
        flag_from_rows(&rows)
    }

    /// Stores `execution` under a fresh random identifier, and makes it its
    /// command's most recent run if it is the latest; returns the identifier.
    pub fn insert(&mut self, execution: &Execution) -> (r: Result<u128, HonuError>)
        ensures
            final(self).handle() == old(self).handle(),
            r matches Ok(id) ==> extends(old(self).calls(), final(self).calls()) && ({
                let added = added_calls(old(self).calls(), final(self).calls());
                &&& added.len() == 4
                &&& ran_batch(added[0], "BEGIN IMMEDIATE"@)
                &&& inserted_execution(added[1], uuid_text(id), execution@)
                &&& recorded_command(added[2], uuid_text(id), execution@)
                &&& ran_batch(added[3], "COMMIT"@)
            }),
            r matches Err(e) ==> e is Sqlite && extends(old(self).calls(), final(self).calls())
                && failed_transaction(
                added_calls(old(self).calls(), final(self).calls()),
                "BEGIN IMMEDIATE"@,
                e,
            ),
    {
        let ghost before = self.journal.calls();
        let ghost start = before.len() as int;
        let id = new_v4();
        let id_text = uuid_to_string(id);
        let params = execution_params(&id_text, execution);
        if let Err(e) = execute_batch(&self.connection, "BEGIN IMMEDIATE", &mut self.journal) {
            proof {
                lemma_begin_failed(before, self.journal.calls(), "BEGIN IMMEDIATE"@);
            }
            return Err(sqlite(e));
        }
        let ghost begun = self.journal.calls();
        if let Err(e) = execute(&self.connection, INSERT_EXECUTION, params.as_slice(), &mut self.journal) {
            let ghost failed = self.journal.calls();
            rollback(&self.connection, &mut self.journal);
            proof {
                lemma_rolled_back(before, start, self.journal.calls(), failed, "BEGIN IMMEDIATE"@);
            }
            return Err(sqlite(e));
        }
        let command_params = command_params(execution, &id_text);
        if let Err(e) = execute(&self.connection, UPSERT_COMMAND, command_params.as_slice(), &mut self.journal) {
            let ghost failed = self.journal.calls();
            rollback(&self.connection, &mut self.journal);
            proof {
                assert(failed[start] == begun[start]);
                lemma_rolled_back(before, start, self.journal.calls(), failed, "BEGIN IMMEDIATE"@);
            }
            return Err(sqlite(e));
        }
        if let Err(e) = execute_batch(&self.connection, "COMMIT", &mut self.journal) {
            let ghost failed = self.journal.calls();
            rollback(&self.connection, &mut self.journal);
            proof {
                assert(failed[start] == begun[start]);
                lemma_rolled_back(before, start, self.journal.calls(), failed, "BEGIN IMMEDIATE"@);
            }
            return Err(sqlite(e));
        }
        proof {
            let added = added_calls(before, self.journal.calls());
            assert(ran_statement(added[1], INSERT_EXECUTION@, params@));
            assert(ran_statement(added[2], UPSERT_COMMAND@, command_params@));
        }
        Ok(id)
    }

    /// The `limit` most recent executions, newest first; a limit beyond
    /// SQLite's integer range is refused.
    pub fn recent(&mut self, limit: usize) -> (r: Result<Vec<(u128, Execution)>, HonuError>)
        ensures
            final(self).handle() == old(self).handle(),
            limit > i64::MAX ==> r == Err::<Vec<(u128, Execution)>, HonuError>(
                HonuError::LimitOutOfRange,
            ) && final(self).calls() == old(self).calls(),
            limit <= i64::MAX ==> ({
                &&& final(self).calls().drop_last() == old(self).calls()
                &&& final(self).calls().len() == old(self).calls().len() + 1
                &&& final(self).calls().last().request == lookup(
                    SELECT_RECENT@,
                    seq![Param::Integer(limit as i64)],
                )
                &&& listing_result(final(self).calls().last().outcome, r)
            }),
    {
        if limit as u128 > i64::MAX as u128 {
            return Err(HonuError::LimitOutOfRange);
        }
        let params = recent_params(limit);
        match query(&self.connection, SELECT_RECENT, params.as_slice(), &mut self.journal) {
            Ok(rows) => Database::decode_executions(&rows),
            Err(e) => Err(sqlite(e)),
        }
    }

    /// The executions `rows` describe, or the error of the first row that
    /// describes none.
    fn decode_executions(rows: &Vec<Vec<Datum>>) -> (r: Result<Vec<(u128, Execution)>, HonuError>)
        ensures
            listing_result(Outcome::Rows(row_views(rows@)), r),
    {
        let r = executions_from_rows(rows);
        let ghost views = row_views(rows@);
        proof {
            assert forall|i: int| 0 <= i < rows@.len() implies views[i] == rows@[i]@ by {}
            if r is Ok {
                let v = r->Ok_0;
                assert forall|i: int| 0 <= i < views.len() implies #[trigger] row_ok(views[i])
                    && uuid_parse(text_of(views[i][0])->Some_0) == Some(v@[i].0) && v@[i].1@
                    == row_execution(views[i]) by {
                    assert(views[i] == rows@[i]@);
                    assert(row_ok(rows@[i]@));
                }
                assert(executions_of(views, v@));
                assert(rows_ok(views));
            }
            if r is Err {
                let e = r->Err_0;
                let k = choose|k: int|
                    0 <= k < rows@.len() && (forall|i: int| 0 <= i < k ==> #[trigger] row_ok(rows@[i]@))
                        && !row_ok(rows@[k]@) && row_error(rows@[k]@, e);
                assert(row_error(rows@[k]@, e));
                assert(views[k] == rows@[k]@);
                assert(!row_ok(views[k]));
            }
        }
        r
    }

    /// The `limit` most recent executions whose command contains `query`,
    /// ignoring ASCII case, newest first and only the newest of each command;
    /// a limit beyond SQLite's integer range is refused.
    pub fn search(&mut self, query_text: &str, limit: usize) -> (r: Result<Vec<(u128, Execution)>, HonuError>)
        ensures
            final(self).handle() == old(self).handle(),
            limit > i64::MAX ==> r == Err::<Vec<(u128, Execution)>, HonuError>(
                HonuError::LimitOutOfRange,
            ) && final(self).calls() == old(self).calls(),
            limit <= i64::MAX ==> ({
                &&& final(self).calls().drop_last() == old(self).calls()
                &&& final(self).calls().len() == old(self).calls().len() + 1
                &&& search_request(final(self).calls().last().request, query_text@, limit)
                &&& listing_result(final(self).calls().last().outcome, r)
            }),
    {
        if limit as u128 > i64::MAX as u128 {
            return Err(HonuError::LimitOutOfRange);
        }
        let params = search_params(query_text, limit);
        let r = match query(&self.connection, SELECT_SEARCH, params.as_slice(), &mut self.journal) {
            Ok(rows) => Database::decode_executions(&rows),
            Err(e) => Err(sqlite(e)),
        };
        assert(search_request(self.journal.calls().last().request, query_text@, limit));
        r
    }
}

} // verus!

verus! {

/// The command a row of the commands query holds: the text of its first column.
pub fn command_from_row(row: &Vec<Datum>) -> (r: Result<String, HonuError>)
    ensures
        match r {
            Ok(command) => row@.len() > 0 && text_of(row@[0]) == Some(command@),
            Err(e) => e == (HonuError::InvalidColumn { index: 0 }) && !(row@.len() > 0
                && row@[0] is Text),
        },
{
    match row.first() {
        Some(Datum::Text(s)) => Ok(s.clone()),
        _ => Err(HonuError::InvalidColumn { index: 0 }),
    }
}

pub const SELECT_COMMANDS: &'static str = "SELECT command
FROM commands
ORDER BY timestamp_ns DESC, execution_id DESC";

/// Whether `handed` are the commands of the first of `rows`, in order, with
/// `answers` as many.
pub open spec fn handed_in_order(rows: Seq<Seq<Datum>>, handed: Seq<String>, answers: Seq<bool>) -> bool {
    &&& handed.len() == answers.len()
    &&& answers.len() <= rows.len()
    &&& forall|i: int| 0 <= i < handed.len() ==> #[trigger] command_at(rows, i) == Some(handed[i]@)
}

/// The command the row at `i` of `rows` holds, if it holds one.
pub open spec fn command_at(rows: Seq<Seq<Datum>>, i: int) -> Option<Seq<char>> {
    if rows[i].len() > 0 {
        text_of(rows[i][0])
    } else {
        None
    }
}

/// Whether handing the callback the commands `handed`, to which it answered
/// `answers`, is what listing the commands of `rows` does: each row's command
/// in order, until the callback answers `false` or the rows run out, or until
/// a row holds no command, which ends the listing with an error.
pub open spec fn visit(
    rows: Seq<Seq<Datum>>,
    handed: Seq<String>,
    answers: Seq<bool>,
    r: Result<(), HonuError>,
) -> bool {
    &&& handed_in_order(rows, handed, answers)
    &&& forall|i: int| 0 <= i < answers.len() - 1 ==> #[trigger] answers[i]
    &&& match r {
        Ok(()) => (handed.len() == rows.len() && forall|i: int|
            0 <= i < answers.len() ==> #[trigger] answers[i]) || (handed.len() > 0
            && !answers.last()),
        Err(e) => e == (HonuError::InvalidColumn { index: 0 }) && handed.len() < rows.len()
            && !(rows[handed.len() as int].len() > 0 && rows[handed.len() as int][0] is Text) && forall|i: int|
            0 <= i < answers.len() ==> #[trigger] answers[i],
    }
}

/// Listing commands hands the callback each row's command in row order, and
/// stops early only when the callback answers `false` or a row holds no
/// command: where every answer was `true` and the listing succeeded, every
/// row's command was handed.
pub proof fn listing_stops_only_when_told(
    rows: Seq<Seq<Datum>>,
    handed: Seq<String>,
    answers: Seq<bool>,
    r: Result<(), HonuError>,
)
    requires
        visit(rows, handed, answers, r),
    ensures
        handed.len() == answers.len(),
        handed.len() <= rows.len(),
        forall|i: int| 0 <= i < handed.len() ==> command_at(rows, i) == Some(#[trigger] handed[i]@),
        forall|i: int| 0 <= i < answers.len() - 1 ==> #[trigger] answers[i],
        r matches Err(e) ==> e == (HonuError::InvalidColumn { index: 0 }) && handed.len() < rows.len()
            && command_at(rows, handed.len() as int) is None && forall|i: int|
            0 <= i < answers.len() ==> #[trigger] answers[i],
        handed.len() < rows.len() ==> (handed.len() > 0 && !answers[handed.len() - 1]) || (
        r is Err && command_at(rows, handed.len() as int) is None),
        r is Ok && (forall|i: int| 0 <= i < answers.len() ==> #[trigger] answers[i]) ==> handed.len()
            == rows.len(),
{
    if handed.len() < rows.len() && r is Err {
        let k = handed.len() as int;
        assert(!(rows[k].len() > 0 && rows[k][0] is Text));
    }
    if r is Ok && (forall|i: int| 0 <= i < answers.len() ==> #[trigger] answers[i]) && handed.len() > 0 {
        assert(answers[answers.len() - 1]);
    }
}

/// Whether `r` ends listing the commands of `rows` to `callback`: it was
/// handed them in order, as `visit` says, and answered each as it may.
pub open spec fn listed<F: FnMut(String) -> bool>(rows: Seq<Seq<Datum>>, callback: F, r: Result<(), HonuError>) -> bool {
    exists|handed: Seq<String>, answers: Seq<bool>|
        #[trigger] visit(rows, handed, answers, r) && forall|i: int|
            0 <= i < handed.len() ==> call_ensures(callback, (#[trigger] handed[i],), answers[i])
}

impl Database {
    /// Hands each distinct command to `callback`, most recent first, until it
    /// returns `false`.
    #[verifier::loop_isolation(false)]
    pub fn for_each_command<F: FnMut(String) -> bool>(&mut self, mut callback: F) -> (r: Result<(), HonuError>)
        requires
            forall|s: String| #[trigger] call_requires(callback, (s,)),
        ensures
            final(self).handle() == old(self).handle(),
            final(self).calls().drop_last() == old(self).calls(),
            final(self).calls().len() == old(self).calls().len() + 1,
            final(self).calls().last().request == lookup(SELECT_COMMANDS@, Seq::empty()),
            match final(self).calls().last().outcome {
                Outcome::Rows(rows) => listed(rows, callback, r),
                _ => r matches Err(e) && e is Sqlite,
            },
    {
        let ghost f = callback;
        let no_params: Vec<Param> = Vec::new();
        let rows = match query(&self.connection, SELECT_COMMANDS, no_params.as_slice(), &mut self.journal) {
            Ok(rows) => rows,
            Err(e) => return Err(sqlite(e)),
        };
        let ghost views = row_views(rows@);
        let ghost queried = self.journal.calls();
        assert(views.len() == rows@.len());
        let ghost mut handed: Seq<String> = Seq::empty();
        let ghost mut answers: Seq<bool> = Seq::empty();
        let mut i: usize = 0;
        while i < rows.len()
            invariant
                i <= rows@.len(),
                callback == f,
                self.journal.calls() == queried,
                queried.drop_last() == old(self).calls(),
                queried.len() == old(self).calls().len() + 1,
                queried.last().request == lookup(SELECT_COMMANDS@, Seq::empty()),
                queried.last().outcome == Outcome::Rows(views),
                self.connection == old(self).connection,
                forall|s: String| #[trigger] call_requires(callback, (s,)),
                views == row_views(rows@),
                handed.len() == i,
                views.len() == rows@.len(),
                handed_in_order(views, handed, answers),
                forall|k: int| 0 <= k < handed.len() ==> call_ensures(f, (#[trigger] handed[k],), answers[k]),
                forall|k: int| 0 <= k < answers.len() ==> #[trigger] answers[k],
            decreases rows@.len() - i,
        {
            assert(views[i as int] == rows@[i as int]@);
            let command = match command_from_row(&rows[i]) {
                Ok(command) => command,
                Err(e) => {
                    assert(visit(views, handed, answers, Err(e)));
                    assert(listed(views, f, Err(e)));
                    return Err(e);
                },
            };
            let ghost given = command;
            assert(views[i as int].len() > 0 && text_of(views[i as int][0]) == Some(given@));
            let answer = callback(command);
            proof {
                let old_handed = handed;
                let old_answers = answers;
                handed = handed.push(given);
                answers = answers.push(answer);
                assert(handed[i as int] == given);
                assert forall|k: int| 0 <= k < handed.len() implies #[trigger] command_at(views, k) == Some(
                    handed[k]@,
                ) by {
                    if k < i {
                        assert(handed[k] == old_handed[k]);
                    }
                }
                assert forall|k: int| 0 <= k < handed.len() implies call_ensures(
                    f,
                    (#[trigger] handed[k],),
                    answers[k],
                ) by {
                    if k < i {
                        assert(handed[k] == old_handed[k] && answers[k] == old_answers[k]);
                        assert(call_ensures(f, (old_handed[k],), old_answers[k]));
                    }
                }
                assert(handed.len() == answers.len() && answers.len() == i + 1 && i + 1 <= views.len());
                assert(handed_in_order(views, handed, answers));
            }
            if !answer {
                assert(visit(views, handed, answers, Ok(())));
                assert(listed(views, f, Ok(())));
                return Ok(());
            }
            i = i + 1;
        }
        assert(visit(views, handed, answers, Ok(())));
        assert(listed(views, f, Ok(())));
        Ok(())
    }
}

} // verus!

verus! {

/// The fingerprints of a previous snapshot.
pub open spec fn previous_fingerprints(previous: Seq<(Vec<u8>, String)>) -> Seq<Seq<u8>> {
    previous.map_values(|p: (Vec<u8>, String)| p.0@)
}

/// The fingerprints of `records`.
pub open spec fn record_fingerprints(records: Seq<crate::record::Record>) -> Seq<Seq<u8>> {
    records.map_values(|r: crate::record::Record| r.fingerprint@)
}

/// Whether `ids` assigns identifiers to the records of a new snapshot from
/// the previous one, as the diff flags `removed` and `added` match them: a
/// record the diff added gets none; any other record gets the identifier of the
/// previous entry it is matched with, the one with as many kept entries before
/// it, which has the same fingerprint.
pub open spec fn reconciled(
    previous: Seq<(Vec<u8>, String)>,
    records: Seq<crate::record::Record>,
    removed: Seq<bool>,
    added: Seq<bool>,
    ids: Seq<Option<String>>,
) -> bool {
    &&& ids.len() == records.len()
    &&& forall|i: int| 0 <= i < ids.len() ==> (added[i] <==> #[trigger] ids[i] is None)
    &&& forall|i: int|
        0 <= i < ids.len() && !added[i] ==> exists|j: int|
            #![trigger previous[j]]
            0 <= j < previous.len() && !removed[j] && kept_count(removed.take(j)) == kept_count(
                added.take(i),
            ) && ids[i]->Some_0@ == previous[j].1@ && previous[j].0@
                == records[i].fingerprint@
}

/// How many records `ids` gives no identifier: those that become new executions.
pub open spec fn unmatched_count(ids: Seq<Option<String>>) -> nat
    decreases ids.len(),
{
    if ids.len() == 0 {
        0
    } else {
        unmatched_count(ids.drop_last()) + if ids.last() is None {
            1nat
        } else {
            0nat
        }
    }
}

/// Whether importing `records` over the previous snapshot `previous` matches
/// them by the diff of their fingerprints with the identifiers `ids`, leaving
/// `n` of them to become new executions.
pub open spec fn new_executions(
    previous: Seq<(Vec<u8>, String)>,
    records: Seq<crate::record::Record>,
    ids: Seq<Option<String>>,
    n: nat,
) -> bool {
    let (removed, added) = myers_diff(previous_fingerprints(previous), record_fingerprints(records));
    &&& reconciled(previous, records, removed, added, ids)
    &&& n == unmatched_count(ids)
}

/// The records `items` hold, where they all hold one.
pub open spec fn item_records(items: Seq<Result<crate::record::Record, HonuError>>) -> Seq<
    crate::record::Record,
> {
    items.map_values(|item: Result<crate::record::Record, HonuError>| item->Ok_0)
}

fn copy_bytes(v: &Vec<u8>) -> (r: Vec<u8>)
    ensures
        r@ == v@,
{
    let r = crate::lines::slice_bytes(v, 0, v.len());
    assert(v@.subrange(0, v@.len() as int) == v@);
    r
}

/// Where the first `p` flags are unset and only `p` items are kept in all,
/// every later item is flagged.
#[verifier::spinoff_prover]
proof fn lemma_flagged_after_prefix(flags: Seq<bool>, p: int)
    requires
        0 <= p <= flags.len(),
        forall|k: int| 0 <= k < p ==> !#[trigger] flags[k],
        kept_count(flags) == p,
    ensures
        forall|k: int| p <= k < flags.len() ==> #[trigger] flags[k],
{
    assert(flags.take(flags.len() as int) =~= flags);
    lemma_kept_count_prefix_unflagged(flags, p);
    assert forall|k: int| p <= k < flags.len() implies #[trigger] flags[k] by {
        if !flags[k] {
            lemma_kept_count_monotonic(flags, p, k);
            lemma_kept_count_step(flags, k);
            lemma_kept_count_monotonic(flags, k + 1, flags.len() as int);
        }
    }
}

/// The items of a common prefix that a diff leaves unflagged: where `before`
/// is a prefix of `after`, all of `before` and the same length of `after`.
#[verifier::spinoff_prover]
proof fn lemma_prefix_unflagged(before: Seq<Seq<u8>>, after: Seq<Seq<u8>>, removed: Seq<bool>, added: Seq<bool>)
    requires
        before.is_prefix_of(after),
        removed.len() == before.len(),
        added.len() == after.len(),
        forall|k: int|
            0 <= k < before.len() && k < after.len() && before.take(k + 1) == after.take(k + 1)
                ==> !#[trigger] removed[k] && !added[k],
    ensures
        forall|k: int| 0 <= k < before.len() ==> !#[trigger] removed[k],
        forall|k: int| 0 <= k < before.len() ==> !#[trigger] added[k],
{
    assert(before.len() <= after.len() && before =~= after.subrange(0, before.len() as int));
    assert forall|k: int| 0 <= k < before.len() implies !#[trigger] removed[k] && !added[k] by {
        assert forall|m: int| 0 <= m < k + 1 implies #[trigger] before.take(k + 1)[m] == after.take(k + 1)[m] by {
            assert(before[m] == after.subrange(0, before.len() as int)[m]);
        }
        assert(before.take(k + 1) =~= after.take(k + 1));
    }
    assert forall|k: int| 0 <= k < before.len() implies !#[trigger] added[k] by {
        assert(!removed[k]);
    }
}

/// Where nothing of the previous snapshot's length is flagged on either side
/// of the diff, the records of that prefix take the previous identifiers in
/// order and every later record is new.
#[verifier::spinoff_prover]
proof fn lemma_prefix_snapshot_ids(
    previous: Seq<(Vec<u8>, String)>,
    records: Seq<crate::record::Record>,
    removed: Seq<bool>,
    added: Seq<bool>,
    ids: Seq<Option<String>>,
)
    requires
        reconciled(previous, records, removed, added, ids),
        removed.len() == previous.len(),
        added.len() == records.len(),
        previous.len() <= records.len(),
        kept_count(removed) == kept_count(added),
        forall|k: int| 0 <= k < previous.len() ==> !#[trigger] removed[k],
        forall|k: int| 0 <= k < previous.len() ==> !#[trigger] added[k],
    ensures
        forall|i: int|
            0 <= i < ids.len() ==> if i < previous.len() {
                #[trigger] ids[i] matches Some(id) && id@ == previous[i].1@
            } else {
                ids[i] is None
            },
{
    let p = previous.len() as int;
    assert(removed.take(p) =~= removed);
    lemma_kept_count_unflagged(removed, p);
    lemma_flagged_after_prefix(added, p);
    assert forall|i: int| 0 <= i < ids.len() implies if i < p {
        #[trigger] ids[i] matches Some(id) && id@ == previous[i].1@
    } else {
        ids[i] is None
    } by {
        if i < p {
            assert(!added[i]);
            let j = choose|j: int|
                #![trigger previous[j]]
                0 <= j < previous.len() && !removed[j] && kept_count(removed.take(j)) == kept_count(
                    added.take(i),
                ) && ids[i]->Some_0@ == previous[j].1@ && previous[j].0@ == records[i].fingerprint@;
            lemma_kept_count_unflagged(removed, j);
            lemma_kept_count_prefix_unflagged(added, i);
        } else {
            assert(added[i]);
        }
    }
}

/// Reconciliation keeps order, so it gives no entry of the previous snapshot
/// to two records: of two records that got identifiers, the earlier one takes
/// its identifier from an earlier entry, each entry with the record's
/// fingerprint.
pub proof fn reconciliation_keeps_order(
    previous: Seq<(Vec<u8>, String)>,
    records: Seq<crate::record::Record>,
    removed: Seq<bool>,
    added: Seq<bool>,
    ids: Seq<Option<String>>,
    i1: int,
    i2: int,
)
    requires
        reconciled(previous, records, removed, added, ids),
        removed.len() == previous.len(),
        added.len() == records.len(),
        0 <= i1 < i2 < ids.len(),
        ids[i1] is Some,
        ids[i2] is Some,
    ensures
        exists|j1: int, j2: int|
            #![trigger previous[j1], previous[j2]]
            0 <= j1 < j2 < previous.len() && ids[i1]->Some_0@ == previous[j1].1@ && ids[i2]->Some_0@
                == previous[j2].1@ && previous[j1].0@ == records[i1].fingerprint@ && previous[j2].0@
                == records[i2].fingerprint@,
{
    assert(!added[i1] && !added[i2]);
    let j1 = choose|j: int|
        #![trigger previous[j]]
        0 <= j < previous.len() && !removed[j] && kept_count(removed.take(j)) == kept_count(
            added.take(i1),
        ) && ids[i1]->Some_0@ == previous[j].1@ && previous[j].0@ == records[i1].fingerprint@;
    let j2 = choose|j: int|
        #![trigger previous[j]]
        0 <= j < previous.len() && !removed[j] && kept_count(removed.take(j)) == kept_count(
            added.take(i2),
        ) && ids[i2]->Some_0@ == previous[j].1@ && previous[j].0@ == records[i2].fingerprint@;
    lemma_kept_count_step(added, i1);
    lemma_kept_count_monotonic(added, i1 + 1, i2);
    if j2 <= j1 {
        lemma_kept_count_monotonic(removed, j2, j1);
    }
    assert(j1 < j2);
    assert(previous[j1] == previous[j1] && previous[j2] == previous[j2]);
}

impl Database {
    /// Matches the records of a new snapshot of a source with the entries of
    /// the previous one, by a diff of their fingerprints, and gives each
    /// matched record the identifier of its entry. Snapshots too large to
    /// diff are refused.
    #[verifier::rlimit(80)]
    #[verifier::spinoff_prover]
    pub fn reconcile(previous: &[(Vec<u8>, String)], records: &[crate::record::Record]) -> (r: Result<Vec<Option<String>>, HonuError>)
        ensures
            previous@.len() >= i32::MAX ==> r == Err::<Vec<Option<String>>, HonuError>(
                HonuError::PreviousTooManyRecords,
            ),
            previous@.len() < i32::MAX && records@.len() >= i32::MAX ==> r == Err::<
                Vec<Option<String>>,
                HonuError,
            >(HonuError::CurrentTooManyRecords),
            previous@.len() < i32::MAX && records@.len() < i32::MAX ==> r is Ok,
            r matches Ok(ids) ==> ({
                let (removed, added) = myers_diff(
                    previous_fingerprints(previous@),
                    record_fingerprints(records@),
                );
                &&& removed.len() == previous@.len()
                &&& added.len() == records@.len()
                &&& reconciled(previous@, records@, removed, added, ids@)
            }),
            previous@.len() < i32::MAX && previous_fingerprints(previous@) == record_fingerprints(
                records@,
            ) ==> (r matches Ok(ids) && ids@.len() == previous@.len() && forall|i: int|
                0 <= i < ids@.len() ==> (#[trigger] ids@[i] matches Some(id) && id@
                    == previous@[i].1@)),
            records@.len() < i32::MAX && previous_fingerprints(previous@).is_prefix_of(
                record_fingerprints(records@),
            ) ==> (r matches Ok(ids) && ids@.len() == records@.len() && forall|i: int|
                0 <= i < ids@.len() ==> if i < previous@.len() {
                    #[trigger] ids@[i] matches Some(id) && id@ == previous@[i].1@
                } else {
                    ids@[i] is None
                }),
    {
        if previous.len() >= i32::MAX as usize {
            return Err(HonuError::PreviousTooManyRecords);
        }
        proof {
            assert(previous_fingerprints(previous@).len() == previous@.len());
            assert(record_fingerprints(records@).len() == records@.len());
        }
        if records.len() >= i32::MAX as usize {
            return Err(HonuError::CurrentTooManyRecords);
        }
        let mut before_tokens: Vec<Vec<u8>> = Vec::new();
        let mut k: usize = 0;
        while k < previous.len()
            invariant
                k <= previous@.len(),
                byte_views(before_tokens@) == previous_fingerprints(previous@).take(k as int),
            decreases previous@.len() - k,
        {
            let ghost old_tokens = before_tokens@;
            before_tokens.push(copy_bytes(&previous[k].0));
            assert(byte_views(before_tokens@) =~= byte_views(old_tokens).push(previous@[k as int].0@));
            assert(previous_fingerprints(previous@).take(k + 1) =~= previous_fingerprints(previous@).take(k as int).push(previous@[k as int].0@));
            k = k + 1;
        }
        let mut after_tokens: Vec<Vec<u8>> = Vec::new();
        k = 0;
        while k < records.len()
            invariant
                k <= records@.len(),
                byte_views(after_tokens@) == record_fingerprints(records@).take(k as int),
            decreases records@.len() - k,
        {
            let ghost old_tokens = after_tokens@;
            after_tokens.push(copy_bytes(&records[k].fingerprint));
            assert(byte_views(after_tokens@) =~= byte_views(old_tokens).push(records@[k as int].fingerprint@));
            assert(record_fingerprints(records@).take(k + 1) =~= record_fingerprints(records@).take(k as int).push(records@[k as int].fingerprint@));
            k = k + 1;
        }
        assert(previous_fingerprints(previous@).take(previous@.len() as int)
            == previous_fingerprints(previous@));
        assert(record_fingerprints(records@).take(records@.len() as int) == record_fingerprints(
            records@,
        ));
        let (removed, added) = myers(before_tokens.as_slice(), after_tokens.as_slice());
        let ghost before_seq = previous_fingerprints(previous@);
        let ghost after_seq = record_fingerprints(records@);
        proof {
            lemma_kept_len(before_seq, removed@);
            lemma_kept_len(after_seq, added@);
        }
        let mut ids: Vec<Option<String>> = Vec::new();
        let mut before: usize = 0;
        let mut after: usize = 0;
        while after < records.len()
            invariant
                before <= previous@.len(),
                after <= records@.len(),
                removed@.len() == previous@.len(),
                added@.len() == records@.len(),
                kept(before_seq, removed@) == kept(after_seq, added@),
                kept_count(removed@) == kept_count(added@),
                before_seq == previous_fingerprints(previous@),
                after_seq == record_fingerprints(records@),
                kept_count(removed@.take(before as int)) == kept_count(added@.take(after as int)),
                ids@.len() == after,
                forall|i: int| 0 <= i < after ==> (added@[i] <==> #[trigger] ids@[i] is None),
                forall|i: int|
                    0 <= i < after && !added@[i] ==> exists|j: int|
                        #![trigger previous@[j]]
                        0 <= j < previous@.len() && !removed@[j] && kept_count(removed@.take(j))
                            == kept_count(added@.take(i)) && ids@[i]->Some_0@ == previous@[j].1@
                            && previous@[j].0@ == records@[i].fingerprint@,
            decreases records@.len() - after,
        {
            while before < previous.len() && removed[before]
                invariant
                    before <= previous@.len(),
                    removed@.len() == previous@.len(),
                    kept_count(removed@.take(before as int)) == kept_count(added@.take(after as int)),
                decreases previous@.len() - before,
            {
                proof {
                    lemma_kept_count_step(removed@, before as int);
                }
                before = before + 1;
            }
            proof {
                lemma_kept_count_step(added@, after as int);
            }
            if added[after] {
                ids.push(None);
            } else {
                proof {
                    assert(removed@.take(removed@.len() as int) == removed@);
                    assert(added@.take(added@.len() as int) == added@);
                    lemma_kept_count_monotonic(added@, after + 1, added@.len() as int);
                    if before == previous.len() {
                        assert(false);
                    }
                    lemma_matched_items_equal(
                        before_seq,
                        removed@,
                        after_seq,
                        added@,
                        before as int,
                        after as int,
                    );
                    assert(before_seq[before as int] == previous@[before as int].0@);
                    assert(after_seq[after as int] == records@[after as int].fingerprint@);
                }
                ids.push(Some(previous[before].1.clone()));
                proof {
                    lemma_kept_count_step(removed@, before as int);
                    assert(previous@[before as int] == previous@[before as int]);
                }
                before = before + 1;
            }
            after = after + 1;
        }
        proof {
            if before_seq.is_prefix_of(after_seq) {
                lemma_prefix_unflagged(before_seq, after_seq, removed@, added@);
                lemma_prefix_snapshot_ids(previous@, records@, removed@, added@, ids@);
            }
            if before_seq == after_seq {
                assert(previous@.len() == before_seq.len() && records@.len() == after_seq.len());
                assert forall|i: int| 0 <= i < ids@.len() implies (#[trigger] ids@[i] matches Some(id)
                    && id@ == previous@[i].1@) by {
                    assert(!added@[i]);
                    let j = choose|j: int|
                        #![trigger previous@[j]]
                        0 <= j < previous@.len() && !removed@[j] && kept_count(removed@.take(j))
                            == kept_count(added@.take(i)) && ids@[i]->Some_0@ == previous@[j].1@
                            && previous@[j].0@ == records@[i].fingerprint@;
                    lemma_kept_count_unflagged(removed@, j);
                    lemma_kept_count_unflagged(added@, i);
                }
            }
        }
        Ok(ids)
    }
}

} // verus!

verus! {

/// How far an import has got.
#[derive(Clone, Copy, Debug, PartialEq, Eq)]
pub struct ProgressEntry {
    /// New executions stored so far.
    pub inserted: usize,
    /// Records written so far.
    pub processed: usize,
}

pub const INSERT_SOURCE: &'static str = "INSERT INTO import_sources (id, format, path)
VALUES (?1, ?2, ?3)
ON CONFLICT (format, path) DO NOTHING";

pub const ADVANCE_SOURCE: &'static str = "UPDATE import_sources
SET generation = generation + 1
WHERE format = ?1 AND path = ?2";

pub const SELECT_SOURCE: &'static str = "SELECT id, generation
FROM import_sources
WHERE format = ?1 AND path = ?2";

pub const SELECT_GENERATION: &'static str = "SELECT generation FROM import_sources WHERE id = ?1";

pub const SELECT_SOURCE_RECORDS: &'static str = "SELECT fingerprint, execution_id
FROM source_records
WHERE source_id = ?1
ORDER BY position";

pub const UPSERT_EXECUTION: &'static str = "INSERT INTO executions (
  id, command, timestamp_ns, duration_ns, exit_code, directory, session, hostname, shell
) VALUES (?1, ?2, ?3, ?4, ?5, ?6, ?7, ?8, ?9)
ON CONFLICT (id) DO UPDATE SET
  command = excluded.command,
  timestamp_ns = excluded.timestamp_ns,
  duration_ns = excluded.duration_ns,
  exit_code = excluded.exit_code,
  directory = excluded.directory,
  session = excluded.session,
  hostname = excluded.hostname,
  shell = excluded.shell
WHERE ?10 = 0";

pub const DELETE_SOURCE_RECORDS: &'static str = "DELETE FROM source_records WHERE source_id = ?1";

pub const INSERT_SOURCE_RECORD: &'static str = "INSERT INTO source_records (
  source_id, position, fingerprint, execution_id
) VALUES (?1, ?2, ?3, ?4)";

pub const REBUILD_COMMANDS: &'static str = "DELETE FROM commands;
INSERT OR IGNORE INTO commands (command, timestamp_ns, execution_id)
  SELECT command, timestamp_ns, id
  FROM executions
  ORDER BY timestamp_ns DESC, id DESC;";

/// The bytes of a blob value.
pub open spec fn blob_of(v: Datum) -> Option<Seq<u8>> {
    match v {
        Datum::Blob(b) => Some(b@),
        _ => None,
    }
}

/// The identifier and generation in the first row.
pub fn source_from_rows(rows: &Vec<Vec<Datum>>) -> (r: Result<(String, i64), HonuError>)
    ensures
        match r {
            Ok((id, generation)) => rows@.len() > 0 && rows@[0]@.len() >= 2 && text_of(
                rows@[0]@[0],
            ) == Some(id@) && rows@[0]@[1] == Datum::Integer(generation),
            Err(e) => if rows@.len() == 0 {
                e == HonuError::NoRows
            } else {
                e is InvalidColumn && !(rows@[0]@.len() >= 2 && rows@[0]@[0] is Text
                    && rows@[0]@[1] is Integer)
            },
        },
{
    if rows.len() == 0 {
        return Err(HonuError::NoRows);
    }
    let row = &rows[0];
    if row.len() < 2 {
        return Err(HonuError::InvalidColumn { index: row.len() });
    }
    let id = match &row[0] {
        Datum::Text(id) => id.clone(),
        _ => return Err(HonuError::InvalidColumn { index: 0 }),
    };
    match &row[1] {
        Datum::Integer(generation) => Ok((id, *generation)),
        _ => Err(HonuError::InvalidColumn { index: 1 }),
    }
}

/// The fingerprints and identifiers of the rows of `source_records`.
pub fn source_records_from_rows(rows: &Vec<Vec<Datum>>) -> (r: Result<Vec<(Vec<u8>, String)>, HonuError>)
    ensures
        match r {
            Ok(records) => records@.len() == rows@.len() && forall|i: int|
                0 <= i < rows@.len() ==> #[trigger] rows@[i]@.len() >= 2 && blob_of(rows@[i]@[0])
                    == Some(records@[i].0@) && text_of(rows@[i]@[1]) == Some(records@[i].1@),
            Err(e) => e is InvalidColumn,
        },
{
    let mut records: Vec<(Vec<u8>, String)> = Vec::new();
    let mut i: usize = 0;
    while i < rows.len()
        invariant
            i <= rows@.len(),
            records@.len() == i,
            forall|j: int|
                0 <= j < i ==> #[trigger] rows@[j]@.len() >= 2 && blob_of(rows@[j]@[0]) == Some(
                    records@[j].0@,
                ) && text_of(rows@[j]@[1]) == Some(records@[j].1@),
        decreases rows@.len() - i,
    {
        let row = &rows[i];
        if row.len() < 2 {
            return Err(HonuError::InvalidColumn { index: row.len() });
        }
        let fingerprint = match &row[0] {
            Datum::Blob(b) => copy_bytes(b),
            _ => return Err(HonuError::InvalidColumn { index: 0 }),
        };
        let id = match &row[1] {
            Datum::Text(id) => id.clone(),
            _ => return Err(HonuError::InvalidColumn { index: 1 }),
        };
        records.push((fingerprint, id));
        i = i + 1;
    }
    Ok(records)
}

/// All the records, or the first error among them.
pub fn collect_records(items: Vec<Result<crate::record::Record, HonuError>>) -> (r: Result<
    Vec<crate::record::Record>,
    HonuError,
>)
    ensures
        match r {
            Ok(records) => records@.len() == items@.len() && forall|i: int|
                0 <= i < items@.len() ==> #[trigger] items@[i] == Ok::<
                    crate::record::Record,
                    HonuError,
                >(records@[i]),
            Err(e) => exists|k: int|
                0 <= k < items@.len() && items@[k] == Err::<crate::record::Record, HonuError>(e)
                    && forall|i: int| 0 <= i < k ==> #[trigger] items@[i] is Ok,
        },
{
    let ghost all = items@;
    let mut records: Vec<crate::record::Record> = Vec::new();
    for item in it: items
        invariant
            it.seq() == all,
            records@.len() == it.index(),
            forall|i: int| 0 <= i < it.index() ==> #[trigger] all[i] == Ok::<
                crate::record::Record,
                HonuError,
            >(records@[i]),
    {
        match item {
            Ok(record) => records.push(record),
            Err(e) => {
                assert(forall|i: int| 0 <= i < it.index() ==> #[trigger] all[i] is Ok);
                return Err(e);
            },
        }
    }
    Ok(records)
}

} // verus!

verus! {

/// The parameters an import source is registered with: its identifier `id`,
/// its `format` and its `path`.
pub fn source_params(id: &String, format: &str, path: &[u8]) -> (r: Vec<Param>)
    ensures
        r@.len() == 3,
        r@[0] matches Param::Text(t) && t@ == id@,
        r@[1] matches Param::Text(t) && t@ == format@,
        r@[2] matches Param::Blob(b) && b@ == path@,
{
    let mut params: Vec<Param> = Vec::new();
    params.push(Param::Text(id.clone()));
    params.push(Param::Text(String::from_str(format)));
    params.push(Param::Blob(copy_bytes_of(path)));
    params
}

/// The parameters an import source is looked up by: its `format` and `path`.
pub fn source_key(format: &str, path: &[u8]) -> (r: Vec<Param>)
    ensures
        r@.len() == 2,
        r@[0] matches Param::Text(t) && t@ == format@,
        r@[1] matches Param::Blob(b) && b@ == path@,
{
    let mut params: Vec<Param> = Vec::new();
    params.push(Param::Text(String::from_str(format)));
    params.push(Param::Blob(copy_bytes_of(path)));
    params
}

/// The parameters an entry of a source's snapshot is stored with: the
/// source's identifier, the entry's position, its record's fingerprint and
/// the identifier of the execution it stands for.
pub fn source_record_params(source_id: &String, position: usize, fingerprint: &Vec<u8>, id: &String) -> (r: Vec<Param>)
    requires
        position <= i64::MAX,
    ensures
        r@.len() == 4,
        r@[0] matches Param::Text(t) && t@ == source_id@,
        r@[1] == Param::Integer(position as i64),
        r@[2] matches Param::Blob(b) && b@ == fingerprint@,
        r@[3] matches Param::Text(t) && t@ == id@,
{
    let mut params: Vec<Param> = Vec::new();
    params.push(Param::Text(source_id.clone()));
    params.push(Param::Integer(position as i64));
    params.push(Param::Blob(copy_bytes(fingerprint)));
    params.push(Param::Text(id.clone()));
    params
}

/// The parameters an imported execution is written with: those of
/// `execution` under `id`, then whether it is new (`1`) or replaces the
/// stored execution of that identifier (`0`, which only updates it).
pub fn upsert_params(id: &String, execution: &Execution, new: bool) -> (r: Vec<Param>)
    ensures
        r@.len() == 10,
        execution_params_ok(id@, execution@, r@.take(9)),
        r@[9] == Param::Integer(if new { 1 } else { 0 }),
{
    let mut params = execution_params(id, execution);
    let ghost first = params@;
    params.push(Param::Integer(if new { 1 } else { 0 }));
    assert(params@.take(9) =~= first);
    params
}

/// Whether `calls` are what registering the import source `format` at `path`
/// makes of SQLite when it succeeds with the identifier `id` and the
/// generation `generation`: in one transaction, the source is inserted under a
/// fresh identifier unless it is known, its generation is advanced, and the
/// stored identifier and generation are read back.
pub open spec fn reserved(calls: Seq<Call>, format: Seq<char>, path: Seq<u8>, id: Seq<char>, generation: i64) -> bool {
    exists|insert: Seq<Param>, key: Seq<Param>|
        #[trigger] reserved_with(calls, format, path, id, generation, insert, key)
}

pub open spec fn reserved_with(
    calls: Seq<Call>,
    format: Seq<char>,
    path: Seq<u8>,
    id: Seq<char>,
    generation: i64,
    insert: Seq<Param>,
    key: Seq<Param>,
) -> bool {
    &&& calls.len() == 5
    &&& ran_batch(calls[0], "BEGIN IMMEDIATE"@)
    &&& ran_statement(calls[1], INSERT_SOURCE@, insert)
    &&& insert.len() == 3 && insert[0] is Text && text_param(insert[1]) == Some(format)
        && (insert[2] matches Param::Blob(b) && b@ == path)
    &&& ran_statement(calls[2], ADVANCE_SOURCE@, key)
    &&& key.len() == 2 && text_param(key[0]) == Some(format) && (key[1] matches Param::Blob(b)
        && b@ == path)
    &&& calls[3].request == lookup(SELECT_SOURCE@, key)
    &&& calls[3].outcome matches Outcome::Rows(rows) && rows.len() > 0 && rows[0].len() >= 2
        && text_of(rows[0][0]) == Some(id) && rows[0][1] == Datum::Integer(generation)
    &&& ran_batch(calls[4], "COMMIT"@)
}

/// Whether `request` belongs to the registration of an import source:
/// transaction control, or a statement on the import sources alone.
pub open spec fn source_request(request: Request) -> bool {
    match request {
        Request::Batch(sql) => sql == "BEGIN IMMEDIATE"@ || sql == "COMMIT"@ || sql == "ROLLBACK"@,
        Request::Execute(sql, _) => sql == INSERT_SOURCE@ || sql == ADVANCE_SOURCE@,
        Request::Query(sql, _) => sql == SELECT_SOURCE@,
        _ => false,
    }
}

/// Whether `calls` do no more than register an import source: no execution
/// and no snapshot is written by them.
pub open spec fn only_registers_source(calls: Seq<Call>) -> bool {
    forall|j: int| 0 <= j < calls.len() ==> #[trigger] source_request(calls[j].request)
}

/// A call that belongs to the registration of an import source keeps a run
/// of such calls one.
proof fn lemma_registers_more(before: Seq<Call>, mid: Seq<Call>, after: Seq<Call>)
    requires
        extends(before, mid),
        only_registers_source(added_calls(before, mid)),
        after.len() == mid.len() + 1,
        forall|i: int| 0 <= i < mid.len() ==> #[trigger] after[i] == mid[i],
        source_request(after.last().request),
    ensures
        extends(before, after),
        only_registers_source(added_calls(before, after)),
{
    let a = added_calls(before, after);
    let m = added_calls(before, mid);
    assert(a =~= m.push(after.last()));
    assert forall|j: int| 0 <= j < a.len() implies #[trigger] source_request(a[j].request) by {
        if j < m.len() {
            assert(a[j] == m[j]);
            assert(source_request(m[j].request));
        } else {
            assert(a[j] == after.last());
        }
    }
}

/// The rollback of a source registration begun at `start`, after `failed`,
/// keeps it a registration, and ends it.
proof fn lemma_source_rolled_back(before: Seq<Call>, start: int, calls: Seq<Call>, failed: Seq<Call>)
    requires
        start == before.len(),
        start < failed.len(),
        extends(before, failed),
        only_registers_source(added_calls(before, failed)),
        failed[start].request == Request::Batch("BEGIN IMMEDIATE"@),
        failed[start].outcome is Done,
        calls.len() == failed.len() + 1,
        forall|j: int| 0 <= j < failed.len() ==> #[trigger] calls[j] == failed[j],
        calls.last().request == Request::Batch("ROLLBACK"@),
    ensures
        extends(before, calls),
        only_registers_source(added_calls(before, calls)),
        aborted(added_calls(before, calls), "BEGIN IMMEDIATE"@),
        failed.last().outcome is Failed ==> failed_at_end(added_calls(before, calls)),
{
    lemma_rolled_back(before, start, calls, failed, "BEGIN IMMEDIATE"@);
    lemma_registers_more(before, failed, calls);
}

/// Whether `calls`, a rolled-back registration of a source, failed on the
/// rows read back, with `e`: the rows had no identifier and generation.
pub open spec fn source_read_failed(calls: Seq<Call>, e: HonuError) -> bool {
    &&& calls.len() == 5
    &&& calls[3].request matches Request::Query(sql, _) && sql == SELECT_SOURCE@
    &&& calls[3].outcome matches Outcome::Rows(rows) && if rows.len() == 0 {
        e == HonuError::NoRows
    } else {
        e is InvalidColumn && !(rows[0].len() >= 2 && rows[0][0] is Text && rows[0][1] is Integer)
    }
}

/// Whether `call` wrote `execution` under `id`, as new or over the stored
/// execution of that identifier.
pub open spec fn upserted(call: Call, id: Seq<char>, execution: ExecutionView, new: bool) -> bool {
    exists|params: Seq<Param>|
        #![trigger statement(UPSERT_EXECUTION@, params)]
        ran_statement(call, UPSERT_EXECUTION@, params) && params.len() == 10 && execution_params_ok(
            id,
            execution,
            params.take(9),
        ) && params[9] == Param::Integer(if new { 1 } else { 0 })
}

/// Whether `call` stored the entry at `position` of the snapshot of the
/// source `source_id`: the record's fingerprint and its execution's `id`.
pub open spec fn stored_entry(call: Call, source_id: Seq<char>, position: int, fingerprint: Seq<u8>, id: Seq<char>) -> bool {
    exists|params: Seq<Param>|
        #![trigger statement(INSERT_SOURCE_RECORD@, params)]
        ran_statement(call, INSERT_SOURCE_RECORD@, params) && params.len() == 4 && text_param(params[0])
            == Some(source_id) && params[1] == Param::Integer(position as i64) && (params[2] matches Param::Blob(
            b,
        ) && b@ == fingerprint) && text_param(params[3]) == Some(id)
}

/// Whether `previous` is the snapshot the rows of the snapshot query describe.
pub open spec fn snapshot_of(rows: Seq<Seq<Datum>>, previous: Seq<(Vec<u8>, String)>) -> bool {
    &&& previous.len() == rows.len()
    &&& forall|i: int|
        0 <= i < rows.len() ==> #[trigger] rows[i].len() >= 2 && blob_of(rows[i][0]) == Some(
            previous[i].0@,
        ) && text_of(rows[i][1]) == Some(previous[i].1@)
}

/// The progress reported after the record at `index` was written, with
/// `ids` the identifiers the records were matched with.
pub open spec fn progress_after(ids: Seq<Option<String>>, index: int) -> ProgressEntry {
    ProgressEntry {
        inserted: unmatched_count(ids.take(index + 1)) as usize,
        processed: (index + 1) as usize,
    }
}

/// Whether `calls` are what a successful import of `records` from `path` in
/// `format` makes of SQLite, returning `n`: the source is reserved (giving
/// `source_id` and `generation`); in one transaction its current generation
/// `current` is read. Where a newer import has reserved the source since, the
/// transaction is rolled back, nothing is written and `n` is 0. Otherwise the
/// stored snapshot `previous` is read, the records are matched with it by the
/// diff of their fingerprints (`ids`), each record's execution is written under
/// its matched identifier or a fresh one (`stored`), new where unmatched; the
/// stored snapshot is replaced by the records' fingerprints and identifiers,
/// in order; the commands are rebuilt; and `n` is the number of unmatched
/// records.
pub open spec fn import_run(
    calls: Seq<Call>,
    format: Seq<char>,
    path: Seq<u8>,
    records: Seq<crate::record::Record>,
    n: nat,
    source_id: Seq<char>,
    generation: i64,
    current: i64,
    key: Seq<Param>,
    previous: Seq<(Vec<u8>, String)>,
    ids: Seq<Option<String>>,
    stored: Seq<Seq<char>>,
) -> bool {
    let k = records.len() as int;
    &&& calls.len() >= 8
    &&& import_prefix(calls, format, path, source_id, generation, current, key)
    &&& if current != generation {
        calls.len() == 8 && calls[7].request == Request::Batch("ROLLBACK"@) && n == 0
    } else {
        &&& calls.len() == 11 + 2 * k
        &&& calls[7].request == lookup(SELECT_SOURCE_RECORDS@, key)
        &&& calls[7].outcome matches Outcome::Rows(rows) && snapshot_of(rows, previous)
        &&& ({
            let (removed, added) = myers_diff(
                previous_fingerprints(previous),
                record_fingerprints(records),
            );
            reconciled(previous, records, removed, added, ids)
        })
        &&& (previous_fingerprints(previous) == record_fingerprints(records) ==> forall|j: int|
            0 <= j < ids.len() ==> #[trigger] ids[j] is Some)
        &&& n == unmatched_count(ids)
        &&& stored.len() == k
        &&& forall|j: int|
            0 <= j < k ==> (ids[j] matches Some(id) ==> (#[trigger] stored[j]) == id@) && upserted(
                calls[8 + j],
                stored[j],
                records[j].execution@,
                ids[j] is None,
            )
        &&& ran_statement(calls[8 + k], DELETE_SOURCE_RECORDS@, key)
        &&& forall|j: int|
            0 <= j < k ==> #[trigger] stored_entry(
                calls[9 + k + j],
                source_id,
                j,
                records[j].fingerprint@,
                stored[j],
            )
        &&& ran_batch(calls[9 + 2 * k], REBUILD_COMMANDS@)
        &&& ran_batch(calls[10 + 2 * k], "COMMIT"@)
    }
}

/// Where every identifier is given, no record is left unmatched.
proof fn lemma_all_matched(ids: Seq<Option<String>>)
    requires
        forall|j: int| 0 <= j < ids.len() ==> #[trigger] ids[j] is Some,
    ensures
        unmatched_count(ids) == 0,
    decreases ids.len(),
{
    if ids.len() > 0 {
        assert(ids.drop_last().len() == ids.len() - 1);
        assert forall|j: int| 0 <= j < ids.drop_last().len() implies #[trigger] ids.drop_last()[j] is Some by {
            assert(ids.drop_last()[j] == ids[j]);
        }
        lemma_all_matched(ids.drop_last());
        assert(ids.last() is Some);
    }
}

/// Importing a snapshot whose fingerprints are those of the snapshot stored
/// for its source, in order, creates no execution: every record keeps the
/// execution it was stored with, and the count is 0.
pub proof fn unchanged_snapshot_imports_nothing(
    calls: Seq<Call>,
    format: Seq<char>,
    path: Seq<u8>,
    records: Seq<crate::record::Record>,
    n: nat,
    source_id: Seq<char>,
    generation: i64,
    current: i64,
    key: Seq<Param>,
    previous: Seq<(Vec<u8>, String)>,
    ids: Seq<Option<String>>,
    stored: Seq<Seq<char>>,
)
    requires
        import_run(calls, format, path, records, n, source_id, generation, current, key, previous, ids, stored),
        current == generation ==> previous_fingerprints(previous) == record_fingerprints(records),
    ensures
        n == 0,
{
    if current == generation {
        lemma_all_matched(ids);
    }
}

/// Whether some values of the steps in between make `calls` a successful
/// import returning `n`, and where the import was not superseded, `progress`
/// was handed the progress after each record.
pub open spec fn imported<F: FnMut(ProgressEntry)>(
    calls: Seq<Call>,
    format: Seq<char>,
    path: Seq<u8>,
    records: Seq<crate::record::Record>,
    n: nat,
    progress: F,
) -> bool {
    exists|
        source_id: Seq<char>,
        generation: i64,
        current: i64,
        key: Seq<Param>,
        previous: Seq<(Vec<u8>, String)>,
        ids: Seq<Option<String>>,
        stored: Seq<Seq<char>>,
    |
        #[trigger] import_run(
            calls,
            format,
            path,
            records,
            n,
            source_id,
            generation,
            current,
            key,
            previous,
            ids,
            stored,
        ) && (current == generation ==> reported(progress, ids, records.len() as int))
}

/// Whether `e` is the first error among `items`, all before it records.
pub open spec fn first_error(items: Seq<Result<crate::record::Record, HonuError>>, e: HonuError) -> bool {
    exists|k: int|
        0 <= k < items.len() && items[k] == Err::<crate::record::Record, HonuError>(e) && forall|i: int|
            0 <= i < k ==> #[trigger] items[i] is Ok
}

/// Whether `e` is an error an import can end with once its transaction has
/// begun: SQLite's, one read in its answers, a snapshot too large to diff,
/// or a fresh identifier that was already taken.
pub open spec fn transaction_error(e: HonuError) -> bool {
    match e {
        HonuError::Sqlite { .. } => true,
        HonuError::NoRows => true,
        HonuError::InvalidColumn { .. } => true,
        HonuError::PreviousTooManyRecords => true,
        HonuError::CurrentTooManyRecords => true,
        HonuError::DuplicateExecutionId(_) => true,
        _ => false,
    }
}

/// Whether `r` is what importing `items` from `path` in `format` may give
/// by the calls from `before` to `after`, the first five of which registered
/// the source. An error among the items fails the import with that first
/// error, and nothing more is asked; so do more records than `i32::MAX`,
/// with `TooManyRecords`. A success extends the calls by a successful import
/// of the items' records, reporting `progress`. Any other failure ends the
/// import's transaction without committing it: rolled back, where it began.
pub open spec fn import_outcome<F: FnMut(ProgressEntry)>(
    before: Seq<Call>,
    after: Seq<Call>,
    format: Seq<char>,
    path: Seq<u8>,
    items: Seq<Result<crate::record::Record, HonuError>>,
    r: Result<usize, HonuError>,
    progress: F,
) -> bool {
    let item_failed = exists|i: int| 0 <= i < items.len() && #[trigger] items[i] is Err;
    &&& extends(before, after)
    &&& after.len() >= before.len() + 5
    &&& item_failed ==> (r matches Err(e) && first_error(items, e)) && after.len() == before.len() + 5
        && only_registers_source(added_calls(before, after))
    &&& !item_failed && items.len() > i32::MAX ==> r == Err::<usize, HonuError>(HonuError::TooManyRecords)
        && after.len() == before.len() + 5
    &&& r matches Ok(n) ==> n <= items.len() && imported(
        added_calls(before, after),
        format,
        path,
        item_records(items),
        n as nat,
        progress,
    )
    &&& r matches Err(e) ==> item_failed || items.len() > i32::MAX || (transaction_error(e)
        && failed_transaction(after.skip(before.len() + 5int), "BEGIN IMMEDIATE"@, e))
}

/// Whether `progress` was handed the progress after each record: `n` new
/// executions among the first `processed` records, for each of the `count`
/// records in turn, where `ids` are the identifiers they were matched with.
pub open spec fn reported<F: FnMut(ProgressEntry)>(progress: F, ids: Seq<Option<String>>, count: int) -> bool {
    forall|j: int| 0 <= j < count ==> call_ensures(progress, (#[trigger] progress_after(ids, j),), ())
}

/// The first eight calls of an import: the reservation, the start of the
/// transaction and the reading of the current generation.
pub open spec fn import_prefix(
    calls: Seq<Call>,
    format: Seq<char>,
    path: Seq<u8>,
    source_id: Seq<char>,
    generation: i64,
    current: i64,
    key: Seq<Param>,
) -> bool {
    &&& calls.len() >= 7
    &&& reserved(calls.take(5), format, path, source_id, generation)
    &&& ran_batch(calls[5], "BEGIN IMMEDIATE"@)
    &&& key.len() == 1 && text_param(key[0]) == Some(source_id)
    &&& calls[6].request == lookup(SELECT_GENERATION@, key)
    &&& calls[6].outcome matches Outcome::Rows(rows) && first_integer_of(rows) == Some(current)
}

proof fn lemma_import_prefix(
    before: Seq<Call>,
    reserve_calls: Seq<Call>,
    c1: Seq<Call>,
    format: Seq<char>,
    path: Seq<u8>,
    source_id: Seq<char>,
    generation: i64,
    current: i64,
    key: Seq<Param>,
)
    requires
        extends(before, reserve_calls),
        reserve_calls.len() == before.len() + 5,
        reserved(added_calls(before, reserve_calls), format, path, source_id, generation),
        c1.len() == reserve_calls.len() + 2,
        forall|j: int| 0 <= j < reserve_calls.len() ==> c1[j] == reserve_calls[j],
        ran_batch(c1[reserve_calls.len() as int], "BEGIN IMMEDIATE"@),
        key.len() == 1 && text_param(key[0]) == Some(source_id),
        c1[reserve_calls.len() + 1int].request == lookup(SELECT_GENERATION@, key),
        c1[reserve_calls.len() + 1int].outcome matches Outcome::Rows(rows) && first_integer_of(rows) == Some(current),
    ensures
        extends(before, c1),
        import_prefix(added_calls(before, c1), format, path, source_id, generation, current, key),
{
    assert(added_calls(before, c1).take(5) =~= added_calls(before, reserve_calls));
}

proof fn lemma_import_prefix_carries(
    before: Seq<Call>,
    c1: Seq<Call>,
    fin: Seq<Call>,
    format: Seq<char>,
    path: Seq<u8>,
    source_id: Seq<char>,
    generation: i64,
    current: i64,
    key: Seq<Param>,
)
    requires
        extends(before, c1),
        import_prefix(added_calls(before, c1), format, path, source_id, generation, current, key),
        c1.len() <= fin.len(),
        forall|j: int| 0 <= j < c1.len() ==> #[trigger] fin[j] == c1[j],
    ensures
        extends(before, fin),
        import_prefix(added_calls(before, fin), format, path, source_id, generation, current, key),
{
    let a = added_calls(before, c1);
    let b = added_calls(before, fin);
    assert(b.take(5) =~= a.take(5));
    assert(b[5] == a[5] && b[6] == a[6]);
}

impl Database {
    /// Registers the import source `format` at `path`, if new, and starts a
    /// new generation of it: returns its identifier and that generation. An
    /// import of an older generation is discarded.
    pub fn reserve_source(&mut self, format: &str, path: &[u8]) -> (r: Result<(String, i64), HonuError>)
        ensures
            final(self).handle() == old(self).handle(),
            r matches Ok((id, generation)) ==> final(self).calls().len() == old(self).calls().len() + 5
                && reserved(added_calls(old(self).calls(), final(self).calls()), format@, path@, id@, generation),
            r matches Err(e) ==> (e is Sqlite || e is NoRows || e is InvalidColumn) && failed_transaction(
                added_calls(old(self).calls(), final(self).calls()),
                "BEGIN IMMEDIATE"@,
                e,
            ) && (!(e is Sqlite) ==> source_read_failed(added_calls(old(self).calls(), final(self).calls()), e)),
            extends(old(self).calls(), final(self).calls()),
            only_registers_source(added_calls(old(self).calls(), final(self).calls())),
    {
        let ghost before = self.journal.calls();
        let ghost start = before.len() as int;
        proof {
            assert(added_calls(before, before) =~= Seq::<Call>::empty());
        }
        let begun = execute_batch(&self.connection, "BEGIN IMMEDIATE", &mut self.journal);
        proof {
            lemma_registers_more(before, before, self.journal.calls());
        }
        if let Err(e) = begun {
            proof {
                lemma_begin_failed(before, self.journal.calls(), "BEGIN IMMEDIATE"@);
            }
            return Err(sqlite(e));
        }
        let source_id = uuid_to_string(new_v4());
        let insert = source_params(&source_id, format, path);
        let ghost step = self.journal.calls();
        let inserted = execute(&self.connection, INSERT_SOURCE, insert.as_slice(), &mut self.journal);
        proof {
            lemma_registers_more(before, step, self.journal.calls());
        }
        if let Err(e) = inserted {
            let ghost failed = self.journal.calls();
            rollback(&self.connection, &mut self.journal);
            proof {
                lemma_source_rolled_back(before, start, self.journal.calls(), failed);
            }
            return Err(sqlite(e));
        }
        let key = source_key(format, path);
        let ghost step = self.journal.calls();
        let advanced = execute(&self.connection, ADVANCE_SOURCE, key.as_slice(), &mut self.journal);
        proof {
            lemma_registers_more(before, step, self.journal.calls());
        }
        if let Err(e) = advanced {
            let ghost failed = self.journal.calls();
            rollback(&self.connection, &mut self.journal);
            proof {
                lemma_source_rolled_back(before, start, self.journal.calls(), failed);
            }
            return Err(sqlite(e));
        }
        let ghost step = self.journal.calls();
        let read = query(&self.connection, SELECT_SOURCE, key.as_slice(), &mut self.journal);
        proof {
            lemma_registers_more(before, step, self.journal.calls());
        }
        let rows = match read {
            Ok(rows) => rows,
            Err(e) => {
                let ghost failed = self.journal.calls();
                rollback(&self.connection, &mut self.journal);
                proof {
                    lemma_source_rolled_back(before, start, self.journal.calls(), failed);
                }
                return Err(sqlite(e));
            },
        };
        let source = match source_from_rows(&rows) {
            Ok(source) => source,
            Err(e) => {
                let ghost failed = self.journal.calls();
                rollback(&self.connection, &mut self.journal);
                proof {
                    lemma_source_rolled_back(before, start, self.journal.calls(), failed);
                    let added = added_calls(before, self.journal.calls());
                    assert(added[3] == failed.last());
                    assert(row_views(rows@).len() == rows@.len());
                    if rows@.len() > 0 {
                        assert(row_views(rows@)[0] == rows@[0]@);
                    }
                }
                return Err(e);
            },
        };
        let ghost step = self.journal.calls();
        let committed = execute_batch(&self.connection, "COMMIT", &mut self.journal);
        proof {
            lemma_registers_more(before, step, self.journal.calls());
        }
        if let Err(e) = committed {
            let ghost failed = self.journal.calls();
            rollback(&self.connection, &mut self.journal);
            proof {
                lemma_source_rolled_back(before, start, self.journal.calls(), failed);
            }
            return Err(sqlite(e));
        }
        proof {
            let added = added_calls(before, self.journal.calls());
            assert(row_views(rows@)[0] == rows@[0]@);
            assert(reserved_with(added, format@, path@, source.0@, source.1, insert@, key@));
        }
        Ok(source)
    }

    /// Imports a snapshot of the history at `path` in `format`: the source is
    /// registered for a new import, then the records are read from `read`,
    /// matched against the previous snapshot of the same source; matched
    /// records keep their executions (which are updated in place), the others
    /// become new executions; the snapshot then replaces the previous one. All
    /// of it happens in one transaction, and not at all when a record is an
    /// error or a newer import of the source started meanwhile. Returns how
    /// many executions are new, reporting progress after each record.
    pub fn import<R: FnOnce() -> Vec<Result<crate::record::Record, HonuError>>, F: FnMut(ProgressEntry)>(
        &mut self,
        format: &str,
        path: &[u8],
        read: R,
        progress: F,
    ) -> (r: Result<usize, HonuError>)
        requires
            call_requires(read, ()),
            forall|p: ProgressEntry| #[trigger] call_requires(progress, (p,)),
        ensures
            final(self).handle() == old(self).handle(),
            (exists|items: Vec<Result<crate::record::Record, HonuError>>|
                call_ensures(read, (), items) && #[trigger] import_outcome(
                    old(self).calls(),
                    final(self).calls(),
                    format@,
                    path@,
                    items@,
                    r,
                    progress,
                )) || (r matches Err(e) && (e is Sqlite || e is NoRows || e is InvalidColumn)
                && extends(old(self).calls(), final(self).calls()) && only_registers_source(
                added_calls(old(self).calls(), final(self).calls()),
            ) && failed_transaction(added_calls(old(self).calls(), final(self).calls()), "BEGIN IMMEDIATE"@, e)),
    {
        let ghost before = self.journal.calls();
        let (source_id, generation) = match self.reserve_source(format, path) {
            Ok(source) => source,
            Err(e) => return Err(e),
        };
        let items = read();
        let ghost read_items = items;
        let r = self.import_reserved(format, path, source_id, generation, items, progress, Ghost(before));
        proof {
            assert(call_ensures(read, (), read_items));
            assert(import_outcome(before, self.journal.calls(), format@, path@, read_items@, r, progress));
        }
        r
    }

    /// The import of `items` once the source was registered, by the calls
    /// made since `before`, as `source_id` in its generation `generation`.
    #[verifier::loop_isolation(false)]
    #[verifier::rlimit(60)]
    #[verifier::spinoff_prover]
    fn import_reserved<F: FnMut(ProgressEntry)>(
        &mut self,
        format: &str,
        path: &[u8],
        source_id: String,
        generation: i64,
        items: Vec<Result<crate::record::Record, HonuError>>,
        mut progress: F,
        Ghost(before): Ghost<Seq<Call>>,
    ) -> (r: Result<usize, HonuError>)
        requires
            forall|p: ProgressEntry| #[trigger] call_requires(progress, (p,)),
            extends(before, old(self).calls()),
            old(self).calls().len() == before.len() + 5,
            reserved(added_calls(before, old(self).calls()), format@, path@, source_id@, generation),
            only_registers_source(added_calls(before, old(self).calls())),
        ensures
            final(self).handle() == old(self).handle(),
            import_outcome(before, final(self).calls(), format@, path@, items@, r, progress),
    {
        let ghost f = progress;
        let ghost reserve_calls = self.journal.calls();
        let ghost start = reserve_calls.len() as int;
        let ghost all = items@;
        let records = match collect_records(items) {
            Ok(records) => records,
            Err(e) => return Err(e),
        };
        assert(forall|i: int| 0 <= i < all.len() ==> #[trigger] all[i] is Ok);
        assert(records@ =~= item_records(all));
        if records.len() > i32::MAX as usize {
            return Err(HonuError::TooManyRecords);
        }
        if let Err(e) = execute_batch(&self.connection, "BEGIN IMMEDIATE", &mut self.journal) {
            proof {
                lemma_begin_failed(reserve_calls, self.journal.calls(), "BEGIN IMMEDIATE"@);
            }
            return Err(sqlite(e));
        }
        let ghost begun = self.journal.calls();
        let ghost begin_call = begun[start];
        let mut source_key: Vec<Param> = Vec::new();
        source_key.push(Param::Text(source_id.clone()));
        let current = match query(&self.connection, SELECT_GENERATION, source_key.as_slice(), &mut self.journal) {
            Ok(rows) => {
                let c = first_integer(&rows);
                proof {
                    if rows@.len() > 0 {
                        assert(row_views(rows@)[0] == rows@[0]@);
                    }
                }
                c
            },
            Err(e) => Err(sqlite(e)),
        };
        let current = match current {
            Ok(current) => current,
            Err(e) => {
                let ghost failed = self.journal.calls();
                rollback(&self.connection, &mut self.journal);
                proof {
                    assert(failed[start] == begin_call);
                    lemma_rolled_back(before, start, self.journal.calls(), failed, "BEGIN IMMEDIATE"@);
                }
                return Err(e);
            },
        };
        let ghost c1 = self.journal.calls();
        proof {
            lemma_import_prefix(before, reserve_calls, c1, format@, path@, source_id@, generation, current, source_key@);
        }
        if current != generation {
            rollback(&self.connection, &mut self.journal);
            proof {
                lemma_import_prefix_carries(before, c1, self.journal.calls(), format@, path@, source_id@, generation, current, source_key@);
                let calls = added_calls(before, self.journal.calls());
                assert(calls[7] == self.journal.calls().last());
                assert(import_run(
                    calls,
                    format@,
                    path@,
                    item_records(all),
                    0,
                    source_id@,
                    generation,
                    current,
                    source_key@,
                    Seq::empty(),
                    Seq::empty(),
                    Seq::empty(),
                ));
                assert(imported(calls, format@, path@, item_records(all), 0, f));
            }
            return Ok(0);
        }
        let previous = match query(&self.connection, SELECT_SOURCE_RECORDS, source_key.as_slice(), &mut self.journal) {
            Ok(rows) => {
                let p = source_records_from_rows(&rows);
                proof {
                    if p is Ok {
                        let prev = p->Ok_0;
                        assert forall|i: int| 0 <= i < rows@.len() implies #[trigger] row_views(rows@)[i].len() >= 2
                            && blob_of(row_views(rows@)[i][0]) == Some(prev@[i].0@) && text_of(
                            row_views(rows@)[i][1],
                        ) == Some(prev@[i].1@) by {
                            assert(row_views(rows@)[i] == rows@[i]@);
                        }
                        assert(snapshot_of(row_views(rows@), prev@));
                    }
                }
                p
            },
            Err(e) => Err(sqlite(e)),
        };
        let previous = match previous {
            Ok(previous) => previous,
            Err(e) => {
                let ghost failed = self.journal.calls();
                rollback(&self.connection, &mut self.journal);
                proof {
                    assert(failed[start] == begin_call);
                    lemma_rolled_back(before, start, self.journal.calls(), failed, "BEGIN IMMEDIATE"@);
                }
                return Err(e);
            },
        };
        let identifiers = match Database::reconcile(previous.as_slice(), records.as_slice()) {
            Ok(identifiers) => identifiers,
            Err(e) => {
                let ghost failed = self.journal.calls();
                rollback(&self.connection, &mut self.journal);
                proof {
                    assert(failed[start] == begin_call);
                    lemma_rolled_back(before, start, self.journal.calls(), failed, "BEGIN IMMEDIATE"@);
                }
                return Err(e);
            },
        };
        let ghost c2 = self.journal.calls();
        let mut ids: Vec<String> = Vec::new();
        let mut inserted: usize = 0;
        let mut index: usize = 0;
        while index < records.len()
            invariant
                index <= records@.len(),
                records@.len() <= i32::MAX,
                identifiers@.len() == records@.len(),
                ids@.len() == index,
                inserted <= index,
                inserted == unmatched_count(identifiers@.take(index as int)),
                progress == f,
                forall|p: ProgressEntry| #[trigger] call_requires(progress, (p,)),
                self.journal.calls().len() == c2.len() + index,
                forall|j: int| 0 <= j < c2.len() ==> #[trigger] self.journal.calls()[j] == c2[j],
                self.connection == old(self).connection,
                forall|j: int|
                    0 <= j < index ==> (identifiers@[j] matches Some(id) ==> (#[trigger] ids@[j])@
                        == id@) && upserted(
                        self.journal.calls()[c2.len() + j],
                        ids@[j]@,
                        records@[j].execution@,
                        identifiers@[j] is None,
                    ),
                reported(f, identifiers@, index as int),
            decreases records@.len() - index,
        {
            proof {
                assert(identifiers@.take(index + 1).drop_last() == identifiers@.take(index as int));
            }
            let ghost prev_calls = self.journal.calls();
            let record = &records[index];
            let new = identifiers[index].is_none();
            let id = match &identifiers[index] {
                Some(id) => id.clone(),
                None => uuid_to_string(new_v4()),
            };
            let params = upsert_params(&id, &record.execution, new);
            let changed = match execute(&self.connection, UPSERT_EXECUTION, params.as_slice(), &mut self.journal) {
                Ok(changed) => changed,
                Err(e) => {
                    let ghost failed = self.journal.calls();
                    rollback(&self.connection, &mut self.journal);
                    proof {
                        assert(failed[start] == begin_call);
                        lemma_rolled_back(before, start, self.journal.calls(), failed, "BEGIN IMMEDIATE"@);
                    }
                    return Err(sqlite(e));
                },
            };
            if new && changed == 0 {
                let ghost failed = self.journal.calls();
                rollback(&self.connection, &mut self.journal);
                proof {
                    assert(failed[start] == begin_call);
                    lemma_rolled_back(before, start, self.journal.calls(), failed, "BEGIN IMMEDIATE"@);
                }
                return Err(HonuError::DuplicateExecutionId(id));
            }
            if new {
                inserted = inserted + 1;
            }
            proof {
                assert(ran_statement(self.journal.calls()[c2.len() + index], UPSERT_EXECUTION@, params@));
                assert(upserted(self.journal.calls()[c2.len() + index], id@, record.execution@, new));
                assert forall|j: int| 0 <= j < index implies #[trigger] self.journal.calls()[c2.len() + j]
                    == prev_calls[c2.len() + j] by {}
            }
            ids.push(id);
            index = index + 1;
            let entry = ProgressEntry { inserted, processed: index };
            assert(entry == progress_after(identifiers@, index - 1));
            progress(entry);
            proof {
                assert forall|j: int| 0 <= j < index implies call_ensures(
                    f,
                    (#[trigger] progress_after(identifiers@, j),),
                    (),
                ) by {
                    if j == index - 1 {
                        assert(progress_after(identifiers@, j) == entry);
                    }
                }
            }
        }
        let ghost l1 = self.journal.calls();
        if let Err(e) = execute(&self.connection, DELETE_SOURCE_RECORDS, source_key.as_slice(), &mut self.journal) {
            let ghost failed = self.journal.calls();
            rollback(&self.connection, &mut self.journal);
            proof {
                assert(failed[start] == begin_call);
                lemma_rolled_back(before, start, self.journal.calls(), failed, "BEGIN IMMEDIATE"@);
            }
            return Err(sqlite(e));
        }
        let ghost c3 = self.journal.calls();
        let mut position: usize = 0;
        while position < records.len()
            invariant
                position <= records@.len(),
                ids@.len() == records@.len(),
                records@.len() <= i32::MAX,
                self.journal.calls().len() == c3.len() + position,
                forall|j: int| 0 <= j < c3.len() ==> #[trigger] self.journal.calls()[j] == c3[j],
                self.connection == old(self).connection,
                forall|j: int|
                    0 <= j < position ==> #[trigger] stored_entry(
                        self.journal.calls()[c3.len() + j],
                        source_id@,
                        j,
                        records@[j].fingerprint@,
                        ids@[j]@,
                    ),
            decreases records@.len() - position,
        {
            let ghost prev_calls = self.journal.calls();
            let params = source_record_params(&source_id, position, &records[position].fingerprint, &ids[position]);
            if let Err(e) = execute(&self.connection, INSERT_SOURCE_RECORD, params.as_slice(), &mut self.journal) {
                let ghost failed = self.journal.calls();
                rollback(&self.connection, &mut self.journal);
                proof {
                    assert(failed[start] == begin_call);
                    lemma_rolled_back(before, start, self.journal.calls(), failed, "BEGIN IMMEDIATE"@);
                }
                return Err(sqlite(e));
            }
            proof {
                assert(ran_statement(self.journal.calls()[c3.len() + position], INSERT_SOURCE_RECORD@, params@));
                assert(stored_entry(self.journal.calls()[c3.len() + position], source_id@, position as int, records@[position as int].fingerprint@, ids@[position as int]@));
                assert forall|j: int| 0 <= j < position implies #[trigger] self.journal.calls()[c3.len() + j]
                    == prev_calls[c3.len() + j] by {}
            }
            position = position + 1;
        }
        let ghost l2 = self.journal.calls();
        if let Err(e) = execute_batch(&self.connection, REBUILD_COMMANDS, &mut self.journal) {
            let ghost failed = self.journal.calls();
            rollback(&self.connection, &mut self.journal);
            proof {
                assert(failed[start] == begin_call);
                lemma_rolled_back(before, start, self.journal.calls(), failed, "BEGIN IMMEDIATE"@);
            }
            return Err(sqlite(e));
        }
        if let Err(e) = execute_batch(&self.connection, "COMMIT", &mut self.journal) {
            let ghost failed = self.journal.calls();
            rollback(&self.connection, &mut self.journal);
            proof {
                assert(failed[start] == begin_call);
                lemma_rolled_back(before, start, self.journal.calls(), failed, "BEGIN IMMEDIATE"@);
            }
            return Err(sqlite(e));
        }
        proof {
            let fin = self.journal.calls();
            let k = records@.len() as int;
            let b = before.len() as int;
            assert(identifiers@.take(records@.len() as int) == identifiers@);
            let records_seq = item_records(all);
            assert forall|j: int| 0 <= j < c1.len() implies #[trigger] fin[j] == c1[j] by {
                assert(fin[j] == c3[j]);
                assert(c3[j] == l1[j]);
                assert(l1[j] == c2[j]);
            }
            lemma_import_prefix_carries(before, c1, fin, format@, path@, source_id@, generation, current, source_key@);
            let calls = added_calls(before, fin);
            assert(calls[7] == c2[b + 7]) by {
                assert(fin[b + 7] == c3[b + 7]);
                assert(c3[b + 7] == l1[b + 7]);
            }
            let stored = ids@.map_values(|s: String| s@);
            assert(previous_fingerprints(previous@) == record_fingerprints(records_seq) ==> forall|j: int|
                0 <= j < identifiers@.len() ==> #[trigger] identifiers@[j] is Some);
            assert forall|j: int| 0 <= j < k implies (identifiers@[j] matches Some(id) ==> (#[trigger] stored[j]) == id@) && upserted(
                calls[8 + j],
                stored[j],
                records_seq[j].execution@,
                identifiers@[j] is None,
            ) by {
                assert(fin[b + 8 + j] == c3[b + 8 + j]);
                assert(c3[b + 8 + j] == l1[b + 8 + j]);
                assert(stored[j] == ids@[j]@);
            }
            assert forall|j: int| 0 <= j < k implies #[trigger] stored_entry(
                calls[9 + k + j],
                source_id@,
                j,
                records_seq[j].fingerprint@,
                stored[j],
            ) by {
                assert(stored[j] == ids@[j]@);
                assert(fin[c3.len() + j] == l2[c3.len() + j]);
                assert(c3.len() == b + 9 + k);
            }
            assert(calls[8 + k] == c3[b + 8 + k]);
            assert(import_run(
                calls,
                format@,
                path@,
                records_seq,
                inserted as nat,
                source_id@,
                generation,
                current,
                source_key@,
                previous@,
                identifiers@,
                stored,
            ));
            assert(reported(f, identifiers@, records_seq.len() as int));
            assert(imported(calls, format@, path@, records_seq, inserted as nat, f));
        }
        Ok(inserted)
    }
}

fn copy_bytes_of(v: &[u8]) -> (r: Vec<u8>)
    ensures
        r@ == v@,
{
    let mut r: Vec<u8> = Vec::new();
    crate::encoding::append_bytes(&mut r, v);
    r
}

} // verus!
