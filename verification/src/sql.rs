//! The calls into SQLite, through `rusqlite`, and the values they exchange.

use vstd::prelude::*;
use rusqlite::types::Value as SqlValue;
use rusqlite::Connection;

verus! {

#[verifier::external_type_specification]
#[verifier::external_body]
pub struct ExConnection(rusqlite::Connection);

#[verifier::external_type_specification]
#[verifier::external_body]
pub struct ExSqliteError(rusqlite::Error);

/// A value bound to a statement parameter.
#[derive(Clone, Debug, PartialEq, Eq)]
pub enum Param {
    Null,
    Integer(i64),
    Text(String),
    Blob(Vec<u8>),
}

/// A value read from a result column. A floating-point value is only told apart.
#[derive(Clone, Debug, PartialEq, Eq)]
pub enum Datum {
    Null,
    Integer(i64),
    Real,
    Text(String),
    Blob(Vec<u8>),
}

/// A request made of SQLite.
pub enum Request {
    /// Run the statements `sql`, with no parameters.
    Batch(Seq<char>),
    /// Run the statement `sql` with the bound values.
    Execute(Seq<char>, Seq<SqlValue>),
    /// Run the query `sql` with the bound values.
    Query(Seq<char>, Seq<SqlValue>),
    /// Set the pragma `name` of the main schema to the value.
    Pragma(Seq<char>, Param),
    /// Wait up to that many milliseconds for a locked database.
    BusyTimeout(u64),
    /// Copy the main database into the database file at that path.
    Backup(Seq<char>),
}

/// What SQLite answered a request with.
pub enum Outcome {
    Failed,
    Done,
    /// A statement changed that many rows.
    Changed(usize),
    /// A query gave these rows.
    Rows(Seq<Seq<Datum>>),
}

/// A request made of SQLite, and its outcome.
pub struct Call {
    pub request: Request,
    pub outcome: Outcome,
}

/// The record of the requests made of SQLite through a connection, in order,
/// with their outcomes. Only the calls into SQLite add to it.
pub struct Journal {
    calls: Ghost<Seq<Call>>,
}

impl Journal {
    pub closed spec fn calls(&self) -> Seq<Call> {
        self.calls@
    }

    /// A journal of no calls.
    pub fn new() -> (r: Journal)
        ensures
            r.calls() == Seq::<Call>::empty(),
    {
        Journal { calls: Ghost(Seq::empty()) }
    }
}

/// The outcome of a request that succeeds with nothing to report.
pub open spec fn done_or_failed<T, E>(r: Result<T, E>) -> Outcome {
    match r {
        Ok(_) => Outcome::Done,
        Err(_) => Outcome::Failed,
    }
}

/// The request to run the statement `sql` with `params`.
pub open spec fn statement(sql: Seq<char>, params: Seq<Param>) -> Request {
    Request::Execute(sql, params.map_values(|p: Param| sql_value(p)))
}

/// The request to run the query `sql` with `params`.
pub open spec fn lookup(sql: Seq<char>, params: Seq<Param>) -> Request {
    Request::Query(sql, params.map_values(|p: Param| sql_value(p)))
}

/// The rows of Datum values `rows` holds.
pub open spec fn row_views(rows: Seq<Vec<Datum>>) -> Seq<Seq<Datum>> {
    rows.map_values(|row: Vec<Datum>| row@)
}

/// Whether `calls` are `requests`, in order, each of which succeeded.
pub open spec fn ran(calls: Seq<Call>, requests: Seq<Request>) -> bool {
    &&& calls.len() == requests.len()
    &&& forall|i: int| 0 <= i < calls.len() ==> #[trigger] calls[i].request == requests[i] && !(
    calls[i].outcome is Failed)
}

/// The calls `after` holds beyond `before`, where it extends it.
pub open spec fn added_calls(before: Seq<Call>, after: Seq<Call>) -> Seq<Call> {
    after.skip(before.len() as int)
}

/// Whether `after` is `before` with more calls.
pub open spec fn extends(before: Seq<Call>, after: Seq<Call>) -> bool {
    &&& before.len() <= after.len()
    &&& forall|i: int| 0 <= i < before.len() ==> #[trigger] after[i] == before[i]
}

/// Calls `Connection::open`: opens (creating it if needed) the database file at
/// `path`. Nothing is stated of the outcome, which depends on the file system.
#[verifier::external_body]
pub(crate) fn open_connection(path: &str) -> (r: Result<Connection, rusqlite::Error>) {
    Connection::open(path)
}

/// Calls `rusqlite::Error`'s `to_string`: its message. Nothing is stated of it.
#[verifier::external_body]
pub(crate) fn error_message(error: &rusqlite::Error) -> (r: String) {
    error.to_string()
}

/// Calls `rusqlite::Error::sqlite_error`: where SQLite itself failed, the
/// extended result code it gave. Nothing is stated of it.
#[verifier::external_body]
pub(crate) fn error_code(error: &rusqlite::Error) -> (r: Option<i32>) {
    error.sqlite_error().map(|failure| failure.extended_code)
}

/// Calls `Connection::busy_timeout` with `milliseconds`, which panics on a
/// timeout beyond `i32::MAX` milliseconds. The request and whether it
/// succeeded are recorded in `journal`; nothing more is stated of the outcome.
#[verifier::external_body]
pub(crate) fn busy_timeout(connection: &Connection, milliseconds: u64, journal: &mut Journal) -> (r: Result<(), rusqlite::Error>)
    requires
        milliseconds <= i32::MAX,
    ensures
        final(journal).calls() == old(journal).calls().push(
            Call { request: Request::BusyTimeout(milliseconds), outcome: done_or_failed(r) },
        ),
{
    connection.busy_timeout(std::time::Duration::from_millis(milliseconds))
}

/// Calls `Connection::pragma_update` on the main schema. The request and
/// whether it succeeded are recorded in `journal`; nothing more is stated of
/// the outcome, which depends on the database.
#[verifier::external_body]
pub(crate) fn pragma_update(connection: &Connection, name: &str, value: &Param, journal: &mut Journal) -> (r: Result<(), rusqlite::Error>)
    ensures
        final(journal).calls() == old(journal).calls().push(
            Call { request: Request::Pragma(name@, *value), outcome: done_or_failed(r) },
        ),
{
    match value {
        Param::Null => connection.pragma_update(None, name, SqlValue::Null),
        Param::Integer(i) => connection.pragma_update(None, name, *i),
        Param::Text(s) => connection.pragma_update(None, name, s),
        Param::Blob(b) => connection.pragma_update(None, name, b),
    }
}

/// Calls `Connection::execute_batch` on `sql`. The request and whether it
/// succeeded are recorded in `journal`; nothing more is stated of the outcome,
/// which depends on the database.
#[verifier::external_body]
pub(crate) fn execute_batch(connection: &Connection, sql: &str, journal: &mut Journal) -> (r: Result<(), rusqlite::Error>)
    ensures
        final(journal).calls() == old(journal).calls().push(
            Call { request: Request::Batch(sql@), outcome: done_or_failed(r) },
        ),
{
    connection.execute_batch(sql)
}

/// Calls `Connection::backup` on the main database, without progress
/// reports: copies it into the database file at `destination`, which it opens
/// (creating it if needed). The request and whether it succeeded are
/// recorded in `journal`; nothing more is stated of the outcome, which
/// depends on the file system.
#[verifier::external_body]
pub(crate) fn backup_main(connection: &Connection, destination: &str, journal: &mut Journal) -> (r: Result<(), rusqlite::Error>)
    ensures
        final(journal).calls() == old(journal).calls().push(
            Call { request: Request::Backup(destination@), outcome: done_or_failed(r) },
        ),
{
    connection.backup(rusqlite::MAIN_DB, destination, rusqlite::backup::NO_PROGRESS)
}

#[verifier::external_type_specification]
#[verifier::external_body]
pub struct ExSqlValue(rusqlite::types::Value);

/// The `rusqlite` value a parameter is bound as: the value of the same kind
/// and contents.
pub uninterp spec fn sql_value(p: Param) -> SqlValue;

/// Converts a parameter to `rusqlite`'s value of the same kind and contents:
/// the result is the named function of the parameter.
#[verifier::external_body]
fn sql_param(p: &Param) -> (r: SqlValue)
    ensures
        r == sql_value(*p),
{
    match p {
        Param::Null => SqlValue::Null,
        Param::Integer(i) => SqlValue::Integer(*i),
        Param::Text(s) => SqlValue::Text(s.clone()),
        Param::Blob(b) => SqlValue::Blob(b.clone()),
    }
}

/// The value a `rusqlite` value is read as: the value of the same kind and
/// contents (only the kind of a floating-point value).
pub uninterp spec fn datum_of(v: SqlValue) -> Datum;

/// The rows of values `rows` are read as.
pub open spec fn datum_rows(rows: Seq<Vec<SqlValue>>) -> Seq<Seq<Datum>> {
    rows.map_values(|row: Vec<SqlValue>| row@.map_values(|v: SqlValue| datum_of(v)))
}

/// Converts `rusqlite`'s value to the value of the same kind and contents
/// (dropping the number of a floating-point value): the result is the named
/// function of the value.
#[verifier::external_body]
fn column_value(v: SqlValue) -> (r: Datum)
    ensures
        r == datum_of(v),
{
    match v {
        SqlValue::Null => Datum::Null,
        SqlValue::Integer(i) => Datum::Integer(i),
        SqlValue::Real(_) => Datum::Real,
        SqlValue::Text(s) => Datum::Text(s),
        SqlValue::Blob(b) => Datum::Blob(b),
    }
}

/// Calls `Connection::execute` on `sql` with `params`: the number of rows it
/// changed, which depends on the database. The request and its outcome are
/// recorded in `journal`.
#[verifier::external_body]
fn execute_values(connection: &Connection, sql: &str, params: Vec<SqlValue>, journal: &mut Journal) -> (r: Result<usize, rusqlite::Error>)
    ensures
        final(journal).calls() == old(journal).calls().push(
            Call {
                request: Request::Execute(sql@, params@),
                outcome: match r {
                    Ok(n) => Outcome::Changed(n),
                    Err(_) => Outcome::Failed,
                },
            },
        ),
{
    connection.execute(sql, rusqlite::params_from_iter(params))
}

/// Calls `Connection::prepare` and `Statement::query_map` on `sql` with
/// `params`: every row of the result, each as its column values, which
/// depend on the database. The request and the rows, as read by `datum_of`,
/// are recorded in `journal`.
#[verifier::external_body]
fn query_values(connection: &Connection, sql: &str, params: Vec<SqlValue>, journal: &mut Journal) -> (r: Result<Vec<Vec<SqlValue>>, rusqlite::Error>)
    ensures
        final(journal).calls() == old(journal).calls().push(
            Call {
                request: Request::Query(sql@, params@),
                outcome: match r {
                    Ok(rows) => Outcome::Rows(datum_rows(rows@)),
                    Err(_) => Outcome::Failed,
                },
            },
        ),
{
    let mut statement = connection.prepare(sql)?;
    let columns = statement.column_count();
    let rows = statement.query_map(rusqlite::params_from_iter(params), |row| {
        (0..columns).map(|i| row.get::<_, SqlValue>(i)).collect::<rusqlite::Result<Vec<_>>>()
    })?;
    rows.collect()
}

fn sql_params(params: &[Param]) -> (r: Vec<SqlValue>)
    ensures
        r@ == params@.map_values(|p: Param| sql_value(p)),
{
    let mut values: Vec<SqlValue> = Vec::new();
    let mut i: usize = 0;
    while i < params.len()
        invariant
            i <= params@.len(),
            values@ == params@.take(i as int).map_values(|p: Param| sql_value(p)),
        decreases params@.len() - i,
    {
        values.push(sql_param(&params[i]));
        proof {
            assert(params@.take(i + 1).drop_last() == params@.take(i as int));
        }
        i = i + 1;
        assert(values@ =~= params@.take(i as int).map_values(|p: Param| sql_value(p)));
    }
    assert(params@.take(params@.len() as int) == params@);
    values
}

/// Runs the statement `sql` with `params`: the number of rows it changed.
pub(crate) fn execute(connection: &Connection, sql: &str, params: &[Param], journal: &mut Journal) -> (r: Result<usize, rusqlite::Error>)
    ensures
        final(journal).calls() == old(journal).calls().push(
            Call {
                request: statement(sql@, params@),
                outcome: match r {
                    Ok(n) => Outcome::Changed(n),
                    Err(_) => Outcome::Failed,
                },
            },
        ),
{
    execute_values(connection, sql, sql_params(params), journal)
}

/// Runs the query `sql` with `params`: every row of the result, each as its
/// column values.
pub(crate) fn query(connection: &Connection, sql: &str, params: &[Param], journal: &mut Journal) -> (r: Result<Vec<Vec<Datum>>, rusqlite::Error>)
    ensures
        final(journal).calls() == old(journal).calls().push(
            Call {
                request: lookup(sql@, params@),
                outcome: match r {
                    Ok(rows) => Outcome::Rows(row_views(rows@)),
                    Err(_) => Outcome::Failed,
                },
            },
        ),
{
    let rows = match query_values(connection, sql, sql_params(params), journal) {
        Ok(rows) => rows,
        Err(e) => return Err(e),
    };
    let ghost raw = rows@;
    let mut result: Vec<Vec<Datum>> = Vec::new();
    for row in it: rows
        invariant
            it.seq() == raw,
            row_views(result@) == datum_rows(raw).take(it.index() as int),
    {
        let ghost cells = row@;
        let mut values: Vec<Datum> = Vec::new();
        for cell in jt: row
            invariant
                jt.seq() == cells,
                values@ == cells.take(jt.index() as int).map_values(|v: SqlValue| datum_of(v)),
        {
            let ghost k = jt.index();
            values.push(column_value(cell));
            assert(cells.take(k + 1) == cells.take(k as int).push(cells[k as int]));
            assert(values@ =~= cells.take(k + 1).map_values(|v: SqlValue| datum_of(v)));
        }
        assert(cells.take(cells.len() as int) == cells);
        let ghost i = it.index();
        let ghost before = result@;
        result.push(values);
        assert(row_views(result@) =~= row_views(before).push(values@));
        assert(datum_rows(raw).take(i + 1) =~= datum_rows(raw).take(i as int).push(datum_rows(raw)[i as int]));
    }
    assert(datum_rows(raw).take(raw.len() as int) == datum_rows(raw));
    Ok(result)
}

} // verus!
