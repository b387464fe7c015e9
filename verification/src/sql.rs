//! The SQLite binding: the calls into `rusqlite` that the index database makes.
//!
//! What a query returns depends on what the database file holds, which other
//! processes may change at any time, so the contracts here state nothing of
//! the rows read back; the library reads them through verified functions that
//! take what came back as an argument.
use rusqlite::types::Value;
use vstd::prelude::*;

verus! {

/// An SQLite connection, held by the index database.
#[verifier::external_type_specification]
#[verifier::external_body]
pub struct ExConnection(rusqlite::Connection);

/// An error reported by SQLite or by `rusqlite`.
#[verifier::external_type_specification]
#[verifier::external_body]
pub struct ExSqlError(rusqlite::Error);

/// An owned SQL value; the library carries it without looking inside.
#[verifier::external_type_specification]
#[verifier::external_body]
pub struct ExSqlValue(Value);

/// Cloning an SQL value gives the same value (`Value` derives `Clone`).
pub assume_specification[ <Value as Clone>::clone ](
    v: &Value,
) -> (r: Value)
    ensures
        r == *v,
;

/// A value bound to a statement parameter or read from a result column.
#[derive(Debug)]
pub enum SqlValue {
    Null,
    Integer(i64),
    Text(String),
    Blob(Vec<u8>),
    /// Any other value (a floating-point one), carried as it is.
    Other(Value),
}

/// What a query for one text column of its first row gave.
#[derive(Debug)]
pub enum QueryOutcome {
    /// The query returned at least one row; this is the text of the first.
    Row(String),
    /// The query returned no row.
    NoRows,
    /// The query failed, or the column held no text.
    Failed(rusqlite::Error),
}

/// The columns of an indexed change as the database returns them: hash,
/// message, description, timestamp, authors (JSON), files (JSON), AI vendor,
/// AI model, embedding bytes.
pub type IndexedRow = (
    String,
    String,
    Option<String>,
    i64,
    String,
    String,
    Option<String>,
    Option<String>,
    Vec<u8>,
);

/// Opens (or creates) the database file at `path` with `Connection::open`.
#[verifier::external_body]
pub(crate) fn open_connection(path: &str) -> (r: Result<rusqlite::Connection, rusqlite::Error>) {
    rusqlite::Connection::open(path)
}

/// Runs the SQL statements in `sql` one after another with
/// `Connection::execute_batch`.
#[verifier::external_body]
pub(crate) fn execute_batch(conn: &rusqlite::Connection, sql: &str) -> (r: Result<(), rusqlite::Error>) {
    conn.execute_batch(sql)
}

/// Runs one SQL statement with `Connection::execute`, binding `params` to
/// `?1`, `?2`, ... in order; on success it returns the number of rows changed.
#[verifier::external_body]
pub(crate) fn execute(conn: &rusqlite::Connection, sql: &str, params: Vec<SqlValue>) -> (r: Result<
    usize,
    rusqlite::Error,
>) {
    let values = params.into_iter().map(|p| match p {
        SqlValue::Null => Value::Null,
        SqlValue::Integer(i) => Value::Integer(i),
        SqlValue::Text(t) => Value::Text(t),
        SqlValue::Blob(b) => Value::Blob(b),
        SqlValue::Other(v) => v,
    });
    conn.execute(sql, rusqlite::params_from_iter(values))
}

/// Runs a query with `Connection::query_row`, binding the text `params` in
/// order, and reads the first column of the first row as an `i64`; a missing
/// row, a column of another type and a failed query are errors.
#[verifier::external_body]
pub(crate) fn query_first_integer(conn: &rusqlite::Connection, sql: &str, params: &Vec<String>)
    -> (r: Result<i64, rusqlite::Error>) {
    conn.query_row(sql, rusqlite::params_from_iter(params.iter()), |row| row.get(0))
}

/// Runs a query with `Connection::query_row`, binding the text `params` in
/// order, and reads the first column of the first row as a `String`; tells
/// apart a query that returned no row (`Error::QueryReturnedNoRows`).
#[verifier::external_body]
pub(crate) fn query_first_text(conn: &rusqlite::Connection, sql: &str, params: &Vec<String>) -> (r:
    QueryOutcome) {
    match conn.query_row(sql, rusqlite::params_from_iter(params.iter()), |row| row.get(0)) {
        Ok(text) => QueryOutcome::Row(text),
        Err(rusqlite::Error::QueryReturnedNoRows) => QueryOutcome::NoRows,
        Err(e) => QueryOutcome::Failed(e),
    }
}

/// Runs a query with `Connection::query_row`, binding the text `params` in
/// order, and reads the first column of the first row as bytes; a missing
/// row, a column that holds no blob and a failed query are errors.
#[verifier::external_body]
pub(crate) fn query_first_blob(conn: &rusqlite::Connection, sql: &str, params: &Vec<String>)
    -> (r: Result<Vec<u8>, rusqlite::Error>) {
    conn.query_row(sql, rusqlite::params_from_iter(params.iter()), |row| row.get(0))
}

/// Runs a query without parameters with `Connection::prepare` and
/// `Statement::query_map`, reading each row's nine columns as the types of
/// an [`IndexedRow`]; a row whose columns do not have those types makes it
/// fail.
#[verifier::external_body]
pub(crate) fn query_indexed_rows(conn: &rusqlite::Connection, sql: &str) -> (r: Result<
    Vec<IndexedRow>,
    rusqlite::Error,
>) {
    let mut stmt = conn.prepare(sql)?;
    let rows = stmt.query_map([], |row| {
        Ok((row.get(0)?, row.get(1)?, row.get(2)?, row.get(3)?, row.get(4)?,
            row.get(5)?, row.get(6)?, row.get(7)?, row.get(8)?))
    })?;
    rows.collect()
}

} // verus!
