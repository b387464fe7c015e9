//! The index database at `.atomic/recall.db`: change records, their
//! embeddings, and the metadata of the model that produced them.
use vstd::prelude::*;

use crate::change::ChangeRecord;
use crate::embedding::{
    embedding_blob, embedding_from_blob, embedding_of_blob, embedding_to_blob,
    lemma_embedding_round_trip,
};
use crate::error::RecallError;
use crate::json::{json_of_strings, json_string_array};
use crate::paths::{index_db_path, is_index_db_path};
use crate::sql::{
    IndexedRow, QueryOutcome, SqlValue, execute, execute_batch, open_connection,
    query_first_blob, query_first_integer, query_first_text, query_indexed_rows,
};
use crate::text::{decimal, decimal_string, lemma_decimal_parses_back, parse_usize, parsed_usize};

verus! {

/// The schema of the index.
pub const SCHEMA_SQL: &'static str = "
    PRAGMA journal_mode=WAL;

    CREATE TABLE IF NOT EXISTS changes (
        hash         TEXT PRIMARY KEY,
        message      TEXT NOT NULL,
        description  TEXT,
        timestamp    INTEGER NOT NULL,
        authors      TEXT NOT NULL DEFAULT '[]',
        files        TEXT NOT NULL DEFAULT '[]',
        ai_vendor    TEXT,
        ai_model     TEXT,
        ai_tool      TEXT,
        prompt_text  TEXT,
        reasoning    TEXT,
        task_plan    TEXT,
        tokens_in    INTEGER,
        tokens_out   INTEGER,
        cost_usd     REAL,
        session_id   TEXT,
        embedding    BLOB,
        embed_model  TEXT,
        indexed_at   INTEGER
    );

    CREATE TABLE IF NOT EXISTS meta (
        key   TEXT PRIMARY KEY,
        value TEXT NOT NULL
    );
    ";

pub const IS_INDEXED_SQL: &'static str =
    "SELECT COUNT(*) FROM changes WHERE hash = ?1 AND embedding IS NOT NULL";

pub const UPSERT_SQL: &'static str = "INSERT INTO changes
        (hash, message, description, timestamp, authors, files,
         ai_vendor, ai_model, ai_tool, prompt_text, reasoning, task_plan,
         tokens_in, tokens_out, cost_usd, session_id)
     VALUES (?1,?2,?3,?4,?5,?6,?7,?8,?9,?10,?11,?12,?13,?14,?15,?16)
     ON CONFLICT(hash) DO UPDATE SET
        message     = excluded.message,
        description = excluded.description,
        authors     = excluded.authors,
        files       = excluded.files,
        ai_vendor   = excluded.ai_vendor,
        ai_model    = excluded.ai_model,
        ai_tool     = excluded.ai_tool,
        prompt_text = excluded.prompt_text,
        reasoning   = excluded.reasoning,
        task_plan   = excluded.task_plan,
        tokens_in   = excluded.tokens_in,
        tokens_out  = excluded.tokens_out,
        cost_usd    = excluded.cost_usd,
        session_id  = excluded.session_id";

pub const STORE_EMBEDDING_SQL: &'static str =
    "UPDATE changes SET embedding = ?1, embed_model = ?2, indexed_at = ?3
     WHERE hash = ?4";

pub const LOAD_INDEXED_SQL: &'static str = "SELECT hash, message, description, timestamp, authors, files,
            ai_vendor, ai_model, embedding
     FROM changes
     WHERE embedding IS NOT NULL
     ORDER BY timestamp ASC";

pub const GET_META_SQL: &'static str = "SELECT value FROM meta WHERE key = ?1";

pub const SET_META_SQL: &'static str = "INSERT INTO meta (key, value) VALUES (?1, ?2)
     ON CONFLICT(key) DO UPDATE SET value = excluded.value";

pub const STORED_MODEL_SQL: &'static str =
    "SELECT embed_model FROM changes WHERE embed_model IS NOT NULL LIMIT 1";

pub const STORED_EMBEDDING_SQL: &'static str =
    "SELECT embedding FROM changes WHERE embedding IS NOT NULL LIMIT 1";

pub const CLEAR_EMBEDDINGS_SQL: &'static str =
    "UPDATE changes SET embedding = NULL, embed_model = NULL, indexed_at = NULL";

pub const COUNT_ALL_SQL: &'static str = "SELECT COUNT(*) FROM changes";

pub const COUNT_INDEXED_SQL: &'static str = "SELECT COUNT(*) FROM changes WHERE embedding IS NOT NULL";

/// The meta key under which the embedding model is recorded.
pub const META_MODEL_KEY: &'static str = "embed_model";

/// The meta key under which the embedding dimension is recorded.
pub const META_DIMS_KEY: &'static str = "embed_dims";

/// An indexed change with its embedding, as loaded for similarity search.
#[derive(Debug)]
pub struct IndexedChange {
    pub hash: String,
    pub message: String,
    pub description: Option<String>,
    pub timestamp: i64,
    /// The authors, as a JSON array.
    pub authors: String,
    /// The files, as a JSON array.
    pub files: String,
    pub ai_vendor: Option<String>,
    pub ai_model: Option<String>,
    /// The embedding, each component by its IEEE-754 bit pattern.
    pub embedding: Vec<u32>,
}

/// What `check_model_compat` did to the index.
#[derive(Debug)]
pub enum CompatOutcome {
    /// The index was built with the same model and dimension, or nothing
    /// about them was recorded: the embeddings stay.
    Unchanged,
    /// The index was built with another model or dimension and `force` was
    /// given: every embedding was cleared so that all get re-indexed.
    Cleared { previous_model: String, previous_dims: usize },
}

/// The notice given when a forced model check cleared the embeddings.
pub open spec fn cleared_text(previous_model: Seq<char>, model: Seq<char>) -> Seq<char> {
    "Model changed ("@ + previous_model + " \u{2192} "@ + model
        + "). Cleared existing embeddings; re-indexing everything."@
}

/// Writes the notice of a forced model check that cleared the embeddings.
pub fn cleared_notice(previous_model: &str, model: &str) -> (s: String)
    ensures
        s@ == cleared_text(previous_model@, model@),
{
    let mut s = String::new();
    s.append("Model changed (");
    s.append(previous_model);
    s.append(" \u{2192} ");
    s.append(model);
    s.append("). Cleared existing embeddings; re-indexing everything.");
    proof {
        assert(s@ =~= cleared_text(previous_model@, model@));
    }
    s
}

/// The index database of a repository.
pub struct RecallDb {
    conn: rusqlite::Connection,
    /// What this handle has asked the database, and what came back.
    requests: Ghost<Seq<DbEvent>>,
}

/// One exchange of the library with the database: what it sent and what
/// came back. What comes back depends on the database file, so the library
/// states only how it reads each answer.
pub enum DbEvent {
    /// The database file at `path` was opened.
    Opened { path: Seq<char> },
    /// The statements of `sql` were run in turn; `succeeded` tells how it went.
    Batch { sql: Seq<char>, succeeded: bool },
    /// A query for the first column of its first row, with text parameters.
    Query { sql: Seq<char>, params: Seq<Seq<char>>, answer: QueryAnswer },
    /// A statement was run; `result` is the number of rows it changed, or the error.
    Execute { statement: SqlStatement, result: Result<usize, rusqlite::Error> },
    /// A query for the rows of indexed changes; `rows` is what came back, or
    /// nothing when it failed.
    LoadRows { sql: Seq<char>, rows: Option<Seq<IndexedRow>> },
}

/// What came back for a query of the first column of its first row, read
/// as the type that the query asks for.
pub enum QueryAnswer {
    /// A count.
    Count(Result<i64, rusqlite::Error>),
    /// A text, or no row.
    Text(QueryOutcome),
    /// The bytes of a blob.
    Blob(Result<Vec<u8>, rusqlite::Error>),
}

/// `e` asks `sql` with the text parameters `params`.
pub open spec fn is_query(e: DbEvent, sql: Seq<char>, params: Seq<Seq<char>>) -> bool {
    e matches DbEvent::Query { sql: s, params: p, .. } && s == sql && p == params
}

/// `e` asks `sql` with `params` for a count.
pub open spec fn is_count_query(e: DbEvent, sql: Seq<char>, params: Seq<Seq<char>>) -> bool {
    is_query(e, sql, params) && answer(e) is Count
}

/// `e` asks `sql` with `params` for a text.
pub open spec fn is_text_query(e: DbEvent, sql: Seq<char>, params: Seq<Seq<char>>) -> bool {
    is_query(e, sql, params) && answer(e) is Text
}

/// `e` asks `sql` with `params` for a blob.
pub open spec fn is_blob_query(e: DbEvent, sql: Seq<char>, params: Seq<Seq<char>>) -> bool {
    is_query(e, sql, params) && answer(e) is Blob
}

/// What came back for the query `e`.
pub open spec fn answer(e: DbEvent) -> QueryAnswer {
    e->Query_answer
}

/// The count that came back for the query `e`.
pub open spec fn count_answer(e: DbEvent) -> Result<i64, rusqlite::Error> {
    answer(e)->Count_0
}

/// The text (or no row) that came back for the query `e`.
pub open spec fn text_answer(e: DbEvent) -> QueryOutcome {
    answer(e)->Text_0
}

/// The blob that came back for the query `e`.
pub open spec fn blob_answer(e: DbEvent) -> Result<Vec<u8>, rusqlite::Error> {
    answer(e)->Blob_0
}

// ---------------------------------------------------------------------------
// Reading what the database returned
// ---------------------------------------------------------------------------

/// A count read from a `SELECT COUNT(*)` query; a failure is a database error.
pub open spec fn count_reading(answer: Result<i64, rusqlite::Error>) -> Result<i64, RecallError> {
    match answer {
        Ok(n) => Ok(n),
        Err(e) => Err(RecallError::Database(e)),
    }
}

/// Reads the count that a `SELECT COUNT(*)` query returned.
pub fn read_count(answer: Result<i64, rusqlite::Error>) -> (r: Result<i64, RecallError>)
    ensures
        r == count_reading(answer),
{
    match answer {
        Ok(n) => Ok(n),
        Err(e) => Err(RecallError::Database(e)),
    }
}

/// The total number of change records and the number of indexed ones, from
/// the two counts that came back, in that order.
pub open spec fn counts_reading(
    total: Result<i64, rusqlite::Error>,
    indexed: Result<i64, rusqlite::Error>,
) -> Result<(i64, i64), RecallError> {
    match count_reading(total) {
        Err(e) => Err(e),
        Ok(t) => match count_reading(indexed) {
            Err(e) => Err(e),
            Ok(i) => Ok((t, i)),
        },
    }
}

/// Reads the pair (total, indexed) from the two counts that came back.
pub fn read_counts(total: Result<i64, rusqlite::Error>, indexed: Result<i64, rusqlite::Error>) -> (r:
    Result<(i64, i64), RecallError>)
    ensures
        r == counts_reading(total, indexed),
{
    match read_count(total) {
        Err(e) => Err(e),
        Ok(t) => match read_count(indexed) {
            Err(e) => Err(e),
            Ok(i) => Ok((t, i)),
        },
    }
}

/// Whether a change is indexed, from the count of its rows that have an
/// embedding: it is when the count is positive.
pub open spec fn indexed_reading(answer: Result<i64, rusqlite::Error>) -> Result<bool, RecallError> {
    match count_reading(answer) {
        Ok(n) => Ok(n > 0),
        Err(e) => Err(e),
    }
}

/// Reads whether a change is indexed from the count that came back.
pub fn read_indexed(answer: Result<i64, rusqlite::Error>) -> (r: Result<bool, RecallError>)
    ensures
        r == indexed_reading(answer),
{
    match read_count(answer) {
        Ok(n) => Ok(n > 0),
        Err(e) => Err(e),
    }
}

/// The value of a meta key: absent when no row has the key.
pub open spec fn meta_reading(outcome: QueryOutcome) -> Result<Option<String>, RecallError> {
    match outcome {
        QueryOutcome::Row(v) => Ok(Some(v)),
        QueryOutcome::NoRows => Ok(None),
        QueryOutcome::Failed(e) => Err(RecallError::Database(e)),
    }
}

/// Reads the value of a meta key from what the lookup returned.
pub fn read_meta(outcome: QueryOutcome) -> (r: Result<Option<String>, RecallError>)
    ensures
        r == meta_reading(outcome),
{
    match outcome {
        QueryOutcome::Row(v) => Ok(Some(v)),
        QueryOutcome::NoRows => Ok(None),
        QueryOutcome::Failed(e) => Err(RecallError::Database(e)),
    }
}

/// The text of the first row, when there was one; any failure counts as
/// nothing found.
pub open spec fn optional_text_reading(outcome: QueryOutcome) -> Option<String> {
    match outcome {
        QueryOutcome::Row(v) => Some(v),
        _ => None,
    }
}

/// Reads an optional text column; a missing row or a failure gives `None`.
pub fn read_optional_text(outcome: QueryOutcome) -> (r: Option<String>)
    ensures
        r == optional_text_reading(outcome),
{
    match outcome {
        QueryOutcome::Row(v) => Some(v),
        _ => None,
    }
}

/// The dimension of a stored embedding: its byte length divided by four;
/// nothing when no blob came back.
pub open spec fn blob_dims_reading(answer: Result<Vec<u8>, rusqlite::Error>) -> Option<usize> {
    match answer {
        Ok(b) => Some((b.len() / 4) as usize),
        Err(_) => None,
    }
}

/// Infers the dimension from the blob of a stored embedding.
pub fn read_blob_dims(answer: Result<Vec<u8>, rusqlite::Error>) -> (r: Option<usize>)
    ensures
        r == blob_dims_reading(answer),
{
    match answer {
        Ok(b) => Some(b.len() / 4),
        Err(_) => None,
    }
}

/// The dimension recorded in the meta table, read as `parse::<usize>`.
pub open spec fn recorded_dims(meta: Option<String>) -> Option<usize> {
    match meta {
        Some(text) => match parsed_usize(text@) {
            Some(v) => Some(v as usize),
            None => None,
        },
        None => None,
    }
}

/// Parses the recorded dimension; text that is no `usize` counts as absent.
pub fn read_recorded_dims(meta: &Option<String>) -> (r: Option<usize>)
    ensures
        r == recorded_dims(*meta),
{
    match meta {
        Some(text) => parse_usize(text.as_str()),
        None => None,
    }
}

/// The indexed change that a row of the load query describes.
pub open spec fn indexed_change_matches(row: IndexedRow, c: IndexedChange) -> bool {
    &&& c.hash == row.0
    &&& c.message == row.1
    &&& c.description == row.2
    &&& c.timestamp == row.3
    &&& c.authors == row.4
    &&& c.files == row.5
    &&& c.ai_vendor == row.6
    &&& c.ai_model == row.7
    &&& c.embedding@ == embedding_of_blob(row.8@)
}

/// Turns loaded rows into indexed changes, in the same order, decoding each
/// embedding from its stored bytes.
pub fn indexed_changes_from_rows(rows: Vec<IndexedRow>) -> (changes: Vec<IndexedChange>)
    ensures
        changes@.len() == rows@.len(),
        forall|i: int|
            0 <= i < rows@.len() ==> indexed_change_matches(rows@[i], #[trigger] changes@[i]),
{
    let ghost orig = rows@;
    let n = rows.len();
    let mut rest = rows;
    let mut changes: Vec<IndexedChange> = Vec::new();
    let mut i: usize = 0;
    while i < n
        invariant
            n == orig.len(),
            i <= n,
            rest@ == orig.subrange(i as int, n as int),
            changes@.len() == i,
            forall|k: int| 0 <= k < i ==> indexed_change_matches(orig[k], #[trigger] changes@[k]),
        decreases n - i,
    {
        let row = rest.remove(0);
        assert(row == orig[i as int]);
        let embedding = embedding_from_blob(&row.8);
        changes.push(
            IndexedChange {
                hash: row.0,
                message: row.1,
                description: row.2,
                timestamp: row.3,
                authors: row.4,
                files: row.5,
                ai_vendor: row.6,
                ai_model: row.7,
                embedding,
            },
        );
        assert(rest@ =~= orig.subrange(i + 1, n as int));
        i = i + 1;
    }
    changes
}

// ---------------------------------------------------------------------------
// Statement parameters
// ---------------------------------------------------------------------------

/// An optional text column: `NULL` when absent.
pub open spec fn optional_text_param(v: Option<String>) -> SqlValue {
    match v {
        Some(s) => SqlValue::Text(s),
        None => SqlValue::Null,
    }
}

/// An optional integer column: `NULL` when absent.
pub open spec fn optional_integer_param(v: Option<i64>) -> SqlValue {
    match v {
        Some(n) => SqlValue::Integer(n),
        None => SqlValue::Null,
    }
}

/// An optional value carried as it is: `NULL` when absent.
pub open spec fn optional_value_param(v: Option<rusqlite::types::Value>) -> SqlValue {
    match v {
        Some(x) => SqlValue::Other(x),
        None => SqlValue::Null,
    }
}

fn text_param_of(v: &Option<String>) -> (p: SqlValue)
    ensures
        p == optional_text_param(*v),
{
    match v {
        Some(s) => SqlValue::Text(s.clone()),
        None => SqlValue::Null,
    }
}

fn integer_param_of(v: Option<i64>) -> (p: SqlValue)
    ensures
        p == optional_integer_param(v),
{
    match v {
        Some(n) => SqlValue::Integer(n),
        None => SqlValue::Null,
    }
}

fn value_param_of(v: &Option<rusqlite::types::Value>) -> (p: SqlValue)
    ensures
        p == optional_value_param(*v),
{
    match v {
        Some(x) => SqlValue::Other(x.clone()),
        None => SqlValue::Null,
    }
}

/// The sixteen parameters of the upsert statement for a record whose author
/// and file lists serialize to `authors_json` and `files_json`.
pub open spec fn upsert_params_spec(
    record: ChangeRecord,
    authors_json: String,
    files_json: String,
) -> Seq<SqlValue> {
    seq![
        SqlValue::Text(record.hash),
        SqlValue::Text(record.message),
        optional_text_param(record.description),
        SqlValue::Integer(record.timestamp),
        SqlValue::Text(authors_json),
        SqlValue::Text(files_json),
        optional_text_param(record.ai_vendor),
        optional_text_param(record.ai_model),
        optional_text_param(record.ai_tool),
        optional_text_param(record.prompt_text),
        optional_text_param(record.reasoning),
        optional_text_param(record.task_plan),
        optional_integer_param(record.tokens_in),
        optional_integer_param(record.tokens_out),
        optional_value_param(record.cost_usd),
        optional_text_param(record.session_id),
    ]
}

/// Builds the parameters of the upsert statement.
pub fn upsert_params(record: &ChangeRecord, authors_json: String, files_json: String) -> (params:
    Vec<SqlValue>)
    ensures
        params@ == upsert_params_spec(*record, authors_json, files_json),
{
    let mut params: Vec<SqlValue> = Vec::new();
    params.push(SqlValue::Text(record.hash.clone()));
    params.push(SqlValue::Text(record.message.clone()));
    params.push(text_param_of(&record.description));
    params.push(SqlValue::Integer(record.timestamp));
    params.push(SqlValue::Text(authors_json));
    params.push(SqlValue::Text(files_json));
    params.push(text_param_of(&record.ai_vendor));
    params.push(text_param_of(&record.ai_model));
    params.push(text_param_of(&record.ai_tool));
    params.push(text_param_of(&record.prompt_text));
    params.push(text_param_of(&record.reasoning));
    params.push(text_param_of(&record.task_plan));
    params.push(integer_param_of(record.tokens_in));
    params.push(integer_param_of(record.tokens_out));
    params.push(value_param_of(&record.cost_usd));
    params.push(text_param_of(&record.session_id));
    assert(params@ =~= upsert_params_spec(*record, authors_json, files_json));
    params
}

// ---------------------------------------------------------------------------
// Columns
// ---------------------------------------------------------------------------

/// A column of the changes table.
#[derive(PartialEq, Eq, Structural)]
pub enum ChangesColumn {
    Hash,
    Message,
    Description,
    Timestamp,
    Authors,
    Files,
    AiVendor,
    AiModel,
    AiTool,
    PromptText,
    Reasoning,
    TaskPlan,
    TokensIn,
    TokensOut,
    CostUsd,
    SessionId,
    Embedding,
}

/// The columns of the changes table that the upsert statement fills, in the
/// order in which its column list names them (`?1` fills the first).
pub open spec fn upsert_columns() -> Seq<ChangesColumn> {
    seq![
        ChangesColumn::Hash,
        ChangesColumn::Message,
        ChangesColumn::Description,
        ChangesColumn::Timestamp,
        ChangesColumn::Authors,
        ChangesColumn::Files,
        ChangesColumn::AiVendor,
        ChangesColumn::AiModel,
        ChangesColumn::AiTool,
        ChangesColumn::PromptText,
        ChangesColumn::Reasoning,
        ChangesColumn::TaskPlan,
        ChangesColumn::TokensIn,
        ChangesColumn::TokensOut,
        ChangesColumn::CostUsd,
        ChangesColumn::SessionId,
    ]
}

/// The columns that the load query selects, in order.
pub open spec fn load_columns() -> Seq<ChangesColumn> {
    seq![
        ChangesColumn::Hash,
        ChangesColumn::Message,
        ChangesColumn::Description,
        ChangesColumn::Timestamp,
        ChangesColumn::Authors,
        ChangesColumn::Files,
        ChangesColumn::AiVendor,
        ChangesColumn::AiModel,
        ChangesColumn::Embedding,
    ]
}

/// The value that a change record holds for the column `name` of the
/// changes table, with its authors and files written as the JSON texts
/// `authors_json` and `files_json`; `NULL` for a column it does not fill.
pub open spec fn record_column(
    record: ChangeRecord,
    authors_json: String,
    files_json: String,
    name: ChangesColumn,
) -> SqlValue {
    match name {
        ChangesColumn::Hash => SqlValue::Text(record.hash),
        ChangesColumn::Message => SqlValue::Text(record.message),
        ChangesColumn::Description => optional_text_param(record.description),
        ChangesColumn::Timestamp => SqlValue::Integer(record.timestamp),
        ChangesColumn::Authors => SqlValue::Text(authors_json),
        ChangesColumn::Files => SqlValue::Text(files_json),
        ChangesColumn::AiVendor => optional_text_param(record.ai_vendor),
        ChangesColumn::AiModel => optional_text_param(record.ai_model),
        ChangesColumn::AiTool => optional_text_param(record.ai_tool),
        ChangesColumn::PromptText => optional_text_param(record.prompt_text),
        ChangesColumn::Reasoning => optional_text_param(record.reasoning),
        ChangesColumn::TaskPlan => optional_text_param(record.task_plan),
        ChangesColumn::TokensIn => optional_integer_param(record.tokens_in),
        ChangesColumn::TokensOut => optional_integer_param(record.tokens_out),
        ChangesColumn::CostUsd => optional_value_param(record.cost_usd),
        ChangesColumn::SessionId => optional_text_param(record.session_id),
        _ => SqlValue::Null,
    }
}

/// The value that an indexed change holds for the column `name`
/// (all but the embedding); `NULL` for a column it does not carry.
pub open spec fn indexed_column(change: IndexedChange, name: ChangesColumn) -> SqlValue {
    match name {
        ChangesColumn::Hash => SqlValue::Text(change.hash),
        ChangesColumn::Message => SqlValue::Text(change.message),
        ChangesColumn::Description => optional_text_param(change.description),
        ChangesColumn::Timestamp => SqlValue::Integer(change.timestamp),
        ChangesColumn::Authors => SqlValue::Text(change.authors),
        ChangesColumn::Files => SqlValue::Text(change.files),
        ChangesColumn::AiVendor => optional_text_param(change.ai_vendor),
        ChangesColumn::AiModel => optional_text_param(change.ai_model),
        _ => SqlValue::Null,
    }
}

/// The `k`-th column of a loaded row, as an SQL value (for the columns
/// before the embedding).
pub open spec fn row_column(row: IndexedRow, k: int) -> SqlValue {
    if k == 0 {
        SqlValue::Text(row.0)
    } else if k == 1 {
        SqlValue::Text(row.1)
    } else if k == 2 {
        optional_text_param(row.2)
    } else if k == 3 {
        SqlValue::Integer(row.3)
    } else if k == 4 {
        SqlValue::Text(row.4)
    } else if k == 5 {
        SqlValue::Text(row.5)
    } else if k == 6 {
        optional_text_param(row.6)
    } else if k == 7 {
        optional_text_param(row.7)
    } else {
        SqlValue::Null
    }
}

/// Each parameter of the upsert statement holds the record's value for the
/// column in the same place of the statement's column list: `?8` the AI
/// model, `?9` the AI tool, and so on for all sixteen.
pub proof fn lemma_upsert_params_fill_named_columns(
    record: ChangeRecord,
    authors_json: String,
    files_json: String,
)
    ensures
        upsert_params_spec(record, authors_json, files_json).len() == upsert_columns().len(),
        forall|k: int|
            0 <= k < upsert_columns().len() ==> #[trigger] upsert_params_spec(
                record,
                authors_json,
                files_json,
            )[k] == record_column(record, authors_json, files_json, upsert_columns()[k]),
{
    let params = upsert_params_spec(record, authors_json, files_json);
    assert forall|k: int| 0 <= k < upsert_columns().len() implies #[trigger] params[k] == record_column(
        record,
        authors_json,
        files_json,
        upsert_columns()[k],
    ) by {
        if k == 0 {
            assert(upsert_columns()[0] == ChangesColumn::Hash);
        } else if k == 1 {
            assert(upsert_columns()[1] == ChangesColumn::Message);
        } else if k == 2 {
            assert(upsert_columns()[2] == ChangesColumn::Description);
        } else if k == 3 {
            assert(upsert_columns()[3] == ChangesColumn::Timestamp);
        } else if k == 4 {
            assert(upsert_columns()[4] == ChangesColumn::Authors);
        } else if k == 5 {
            assert(upsert_columns()[5] == ChangesColumn::Files);
        } else if k == 6 {
            assert(upsert_columns()[6] == ChangesColumn::AiVendor);
        } else if k == 7 {
            assert(upsert_columns()[7] == ChangesColumn::AiModel);
        } else if k == 8 {
            assert(upsert_columns()[8] == ChangesColumn::AiTool);
        } else if k == 9 {
            assert(upsert_columns()[9] == ChangesColumn::PromptText);
        } else if k == 10 {
            assert(upsert_columns()[10] == ChangesColumn::Reasoning);
        } else if k == 11 {
            assert(upsert_columns()[11] == ChangesColumn::TaskPlan);
        } else if k == 12 {
            assert(upsert_columns()[12] == ChangesColumn::TokensIn);
        } else if k == 13 {
            assert(upsert_columns()[13] == ChangesColumn::TokensOut);
        } else if k == 14 {
            assert(upsert_columns()[14] == ChangesColumn::CostUsd);
        } else if k == 15 {
            assert(upsert_columns()[15] == ChangesColumn::SessionId);
        }
    }
}

/// Each field of a loaded change is the column of the same name in the load
/// query's select list: the AI vendor is its seventh column and the AI
/// model its eighth.
pub proof fn lemma_loaded_fields_by_column(row: IndexedRow, change: IndexedChange)
    requires
        indexed_change_matches(row, change),
    ensures
        forall|k: int|
            0 <= k < load_columns().len() - 1 ==> indexed_column(change, #[trigger] load_columns()[k])
                == row_column(row, k),
{
    assert forall|k: int| 0 <= k < load_columns().len() - 1 implies indexed_column(
        change,
        #[trigger] load_columns()[k],
    ) == row_column(row, k) by {
        if k == 0 {
            assert(load_columns()[0] == ChangesColumn::Hash);
        } else if k == 1 {
            assert(load_columns()[1] == ChangesColumn::Message);
        } else if k == 2 {
            assert(load_columns()[2] == ChangesColumn::Description);
        } else if k == 3 {
            assert(load_columns()[3] == ChangesColumn::Timestamp);
        } else if k == 4 {
            assert(load_columns()[4] == ChangesColumn::Authors);
        } else if k == 5 {
            assert(load_columns()[5] == ChangesColumn::Files);
        } else if k == 6 {
            assert(load_columns()[6] == ChangesColumn::AiVendor);
        } else if k == 7 {
            assert(load_columns()[7] == ChangesColumn::AiModel);
        }
    }
}

/// A record that was upserted loads back with the same fields: when each
/// column of a loaded row holds what the upsert bound to the parameter of
/// the column with that name, the loaded change has the record's hash,
/// message, description, timestamp, AI vendor and AI model, and the JSON
/// texts of its authors and files.
pub proof fn lemma_upserted_record_loads_back(
    record: ChangeRecord,
    authors_json: String,
    files_json: String,
    row: IndexedRow,
    change: IndexedChange,
)
    requires
        forall|k: int, i: int|
            #![trigger row_column(row, k), upsert_columns()[i]]
            0 <= k < load_columns().len() - 1 && 0 <= i < upsert_columns().len()
                && upsert_columns()[i] == load_columns()[k] ==> row_column(row, k)
                == upsert_params_spec(record, authors_json, files_json)[i],
        indexed_change_matches(row, change),
    ensures
        change.hash == record.hash,
        change.message == record.message,
        change.description == record.description,
        change.timestamp == record.timestamp,
        change.authors == authors_json,
        change.files == files_json,
        change.ai_vendor == record.ai_vendor,
        change.ai_model == record.ai_model,
{
    let params = upsert_params_spec(record, authors_json, files_json);
    let cols = upsert_columns();
    assert(cols[0] == load_columns()[0] && cols[1] == load_columns()[1]);
    assert(cols[2] == load_columns()[2] && cols[3] == load_columns()[3]);
    assert(cols[4] == load_columns()[4] && cols[5] == load_columns()[5]);
    assert(cols[6] == load_columns()[6] && cols[7] == load_columns()[7]);
    assert(row_column(row, 0) == params[0]);
    assert(row_column(row, 1) == params[1]);
    assert(row_column(row, 2) == params[2]);
    assert(row_column(row, 3) == params[3]);
    assert(row_column(row, 4) == params[4]);
    assert(row_column(row, 5) == params[5]);
    assert(row_column(row, 6) == params[6]);
    assert(row_column(row, 7) == params[7]);
}

/// `params` are the parameters of the statement that stores an embedding:
/// the stored bytes, the model, the indexing time and the hash.
pub open spec fn are_store_params(
    params: Seq<SqlValue>,
    hash: Seq<char>,
    bits: Seq<u32>,
    model: Seq<char>,
    indexed_at: i64,
) -> bool {
    &&& params.len() == 4
    &&& params[0] matches SqlValue::Blob(b) && b@ == embedding_blob(bits)
    &&& params[1] matches SqlValue::Text(m) && m@ == model
    &&& params[2] == SqlValue::Integer(indexed_at)
    &&& params[3] matches SqlValue::Text(h) && h@ == hash
}

/// Builds the parameters of the statement that stores an embedding.
pub fn store_params(hash: &str, embedding: &Vec<u32>, model: &str, indexed_at: i64) -> (params:
    Vec<SqlValue>)
    ensures
        are_store_params(params@, hash@, embedding@, model@, indexed_at),
{
    let blob = embedding_to_blob(embedding);
    let mut params: Vec<SqlValue> = Vec::new();
    params.push(SqlValue::Blob(blob));
    params.push(SqlValue::Text(model.to_owned()));
    params.push(SqlValue::Integer(indexed_at));
    params.push(SqlValue::Text(hash.to_owned()));
    params
}

// ---------------------------------------------------------------------------
// Statements
// ---------------------------------------------------------------------------

/// An SQL statement with the values bound to its parameters, in order.
#[derive(Debug)]
pub struct SqlStatement {
    pub sql: &'static str,
    pub params: Vec<SqlValue>,
}

/// The parameters of a lookup by one text value (a hash or a meta key).
pub fn lookup_params(value: &str) -> (params: Vec<String>)
    ensures
        params@.len() == 1,
        params@[0]@ == value@,
{
    let mut params: Vec<String> = Vec::new();
    params.push(value.to_owned());
    params
}

/// The parameters of a query that takes none.
fn no_params() -> (params: Vec<String>)
    ensures
        params.deep_view() == Seq::<Seq<char>>::empty(),
{
    let params: Vec<String> = Vec::new();
    assert(params.deep_view() =~= Seq::<Seq<char>>::empty());
    params
}

/// `s` records `value` for `key` in the meta table, replacing any earlier value.
pub open spec fn is_meta_write(s: SqlStatement, key: Seq<char>, value: Seq<char>) -> bool {
    &&& s.sql@ == SET_META_SQL@
    &&& s.params@.len() == 2
    &&& s.params@[0] matches SqlValue::Text(k) && k@ == key
    &&& s.params@[1] matches SqlValue::Text(v) && v@ == value
}

/// The statement that records `value` for `key` in the meta table.
pub fn meta_write(key: &str, value: &str) -> (s: SqlStatement)
    ensures
        is_meta_write(s, key@, value@),
{
    let mut params: Vec<SqlValue> = Vec::new();
    params.push(SqlValue::Text(key.to_owned()));
    params.push(SqlValue::Text(value.to_owned()));
    SqlStatement { sql: SET_META_SQL, params }
}

/// `s` clears the embedding, its model and its indexing time in every row.
pub open spec fn is_clear_embeddings(s: SqlStatement) -> bool {
    s.sql@ == CLEAR_EMBEDDINGS_SQL@ && s.params@.len() == 0
}

/// The statement that clears every stored embedding.
pub fn clear_embeddings_statement() -> (s: SqlStatement)
    ensures
        is_clear_embeddings(s),
{
    SqlStatement { sql: CLEAR_EMBEDDINGS_SQL, params: Vec::new() }
}

/// `s` stores the embedding of the change `hash` with its model and time.
pub open spec fn is_embedding_store(
    s: SqlStatement,
    hash: Seq<char>,
    bits: Seq<u32>,
    model: Seq<char>,
    indexed_at: i64,
) -> bool {
    s.sql@ == STORE_EMBEDDING_SQL@ && are_store_params(s.params@, hash, bits, model, indexed_at)
}

/// The statement that stores an embedding.
pub fn embedding_store(hash: &str, embedding: &Vec<u32>, model: &str, indexed_at: i64) -> (s:
    SqlStatement)
    ensures
        is_embedding_store(s, hash@, embedding@, model@, indexed_at),
{
    SqlStatement { sql: STORE_EMBEDDING_SQL, params: store_params(hash, embedding, model, indexed_at) }
}

/// `s` inserts the record, or updates the stored row of its hash (keeping
/// that row's timestamp and embedding), with authors and files as JSON.
pub open spec fn is_record_upsert(s: SqlStatement, record: ChangeRecord) -> bool {
    exists|authors_json: String, files_json: String|
        {
            &&& authors_json@ == json_string_array(record.authors.deep_view())
            &&& files_json@ == json_string_array(record.files.deep_view())
            &&& s.sql@ == UPSERT_SQL@
            &&& s.params@ == upsert_params_spec(record, authors_json, files_json)
        }
}

/// The statement that inserts or updates a change record.
pub fn record_upsert(record: &ChangeRecord) -> (s: SqlStatement)
    ensures
        is_record_upsert(s, *record),
{
    let authors = json_of_strings(&record.authors).unwrap();
    let files = json_of_strings(&record.files).unwrap();
    let ghost (a, f) = (authors, files);
    let s = SqlStatement { sql: UPSERT_SQL, params: upsert_params(record, authors, files) };
    assert(is_record_upsert(s, *record)) by {
        assert(a@ == json_string_array(record.authors.deep_view()));
        assert(f@ == json_string_array(record.files.deep_view()));
    }
    s
}

// ---------------------------------------------------------------------------
// The model check
// ---------------------------------------------------------------------------

/// The index was built with another model or dimension than the current one.
pub open spec fn model_mismatch(
    stored_model: Option<String>,
    stored_dims: Option<usize>,
    model: Seq<char>,
    dims: usize,
) -> bool {
    match (stored_model, stored_dims) {
        (Some(m), Some(d)) => m@ != model || d != dims,
        _ => false,
    }
}

/// The decision of the model check, given what the index recorded: on a
/// mismatch, refuse unless `force` is given, in which case the embeddings
/// are to be cleared; otherwise keep them. A refusal and a clearing carry the
/// recorded model and dimension.
pub open spec fn compat_decision_spec(
    stored_model: Option<String>,
    stored_dims: Option<usize>,
    model: Seq<char>,
    dims: usize,
    force: bool,
) -> Result<Option<(String, usize)>, (String, usize)> {
    if model_mismatch(stored_model, stored_dims, model, dims) {
        if force {
            Ok(Some((stored_model->0, stored_dims->0)))
        } else {
            Err((stored_model->0, stored_dims->0))
        }
    } else {
        Ok(None)
    }
}

/// Decides the model check: `Ok(Some(recorded))` to clear the embeddings,
/// `Ok(None)` to keep them, `Err(recorded)` to refuse.
pub fn compat_decision(
    stored_model: Option<String>,
    stored_dims: Option<usize>,
    model: &str,
    dims: usize,
    force: bool,
) -> (r: Result<Option<(String, usize)>, (String, usize)>)
    ensures
        r == compat_decision_spec(stored_model, stored_dims, model@, dims, force),
{
    match (stored_model, stored_dims) {
        (Some(m), Some(d)) => {
            let current = model.to_owned();
            if m != current || d != dims {
                if force {
                    Ok(Some((m, d)))
                } else {
                    Err((m, d))
                }
            } else {
                Ok(None)
            }
        },
        _ => Ok(None),
    }
}


/// The model and dimension the index recorded: the meta values, else those
/// found in a stored row. `row_model` is the model of a stored row, looked up
/// only when the meta table records no model; `blob_dims` is the dimension
/// of a stored embedding, looked up only when the meta table records no
/// readable dimension.
pub open spec fn recorded_settings_spec(
    meta_model: Option<String>,
    row_model: Option<String>,
    meta_dims: Option<String>,
    blob_dims: Option<usize>,
) -> (Option<String>, Option<usize>) {
    (
        match meta_model {
            Some(m) => Some(m),
            None => row_model,
        },
        match recorded_dims(meta_dims) {
            Some(d) => Some(d),
            None => blob_dims,
        },
    )
}

/// Combines the readings of the model check into the recorded model and
/// dimension.
pub fn recorded_settings(
    meta_model: Option<String>,
    row_model: Option<String>,
    meta_dims: &Option<String>,
    blob_dims: Option<usize>,
) -> (r: (Option<String>, Option<usize>))
    ensures
        r == recorded_settings_spec(meta_model, row_model, *meta_dims, blob_dims),
{
    let model = match meta_model {
        Some(m) => Some(m),
        None => row_model,
    };
    let dims = match read_recorded_dims(meta_dims) {
        Some(d) => Some(d),
        None => blob_dims,
    };
    (model, dims)
}

/// `stmts` record the current model and the decimal dimension, in that order.
pub open spec fn records_settings(stmts: Seq<SqlStatement>, model: Seq<char>, dims: usize) -> bool {
    &&& stmts.len() == 2
    &&& is_meta_write(stmts[0], META_MODEL_KEY@, model)
    &&& is_meta_write(stmts[1], META_DIMS_KEY@, decimal(dims as nat))
}

/// What the model check does, given the recorded model and dimension:
/// refuse a mismatch without `force`; on a forced mismatch, clear every
/// embedding and then record the current settings; otherwise only record
/// them. The refusal names the recorded and the current settings.
pub open spec fn is_compat_plan(
    stored_model: Option<String>,
    stored_dims: Option<usize>,
    model: Seq<char>,
    dims: usize,
    force: bool,
    plan: Result<(CompatOutcome, Vec<SqlStatement>), RecallError>,
) -> bool {
    if model_mismatch(stored_model, stored_dims, model, dims) {
        if force {
            &&& plan matches Ok((CompatOutcome::Cleared { previous_model, previous_dims }, stmts))
            &&& plan->Ok_0.0->previous_model == stored_model->0
            &&& plan->Ok_0.0->previous_dims == stored_dims->0
            &&& plan->Ok_0.1@.len() == 3
            &&& is_clear_embeddings(plan->Ok_0.1@[0])
            &&& records_settings(plan->Ok_0.1@.drop_first(), model, dims)
        } else {
            &&& plan matches Err(RecallError::ModelMismatch { stored_model: m, stored_dims: d, model: mm, dims: dd })
            &&& plan->Err_0->stored_model == stored_model->0
            &&& plan->Err_0->stored_dims == stored_dims->0
            &&& plan->Err_0->model@ == model
            &&& plan->Err_0->dims == dims
        }
    } else {
        &&& plan matches Ok((CompatOutcome::Unchanged, stmts))
        &&& records_settings(plan->Ok_0.1@, model, dims)
    }
}

/// Plans the model check: the refusal, or the outcome and the statements to
/// run, in order.
pub fn compat_plan(
    stored_model: Option<String>,
    stored_dims: Option<usize>,
    model: &str,
    dims: usize,
    force: bool,
) -> (plan: Result<(CompatOutcome, Vec<SqlStatement>), RecallError>)
    ensures
        is_compat_plan(stored_model, stored_dims, model@, dims, force, plan),
{
    match compat_decision(stored_model, stored_dims, model, dims, force) {
        Err((m, d)) => Err(
            RecallError::ModelMismatch {
                stored_model: m,
                stored_dims: d,
                model: model.to_owned(),
                dims,
            },
        ),
        Ok(cleared) => {
            let mut stmts: Vec<SqlStatement> = Vec::new();
            let outcome = match cleared {
                Some((m, d)) => {
                    stmts.push(clear_embeddings_statement());
                    CompatOutcome::Cleared { previous_model: m, previous_dims: d }
                },
                None => CompatOutcome::Unchanged,
            };
            stmts.push(meta_write(META_MODEL_KEY, model));
            let dims_text = decimal_string(dims);
            stmts.push(meta_write(META_DIMS_KEY, dims_text.as_str()));
            proof {
                if stmts@.len() == 3 {
                    assert(stmts@.drop_first()[0] == stmts@[1]);
                    assert(stmts@.drop_first()[1] == stmts@[2]);
                }
            }
            Ok((outcome, stmts))
        },
    }
}


/// `after` has one more exchange than `before`, at its end.
pub open spec fn one_more(before: Seq<DbEvent>, after: Seq<DbEvent>) -> bool {
    after.len() > 0 && after == before.push(after.last())
}

/// `e` ran `statement`.
pub open spec fn executed(e: DbEvent, statement: SqlStatement) -> bool {
    e matches DbEvent::Execute { statement: st, .. } && st == statement
}

/// What running the statement of `e` gives: success, or the database error.
pub open spec fn execute_result(e: DbEvent) -> Result<(), RecallError> {
    match e->Execute_result {
        Ok(_) => Ok(()),
        Err(x) => Err(RecallError::Database(x)),
    }
}

/// `evs` runs `stmts` in order and stops at the first that fails.
pub open spec fn runs_in_order(stmts: Seq<SqlStatement>, evs: Seq<DbEvent>) -> bool {
    &&& evs.len() <= stmts.len()
    &&& forall|i: int| 0 <= i < evs.len() ==> executed(#[trigger] evs[i], stmts[i])
    &&& forall|i: int| 0 <= i < evs.len() - 1 ==> (#[trigger] evs[i])->Execute_result is Ok
    &&& evs.len() < stmts.len() ==> evs.len() > 0 && evs.last()->Execute_result is Err
}

/// The result of statements run as `evs` records: the error of the last one
/// if it failed, else `value`.
pub open spec fn run_result<T>(evs: Seq<DbEvent>, value: T) -> Result<T, RecallError> {
    if evs.len() > 0 && evs.last()->Execute_result is Err {
        Err(RecallError::Database(evs.last()->Execute_result->Err_0))
    } else {
        Ok(value)
    }
}

/// What a planned model check does: a refusal runs nothing; otherwise the
/// planned statements run in order until one fails.
pub open spec fn plan_run(
    plan: Result<(CompatOutcome, Vec<SqlStatement>), RecallError>,
    evs: Seq<DbEvent>,
    r: Result<CompatOutcome, RecallError>,
) -> bool {
    match plan {
        Err(e) => evs.len() == 0 && r == Err::<CompatOutcome, RecallError>(e),
        Ok((outcome, stmts)) => runs_in_order(stmts@, evs) && r == run_result(evs, outcome),
    }
}

/// The exchanges `evs` of a model check and its result `r`: the meta model
/// is asked first; a failure ends the check with its error.
pub open spec fn compat_run(
    evs: Seq<DbEvent>,
    model: Seq<char>,
    dims: usize,
    force: bool,
    r: Result<CompatOutcome, RecallError>,
) -> bool {
    &&& evs.len() >= 1
    &&& is_text_query(evs[0], GET_META_SQL@, seq![META_MODEL_KEY@])
    &&& match meta_reading(text_answer(evs[0])) {
        Err(e) => evs.len() == 1 && r == Err::<CompatOutcome, RecallError>(e),
        Ok(meta_model) => compat_run_from_model(evs.drop_first(), meta_model, model, dims, force, r),
    }
}

/// The model check after the meta model was read: the model of a stored row
/// is asked only when the meta table records none; then the meta dimension.
pub open spec fn compat_run_from_model(
    evs: Seq<DbEvent>,
    meta_model: Option<String>,
    model: Seq<char>,
    dims: usize,
    force: bool,
    r: Result<CompatOutcome, RecallError>,
) -> bool {
    let looked_up = meta_model is None;
    let row_model = if looked_up {
        optional_text_reading(text_answer(evs[0]))
    } else {
        None
    };
    let rest = if looked_up {
        evs.drop_first()
    } else {
        evs
    };
    &&& looked_up ==> evs.len() >= 1 && is_text_query(evs[0], STORED_MODEL_SQL@, Seq::empty())
    &&& rest.len() >= 1
    &&& is_text_query(rest[0], GET_META_SQL@, seq![META_DIMS_KEY@])
    &&& match meta_reading(text_answer(rest[0])) {
        Err(e) => rest.len() == 1 && r == Err::<CompatOutcome, RecallError>(e),
        Ok(meta_dims) => compat_run_from_dims(
            rest.drop_first(),
            meta_model,
            row_model,
            meta_dims,
            model,
            dims,
            force,
            r,
        ),
    }
}

/// The model check after the meta dimension was read: the blob of a stored
/// embedding is asked only when the meta table records no readable
/// dimension; then the plan for the recorded settings is carried out.
pub open spec fn compat_run_from_dims(
    evs: Seq<DbEvent>,
    meta_model: Option<String>,
    row_model: Option<String>,
    meta_dims: Option<String>,
    model: Seq<char>,
    dims: usize,
    force: bool,
    r: Result<CompatOutcome, RecallError>,
) -> bool {
    let looked_up = recorded_dims(meta_dims) is None;
    let blob_dims = if looked_up {
        blob_dims_reading(blob_answer(evs[0]))
    } else {
        None
    };
    let rest = if looked_up {
        evs.drop_first()
    } else {
        evs
    };
    let settings = recorded_settings_spec(meta_model, row_model, meta_dims, blob_dims);
    &&& looked_up ==> evs.len() >= 1 && is_blob_query(evs[0], STORED_EMBEDDING_SQL@, Seq::empty())
    &&& planned_run(settings.0, settings.1, model, dims, force, rest, r)
}

/// `evs` carries out the plan of a model check for the recorded settings
/// `stored_model` and `stored_dims`, with result `r`.
pub open spec fn planned_run(
    stored_model: Option<String>,
    stored_dims: Option<usize>,
    model: Seq<char>,
    dims: usize,
    force: bool,
    evs: Seq<DbEvent>,
    r: Result<CompatOutcome, RecallError>,
) -> bool {
    exists|plan: Result<(CompatOutcome, Vec<SqlStatement>), RecallError>|
        #[trigger] is_compat_plan(stored_model, stored_dims, model, dims, force, plan) && plan_run(
            plan,
            evs,
            r,
        )
}

// ---------------------------------------------------------------------------
// Laws of the index
// ---------------------------------------------------------------------------

/// The dimension that a model check records (`dims.to_string()`) is the
/// dimension that a later check reads from the meta table.
pub proof fn lemma_recorded_dims_read_back(dims: usize, recorded: String)
    requires
        recorded@ == decimal(dims as nat),
    ensures
        recorded_dims(Some(recorded)) == Some(dims),
{
    lemma_decimal_parses_back(dims);
}

/// The dimension inferred from the blob of a stored embedding is the number
/// of its components.
pub proof fn lemma_blob_dims_of_stored(bits: Seq<u32>, blob: Vec<u8>)
    requires
        blob@ == embedding_blob(bits),
    ensures
        blob_dims_reading(Ok::<Vec<u8>, rusqlite::Error>(blob)) == Some(bits.len() as usize),
{
    lemma_embedding_round_trip(bits);
}

/// An embedding stored with `store_embedding` loads back as the same bit
/// patterns: a loaded row that holds the blob of the storing statement
/// gives an indexed change with that embedding.
pub proof fn lemma_stored_embedding_loads_back(
    statement: SqlStatement,
    hash: Seq<char>,
    bits: Seq<u32>,
    model: Seq<char>,
    indexed_at: i64,
    row: IndexedRow,
    loaded: IndexedChange,
)
    requires
        is_embedding_store(statement, hash, bits, model, indexed_at),
        statement.params@[0] matches SqlValue::Blob(b) && row.8@ == b@,
        indexed_change_matches(row, loaded),
    ensures
        loaded.embedding@ == bits,
{
    lemma_embedding_round_trip(bits);
}

/// A model check against the model and dimension that the index recorded
/// passes and keeps the embeddings, forced or not.
pub proof fn lemma_same_model_passes(model: String, dims: usize, force: bool)
    ensures
        compat_decision_spec(Some(model), Some(dims), model@, dims, force) == Ok::<
            Option<(String, usize)>,
            (String, usize),
        >(None),
{
}

/// Embeddings of different models are never mixed silently: when the index
/// records another model or dimension, a check without `force` refuses.
pub proof fn lemma_mismatch_refused_without_force(
    stored_model: Option<String>,
    stored_dims: Option<usize>,
    model: Seq<char>,
    dims: usize,
)
    requires
        model_mismatch(stored_model, stored_dims, model, dims),
    ensures
        compat_decision_spec(stored_model, stored_dims, model, dims, false) is Err,
{
}

/// A forced model check never refuses.
pub proof fn lemma_forced_check_never_refuses(
    stored_model: Option<String>,
    stored_dims: Option<usize>,
    model: Seq<char>,
    dims: usize,
)
    ensures
        compat_decision_spec(stored_model, stored_dims, model, dims, true) is Ok,
{
}

/// `e` ran a statement that records `value` for `key` in the meta table.
pub open spec fn writes_meta(e: DbEvent, key: Seq<char>, value: Seq<char>) -> bool {
    e matches DbEvent::Execute { statement, .. } && is_meta_write(statement, key, value)
}

/// `e` ran the statement that clears every stored embedding.
pub open spec fn clears_embeddings(e: DbEvent) -> bool {
    e matches DbEvent::Execute { statement, .. } && is_clear_embeddings(statement)
}

/// `evs` only asked the database and ran no statement.
pub open spec fn reads_only(evs: Seq<DbEvent>) -> bool {
    forall|i: int| 0 <= i < evs.len() ==> !(#[trigger] evs[i] is Execute)
}

/// What a planned model check ran, by its result.
proof fn lemma_planned_run_effects(
    stored_model: Option<String>,
    stored_dims: Option<usize>,
    model: Seq<char>,
    dims: usize,
    force: bool,
    evs: Seq<DbEvent>,
    r: Result<CompatOutcome, RecallError>,
)
    requires
        planned_run(stored_model, stored_dims, model, dims, force, evs, r),
    ensures
        forall|i: int| 0 <= i < evs.len() ==> #[trigger] evs[i] is Execute,
        r matches Err(RecallError::ModelMismatch { .. }) <==> !force && model_mismatch(
            stored_model,
            stored_dims,
            model,
            dims,
        ),
        r matches Err(RecallError::ModelMismatch { .. }) ==> evs.len() == 0,
        r matches Err(e) ==> e is ModelMismatch || e is Database,
        r is Ok ==> evs.len() >= 2 && writes_meta(evs[evs.len() - 2], META_MODEL_KEY@, model)
            && writes_meta(evs.last(), META_DIMS_KEY@, decimal(dims as nat)),
        r is Ok && model_mismatch(stored_model, stored_dims, model, dims) ==> evs.len() == 3
            && clears_embeddings(evs[0]) && (r matches Ok(CompatOutcome::Cleared {
            previous_model,
            previous_dims,
        }) && previous_model == stored_model->0 && previous_dims == stored_dims->0),
        !model_mismatch(stored_model, stored_dims, model, dims) ==> evs.len() <= 2 && (r is Ok
            ==> r == Ok::<CompatOutcome, RecallError>(CompatOutcome::Unchanged)) && forall|i: int|
            0 <= i < evs.len() ==> !clears_embeddings(#[trigger] evs[i]),
{
    let plan = choose|plan: Result<(CompatOutcome, Vec<SqlStatement>), RecallError>|
        #[trigger] is_compat_plan(stored_model, stored_dims, model, dims, force, plan) && plan_run(
            plan,
            evs,
            r,
        );
    match plan {
        Err(e) => {},
        Ok((outcome, stmts)) => {
            assert forall|i: int| 0 <= i < evs.len() implies #[trigger] evs[i] is Execute by {
                assert(executed(evs[i], stmts@[i]));
            }
            if r is Ok {
                assert(evs.len() == stmts@.len());
                let n = evs.len() as int;
                assert(executed(evs[n - 2], stmts@[n - 2]));
                assert(executed(evs[n - 1], stmts@[n - 1]));
                if model_mismatch(stored_model, stored_dims, model, dims) {
                    assert(executed(evs[0], stmts@[0]));
                    assert(stmts@.drop_first()[0] == stmts@[1]);
                    assert(stmts@.drop_first()[1] == stmts@[2]);
                }
            }
            if !model_mismatch(stored_model, stored_dims, model, dims) {
                assert forall|i: int| 0 <= i < evs.len() implies !clears_embeddings(
                    #[trigger] evs[i],
                ) by {
                    assert(executed(evs[i], stmts@[i]));
                }
            }
        },
    }
}

/// The readings of a model check and the plan it carried out: its first
/// `k` exchanges only ask the database, and either one of them failed, or
/// the rest carries out the plan for the recorded settings `(sm, sd)`.
proof fn lemma_compat_run_parts(
    evs: Seq<DbEvent>,
    model: Seq<char>,
    dims: usize,
    force: bool,
    r: Result<CompatOutcome, RecallError>,
) -> (parts: (int, Option<String>, Option<usize>))
    requires
        compat_run(evs, model, dims, force, r),
    ensures
        0 <= parts.0 <= evs.len(),
        reads_only(evs.take(parts.0)),
        (parts.0 == evs.len() && (r matches Err(e) && e is Database))
            || planned_run(parts.1, parts.2, model, dims, force, evs.skip(parts.0), r),
        meta_reading(text_answer(evs[0])) matches Ok(Some(m)) ==> parts.1 == Some(m),
        meta_reading(text_answer(evs[0])) matches Ok(Some(m)) && evs.len() >= 2 && (meta_reading(text_answer(evs[1]),
        ) matches Ok(Some(t)) && recorded_dims(Some(t)) is Some) ==> parts.0 == 2 && parts.2
            == recorded_dims(meta_reading(text_answer(evs[1]))->Ok_0),
{
    let meta_model = meta_reading(text_answer(evs[0]));
    if meta_model is Err {
        assert(reads_only(evs.take(1)));
        return (1, None, None);
    }
    let mm = meta_model->Ok_0;
    let evs1 = evs.drop_first();
    let looked_up = mm is None;
    let row_model = if looked_up { optional_text_reading(text_answer(evs1[0])) } else { None };
    let rest = if looked_up { evs1.drop_first() } else { evs1 };
    let k1: int = if looked_up { 2 } else { 1 };
    assert(rest =~= evs.skip(k1));
    assert(rest[0] == evs[k1]);
    let meta_dims = meta_reading(text_answer(rest[0]));
    if meta_dims is Err {
        assert(reads_only(evs.take(k1 + 1)));
        assert(rest.len() == 1);
        return (k1 + 1, mm, None);
    }
    let md = meta_dims->Ok_0;
    let tail = rest.drop_first();
    let looked_up2 = recorded_dims(md) is None;
    let blob_dims = if looked_up2 { blob_dims_reading(blob_answer(tail[0])) } else { None };
    let rest2 = if looked_up2 { tail.drop_first() } else { tail };
    let k: int = if looked_up2 { k1 + 2 } else { k1 + 1 };
    assert(rest2 =~= evs.skip(k));
    if looked_up2 {
        assert(tail[0] == evs[k1 + 1]);
    }
    assert(reads_only(evs.take(k)));
    let settings = recorded_settings_spec(mm, row_model, md, blob_dims);
    (k, settings.0, settings.1)
}

/// A model check refuses exactly on a mismatch without `force`, and then
/// changes nothing: it only asked the database.
pub proof fn lemma_refusal_changes_nothing(
    evs: Seq<DbEvent>,
    model: Seq<char>,
    dims: usize,
    force: bool,
    r: Result<CompatOutcome, RecallError>,
)
    requires
        compat_run(evs, model, dims, force, r),
        r matches Err(RecallError::ModelMismatch { .. }),
    ensures
        !force,
        reads_only(evs),
{
    let parts = lemma_compat_run_parts(evs, model, dims, force, r);
    lemma_planned_run_effects(parts.1, parts.2, model, dims, force, evs.skip(parts.0), r);
    assert(evs.skip(parts.0).len() == 0);
    assert(evs.take(parts.0) =~= evs);
}

/// A model check that succeeds has recorded the current model and decimal
/// dimension in the meta table, with its last two statements; a check that
/// cleared the embeddings did so just before.
pub proof fn lemma_successful_check_records(
    evs: Seq<DbEvent>,
    model: Seq<char>,
    dims: usize,
    force: bool,
    r: Result<CompatOutcome, RecallError>,
)
    requires
        compat_run(evs, model, dims, force, r),
        r is Ok,
    ensures
        evs.len() >= 2,
        writes_meta(evs[evs.len() - 2], META_MODEL_KEY@, model),
        writes_meta(evs.last(), META_DIMS_KEY@, decimal(dims as nat)),
        r matches Ok(CompatOutcome::Cleared { .. }) ==> force && evs.len() >= 3 && clears_embeddings(evs[evs.len() - 3]),
        r matches Ok(CompatOutcome::Unchanged) ==> forall|i: int| 0 <= i < evs.len() ==> !clears_embeddings(#[trigger] evs[i]),
{
    let parts = lemma_compat_run_parts(evs, model, dims, force, r);
    let k = parts.0;
    let ran = evs.skip(k);
    lemma_planned_run_effects(parts.1, parts.2, model, dims, force, ran, r);
    assert(evs[evs.len() - 2] == ran[ran.len() - 2]);
    assert(evs.last() == ran.last());
    if r matches Ok(CompatOutcome::Cleared { .. }) {
        assert(model_mismatch(parts.1, parts.2, model, dims));
        assert(evs[evs.len() - 3] == ran[0]);
    }
    if r matches Ok(CompatOutcome::Unchanged) {
        assert forall|i: int| 0 <= i < evs.len() implies !clears_embeddings(#[trigger] evs[i]) by {
            if i < k {
                assert(evs.take(k)[i] == evs[i]);
            } else {
                assert(ran[i - k] == evs[i]);
                if model_mismatch(parts.1, parts.2, model, dims) {
                    assert(false);
                }
            }
        }
    }
}

/// A check that reads back the model and decimal dimension that an earlier
/// check recorded refuses exactly when, without `force`, the model or the
/// dimension differ; with the same model and dimension it keeps every
/// embedding and at most records the same settings again.
pub proof fn lemma_later_check_after_recording(
    evs: Seq<DbEvent>,
    recorded_model: Seq<char>,
    recorded_dims_: usize,
    model: Seq<char>,
    dims: usize,
    force: bool,
    r: Result<CompatOutcome, RecallError>,
)
    requires
        compat_run(evs, model, dims, force, r),
        meta_reading(text_answer(evs[0])) matches Ok(Some(m)) && m@ == recorded_model,
        meta_reading(text_answer(evs[1])) matches Ok(Some(t)) && t@ == decimal(recorded_dims_ as nat),
    ensures
        r matches Err(RecallError::ModelMismatch { .. }) <==> !force && (model != recorded_model
            || dims != recorded_dims_),
        model == recorded_model && dims == recorded_dims_ ==> (r is Ok ==> r == Ok::<
            CompatOutcome,
            RecallError,
        >(CompatOutcome::Unchanged)) && forall|i: int|
            0 <= i < evs.len() ==> !clears_embeddings(#[trigger] evs[i]),
{
    lemma_decimal_parses_back(recorded_dims_);
    let t = meta_reading(text_answer(evs[1]))->Ok_0->Some_0;
    assert(recorded_dims(Some(t)) == Some(recorded_dims_));
    assert(evs.len() >= 2) by {
        let evs1 = evs.drop_first();
        assert(evs1.len() >= 1);
    }
    let parts = lemma_compat_run_parts(evs, model, dims, force, r);
    let k = parts.0;
    let ran = evs.skip(k);
    assert(k == 2);
    lemma_planned_run_effects(parts.1, parts.2, model, dims, force, ran, r);
    if model == recorded_model && dims == recorded_dims_ {
        assert(!model_mismatch(parts.1, parts.2, model, dims));
        assert forall|i: int| 0 <= i < evs.len() implies !clears_embeddings(#[trigger] evs[i]) by {
            if i < k {
                assert(evs.take(k)[i] == evs[i]);
            } else {
                assert(ran[i - k] == evs[i]);
            }
        }
    }
}

impl RecallDb {
    /// The exchanges of this handle with the database, oldest first.
    pub closed spec fn requests(&self) -> Seq<DbEvent> {
        self.requests@
    }

    /// Opens (or creates) the index database at `.atomic/recall.db` under
    /// `repo_root` and makes sure that its tables exist.
    pub fn open(repo_root: &str) -> (r: Result<RecallDb, RecallError>)
        ensures
            r matches Err(e) ==> e is Database,
            r matches Ok(db) ==> db.requests().len() == 2 && (db.requests()[0] matches DbEvent::Opened {
                path,
            } && is_index_db_path(repo_root@, path)) && db.requests()[1] == (DbEvent::Batch {
                sql: SCHEMA_SQL@,
                succeeded: true,
            }),
    {
        let db_path = index_db_path(repo_root);
        let conn = match open_connection(db_path.as_str()) {
            Ok(c) => c,
            Err(e) => {
                return Err(RecallError::Database(e));
            },
        };
        let ghost first: Seq<DbEvent> = seq![DbEvent::Opened { path: db_path@ }];
        let mut db = RecallDb { conn, requests: Ghost(first) };
        match db.init_schema() {
            Ok(()) => Ok(db),
            Err(e) => Err(e),
        }
    }

    /// Runs the schema: every table is created unless it exists.
    fn init_schema(&mut self) -> (r: Result<(), RecallError>)
        ensures
            r matches Err(e) ==> e is Database,
            final(self).requests() == old(self).requests().push(
                DbEvent::Batch { sql: SCHEMA_SQL@, succeeded: r is Ok },
            ),
    {
        let outcome = execute_batch(&self.conn, SCHEMA_SQL);
        proof {
            self.requests@ = self.requests@.push(
                DbEvent::Batch { sql: SCHEMA_SQL@, succeeded: outcome is Ok },
            );
        }
        match outcome {
            Ok(()) => Ok(()),
            Err(e) => Err(RecallError::Database(e)),
        }
    }

    /// Asks `sql` with the text parameters `params` for a count, and records
    /// the answer.
    fn query_count(&mut self, sql: &str, params: Vec<String>) -> (o: Result<i64, rusqlite::Error>)
        ensures
            final(self).requests() == old(self).requests().push(
                DbEvent::Query { sql: sql@, params: params.deep_view(), answer: QueryAnswer::Count(o) },
            ),
    {
        let o = query_first_integer(&self.conn, sql, &params);
        proof {
            self.requests@ = self.requests@.push(
                DbEvent::Query { sql: sql@, params: params.deep_view(), answer: QueryAnswer::Count(o) },
            );
        }
        o
    }

    /// Asks `sql` with the text parameters `params` for a text, and records
    /// the answer.
    fn query_text(&mut self, sql: &str, params: Vec<String>) -> (o: QueryOutcome)
        ensures
            final(self).requests() == old(self).requests().push(
                DbEvent::Query { sql: sql@, params: params.deep_view(), answer: QueryAnswer::Text(o) },
            ),
    {
        let o = query_first_text(&self.conn, sql, &params);
        proof {
            self.requests@ = self.requests@.push(
                DbEvent::Query { sql: sql@, params: params.deep_view(), answer: QueryAnswer::Text(o) },
            );
        }
        o
    }

    /// Asks `sql` with the text parameters `params` for a blob, and records
    /// the answer.
    fn query_blob(&mut self, sql: &str, params: Vec<String>) -> (o: Result<Vec<u8>, rusqlite::Error>)
        ensures
            final(self).requests() == old(self).requests().push(
                DbEvent::Query { sql: sql@, params: params.deep_view(), answer: QueryAnswer::Blob(o) },
            ),
    {
        let o = query_first_blob(&self.conn, sql, &params);
        proof {
            self.requests@ = self.requests@.push(
                DbEvent::Query { sql: sql@, params: params.deep_view(), answer: QueryAnswer::Blob(o) },
            );
        }
        o
    }

    /// Runs one statement, and records how it went.
    fn run(&mut self, sql: &'static str, params: Vec<SqlValue>) -> (r: Result<(), RecallError>)
        ensures
            one_more(old(self).requests(), final(self).requests()),
            executed(final(self).requests().last(), SqlStatement { sql, params }),
            r == execute_result(final(self).requests().last()),
    {
        let ghost statement = SqlStatement { sql, params };
        let outcome = execute(&self.conn, sql, params);
        proof {
            self.requests@ = self.requests@.push(DbEvent::Execute { statement, result: outcome });
        }
        match outcome {
            Ok(_) => Ok(()),
            Err(e) => Err(RecallError::Database(e)),
        }
    }

    /// Whether the change with this hash is already indexed (has an
    /// embedding): the count of such rows is positive.
    pub fn is_indexed(&mut self, hash: &str) -> (r: Result<bool, RecallError>)
        ensures
            one_more(old(self).requests(), final(self).requests()),
            is_count_query(final(self).requests().last(), IS_INDEXED_SQL@, seq![hash@]),
            r == indexed_reading(count_answer(final(self).requests().last())),
    {
        let params = lookup_params(hash);
        assert(params.deep_view() =~= seq![hash@]);
        let o = self.query_count(IS_INDEXED_SQL, params);
        read_indexed(o)
    }

    /// Inserts or updates a change record, leaving its embedding as it is.
    pub fn upsert_change(&mut self, record: &ChangeRecord) -> (r: Result<(), RecallError>)
        ensures
            one_more(old(self).requests(), final(self).requests()),
            final(self).requests().last() matches DbEvent::Execute { statement, .. }
                && is_record_upsert(statement, *record),
            r == execute_result(final(self).requests().last()),
    {
        let statement = record_upsert(record);
        self.run(statement.sql, statement.params)
    }

    /// Stores the embedding of an already-upserted change, with the model
    /// that produced it and the time (seconds since the Unix epoch) of
    /// indexing.
    pub fn store_embedding(&mut self, hash: &str, embedding: &Vec<u32>, model: &str, indexed_at: i64)
        -> (r: Result<(), RecallError>)
        ensures
            one_more(old(self).requests(), final(self).requests()),
            final(self).requests().last() matches DbEvent::Execute { statement, .. }
                && is_embedding_store(statement, hash@, embedding@, model@, indexed_at),
            r == execute_result(final(self).requests().last()),
    {
        let statement = embedding_store(hash, embedding, model, indexed_at);
        self.run(statement.sql, statement.params)
    }

    /// Loads all indexed changes with their embeddings, oldest first.
    pub fn load_indexed(&mut self) -> (r: Result<Vec<IndexedChange>, RecallError>)
        ensures
            one_more(old(self).requests(), final(self).requests()),
            final(self).requests().last() matches DbEvent::LoadRows { sql, rows } && sql
                == LOAD_INDEXED_SQL@ && match rows {
                Some(rs) => r matches Ok(v) && v@.len() == rs.len() && forall|i: int|
                    0 <= i < rs.len() ==> indexed_change_matches(rs[i], #[trigger] v@[i]),
                None => r matches Err(e) && e is Database,
            },
    {
        let loaded = query_indexed_rows(&self.conn, LOAD_INDEXED_SQL);
        proof {
            self.requests@ = self.requests@.push(
                DbEvent::LoadRows {
                    sql: LOAD_INDEXED_SQL@,
                    rows: if loaded is Ok {
                        Some(loaded->Ok_0@)
                    } else {
                        None
                    },
                },
            );
        }
        match loaded {
            Ok(rows) => Ok(indexed_changes_from_rows(rows)),
            Err(e) => Err(RecallError::Database(e)),
        }
    }

    /// The value recorded for `key` in the meta table, if any.
    pub fn get_meta(&mut self, key: &str) -> (r: Result<Option<String>, RecallError>)
        ensures
            one_more(old(self).requests(), final(self).requests()),
            is_text_query(final(self).requests().last(), GET_META_SQL@, seq![key@]),
            r == meta_reading(text_answer(final(self).requests().last())),
    {
        let params = lookup_params(key);
        assert(params.deep_view() =~= seq![key@]);
        let o = self.query_text(GET_META_SQL, params);
        read_meta(o)
    }

    /// Records `value` for `key` in the meta table, replacing any earlier value.
    pub fn set_meta(&mut self, key: &str, value: &str) -> (r: Result<(), RecallError>)
        ensures
            one_more(old(self).requests(), final(self).requests()),
            final(self).requests().last() matches DbEvent::Execute { statement, .. }
                && is_meta_write(statement, key@, value@),
            r == execute_result(final(self).requests().last()),
    {
        let statement = meta_write(key, value);
        self.run(statement.sql, statement.params)
    }

    /// Checks that the current model and dimension match those the index was
    /// built with. On a mismatch it refuses, unless `force` is set, in which
    /// case it clears every embedding so that everything gets re-indexed.
    /// Then it records the current model and dimension.
    ///
    /// The recorded model is read from the meta table, or else from an
    /// indexed row; the recorded dimension from the meta table, or else from
    /// the byte length of a stored embedding.
    #[verifier::rlimit(80)]
    pub fn check_model_compat(&mut self, model: &str, dims: usize, force: bool) -> (r: Result<
        CompatOutcome,
        RecallError,
    >)
        ensures
            old(self).requests().is_prefix_of(final(self).requests()),
            compat_run(
                final(self).requests().skip(old(self).requests().len() as int),
                model@,
                dims,
                force,
                r,
            ),
            r matches Err(RecallError::ModelMismatch { stored_model, stored_dims, model: m, dims: d })
                ==> !force && m@ == model@ && d == dims && (stored_model@ != model@ || stored_dims
                != dims),
            r matches Ok(CompatOutcome::Cleared { previous_model, previous_dims }) ==> force && (
            previous_model@ != model@ || previous_dims != dims),
    {
        let ghost start = self.requests@;
        let meta_model = match self.get_meta(META_MODEL_KEY) {
            Ok(m) => m,
            Err(e) => {
                assert(self.requests@.skip(start.len() as int) =~= seq![self.requests@.last()]);
                return Err(e);
            },
        };
        let ghost e1 = self.requests@.last();
        let ghost after_model = self.requests@;
        assert(after_model == start.push(e1));
        let row_model = match &meta_model {
            Some(_) => None,
            None => read_optional_text(self.query_text(STORED_MODEL_SQL, no_params())),
        };
        let ghost model_events = self.requests@.skip(after_model.len() as int);
        assert(self.requests@ =~= after_model + model_events);
        assert(meta_model is None ==> model_events.len() == 1 && is_text_query(
            model_events[0],
            STORED_MODEL_SQL@,
            Seq::empty(),
        ) && row_model == optional_text_reading(text_answer(model_events[0])));
        let ghost after_row = self.requests@;
        assert(after_row =~= start + (seq![e1] + model_events));
        let meta_dims = match self.get_meta(META_DIMS_KEY) {
            Ok(d) => d,
            Err(e) => {
                proof {
                    let evs = self.requests@.skip(start.len() as int);
                    assert(self.requests@ == after_row.push(self.requests@.last()));
                    assert(evs =~= seq![e1] + model_events + seq![self.requests@.last()]);
                    assert(evs.drop_first() =~= model_events + seq![self.requests@.last()]);
                    if meta_model is None {
                        assert(evs.drop_first().drop_first() =~= seq![self.requests@.last()]);
                    }
                }
                return Err(e);
            },
        };
        let ghost e3 = self.requests@.last();
        let ghost after_dims = self.requests@;
        assert(after_dims =~= start + (seq![e1] + model_events + seq![e3]));
        let blob_dims = match read_recorded_dims(&meta_dims) {
            Some(_) => None,
            None => read_blob_dims(self.query_blob(STORED_EMBEDDING_SQL, no_params())),
        };
        let ghost blob_events = self.requests@.skip(after_dims.len() as int);
        assert(self.requests@ =~= after_dims + blob_events);
        assert(recorded_dims(meta_dims) is None ==> blob_events.len() == 1 && is_blob_query(
            blob_events[0],
            STORED_EMBEDDING_SQL@,
            Seq::empty(),
        ) && blob_dims == blob_dims_reading(blob_answer(blob_events[0])));
        assert(recorded_dims(meta_dims) is Some ==> blob_events.len() == 0);
        assert(meta_model is Some ==> model_events.len() == 0);
        let ghost before_plan = self.requests@;
        let ghost reads = seq![e1] + model_events + seq![e3] + blob_events;
        assert(before_plan =~= start + reads);
        let ghost mm = meta_model;
        let ghost rm = row_model;
        let ghost md = meta_dims;
        let (stored_model, stored_dims) = recorded_settings(meta_model, row_model, &meta_dims, blob_dims);
        let plan = compat_plan(stored_model, stored_dims, model, dims, force);
        let ghost plan_value = plan;
        let (outcome, statements) = match plan {
            Ok(p) => p,
            Err(e) => {
                proof {
                    lemma_compat_run_reads(reads, Seq::empty(), e1, model_events, e3, blob_events, mm, rm, md, blob_dims, model@, dims, force, plan_value, Err(e));
                    assert(self.requests@.skip(start.len() as int) =~= reads);
                    assert(reads + Seq::<DbEvent>::empty() =~= reads);
                }
                return Err(e);
            },
        };
        let ghost stmts = statements@;
        let ghost before_run = self.requests@;
        let ran_result = self.run_all(statements);
        let ghost ran = self.requests@.skip(before_run.len() as int);
        let r = match ran_result {
            Ok(()) => Ok(outcome),
            Err(e) => Err(e),
        };
        proof {
            assert(self.requests@ =~= before_run + ran);
            assert(plan_value == Ok::<(CompatOutcome, Vec<SqlStatement>), RecallError>((outcome, statements)));
            assert(plan_run(plan_value, ran, r));
            lemma_compat_run_reads(reads, ran, e1, model_events, e3, blob_events, mm, rm, md, blob_dims, model@, dims, force, plan_value, r);
            assert(self.requests@.skip(start.len() as int) =~= reads + ran);
        }
        r
    }

    /// Runs `statements` in order, stopping at the first that fails.
    fn run_all(&mut self, statements: Vec<SqlStatement>) -> (r: Result<(), RecallError>)
        ensures
            old(self).requests().is_prefix_of(final(self).requests()),
            runs_in_order(statements@, final(self).requests().skip(old(self).requests().len() as int)),
            r == run_result(final(self).requests().skip(old(self).requests().len() as int), ()),
    {
        let ghost stmts = statements@;
        let ghost start = self.requests@;
        let mut rest = statements;
        let ghost mut ran: Seq<DbEvent> = Seq::empty();
        #[verifier::loop_isolation(false)]
        while rest.len() > 0
            invariant
                self.requests@ == start + ran,
                ran.len() + rest@.len() == stmts.len(),
                rest@ == stmts.skip(ran.len() as int),
                forall|i: int| 0 <= i < ran.len() ==> executed(#[trigger] ran[i], stmts[i]),
                forall|i: int| 0 <= i < ran.len() ==> (#[trigger] ran[i])->Execute_result is Ok,
            decreases rest.len(),
        {
            let statement = rest.remove(0);
            assert(statement == stmts[ran.len() as int]);
            let ghost before_step = self.requests@;
            let done = self.run(statement.sql, statement.params);
            proof {
                assert(self.requests@ == before_step.push(self.requests@.last()));
                ran = ran.push(self.requests@.last());
                assert(self.requests@ =~= start + ran);
                assert(rest@ =~= stmts.skip(ran.len() as int));
            }
            match done {
                Ok(()) => {},
                Err(e) => {
                    proof {
                        assert(self.requests@.skip(start.len() as int) =~= ran);
                        assert(runs_in_order(stmts, ran));
                        assert(start.is_prefix_of(self.requests@));
                    }
                    return Err(e);
                },
            }
        }
        proof {
            assert(self.requests@.skip(start.len() as int) =~= ran);
            assert(runs_in_order(stmts, ran));
            assert(start.is_prefix_of(self.requests@));
        }
        Ok(())
    }

    /// The number of change records, and how many of them are indexed.
    pub fn count(&mut self) -> (r: Result<(i64, i64), RecallError>)
        ensures
            final(self).requests().len() == old(self).requests().len() + 2,
            final(self).requests().take(old(self).requests().len() as int) == old(self).requests(),
            is_count_query(final(self).requests()[old(self).requests().len() as int], COUNT_ALL_SQL@, Seq::empty()),
            is_count_query(final(self).requests().last(), COUNT_INDEXED_SQL@, Seq::empty()),
            r == counts_reading(
                count_answer(final(self).requests()[old(self).requests().len() as int]),
                count_answer(final(self).requests().last()),
            ),
    {
        let ghost start = self.requests@;
        let total = self.query_count(COUNT_ALL_SQL, no_params());
        let indexed = self.query_count(COUNT_INDEXED_SQL, no_params());
        assert(self.requests@.take(start.len() as int) =~= start);
        read_counts(total, indexed)
    }
}

/// The exchanges of a model check make up its run: the reads, then the
/// statements of its plan.
proof fn lemma_compat_run_reads(
    reads: Seq<DbEvent>,
    ran: Seq<DbEvent>,
    e1: DbEvent,
    model_events: Seq<DbEvent>,
    e3: DbEvent,
    blob_events: Seq<DbEvent>,
    meta_model: Option<String>,
    row_model: Option<String>,
    meta_dims: Option<String>,
    blob_dims: Option<usize>,
    model: Seq<char>,
    dims: usize,
    force: bool,
    plan: Result<(CompatOutcome, Vec<SqlStatement>), RecallError>,
    r: Result<CompatOutcome, RecallError>,
)
    requires
        reads == seq![e1] + model_events + seq![e3] + blob_events,
        is_text_query(e1, GET_META_SQL@, seq![META_MODEL_KEY@]),
        meta_reading(text_answer(e1)) == Ok::<Option<String>, RecallError>(meta_model),
        meta_model is Some ==> model_events.len() == 0 && row_model is None,
        meta_model is None ==> model_events.len() == 1 && is_text_query(
            model_events[0],
            STORED_MODEL_SQL@,
            Seq::empty(),
        ) && row_model == optional_text_reading(text_answer(model_events[0])),
        is_text_query(e3, GET_META_SQL@, seq![META_DIMS_KEY@]),
        meta_reading(text_answer(e3)) == Ok::<Option<String>, RecallError>(meta_dims),
        recorded_dims(meta_dims) is Some ==> blob_events.len() == 0 && blob_dims is None,
        recorded_dims(meta_dims) is None ==> blob_events.len() == 1 && is_blob_query(
            blob_events[0],
            STORED_EMBEDDING_SQL@,
            Seq::empty(),
        ) && blob_dims == blob_dims_reading(blob_answer(blob_events[0])),
        ({
            let settings = recorded_settings_spec(meta_model, row_model, meta_dims, blob_dims);
            is_compat_plan(settings.0, settings.1, model, dims, force, plan)
        }),
        plan_run(plan, ran, r),
    ensures
        compat_run(reads + ran, model, dims, force, r),
{
    let evs = reads + ran;
    let after_model = model_events + seq![e3] + blob_events + ran;
    assert(evs.drop_first() =~= after_model);
    let rest = seq![e3] + blob_events + ran;
    if meta_model is None {
        assert(after_model.drop_first() =~= rest);
    } else {
        assert(after_model =~= rest);
    }
    let tail = blob_events + ran;
    assert(rest.drop_first() =~= tail);
    if recorded_dims(meta_dims) is None {
        assert(tail.drop_first() =~= ran);
        assert(tail[0] == blob_events[0]);
    } else {
        assert(tail =~= ran);
    }
    let settings = recorded_settings_spec(meta_model, row_model, meta_dims, blob_dims);
    assert(is_compat_plan(settings.0, settings.1, model, dims, force, plan) && plan_run(plan, ran, r));
    let looked_up = recorded_dims(meta_dims) is None;
    let bd = if looked_up { blob_dims_reading(blob_answer(tail[0])) } else { None };
    assert(bd == blob_dims);
    let rest2 = if looked_up { tail.drop_first() } else { tail };
    assert(rest2 == ran);
    assert(looked_up ==> tail.len() >= 1 && is_blob_query(tail[0], STORED_EMBEDDING_SQL@, Seq::empty()));
    assert(compat_run_from_dims(tail, meta_model, row_model, meta_dims, model, dims, force, r));
    assert(rest[0] == e3);
    assert(compat_run_from_model(after_model, meta_model, model, dims, force, r));
    assert(evs[0] == e1);
}

} // verus!
