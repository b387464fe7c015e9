use atomic_recall::change::ChangeRecord;
use atomic_recall::db::{
    clear_embeddings_statement, compat_plan, embedding_store, lookup_params, meta_write,
    cleared_notice, read_counts, record_upsert, recorded_settings, CompatOutcome, SqlStatement,
    CLEAR_EMBEDDINGS_SQL, SET_META_SQL, STORE_EMBEDDING_SQL, UPSERT_SQL,
};
use atomic_recall::error::{mismatch_message, RecallError};
use atomic_recall::paths::index_db_path;
use atomic_recall::search::result_date;
use atomic_recall::sql::SqlValue;

fn text(v: &SqlValue) -> &str {
    match v {
        SqlValue::Text(t) => t.as_str(),
        other => panic!("not text: {:?}", other),
    }
}

fn meta_pair(s: &SqlStatement) -> (&str, &str) {
    assert_eq!(s.sql, SET_META_SQL);
    assert_eq!(s.params.len(), 2);
    (text(&s.params[0]), text(&s.params[1]))
}

#[test]
fn lookup_and_meta_write_params() {
    let p = lookup_params("3F9AKDMTJ6QX");
    assert_eq!(p, vec!["3F9AKDMTJ6QX".to_string()]);
    let w = meta_write("embed_model", "nomic-embed-text");
    assert_eq!(meta_pair(&w), ("embed_model", "nomic-embed-text"));
    let c = clear_embeddings_statement();
    assert_eq!(c.sql, CLEAR_EMBEDDINGS_SQL);
    assert!(c.params.is_empty());
}

#[test]
fn recorded_settings_prefer_meta() {
    let s = |x: &str| Some(x.to_string());
    assert_eq!(recorded_settings(s("m"), s("row"), &s("768"), Some(4)), (s("m"), Some(768)));
    assert_eq!(recorded_settings(None, s("row"), &s("768"), None), (s("row"), Some(768)));
    assert_eq!(recorded_settings(None, None, &s("x768"), Some(4)), (None, Some(4)));
    assert_eq!(recorded_settings(None, None, &None, None), (None, None));
}

#[test]
fn compat_plan_statements() {
    let s = |x: &str| Some(x.to_string());
    match compat_plan(s("m"), Some(3), "m", 3, false).unwrap() {
        (CompatOutcome::Unchanged, st) => {
            assert_eq!(st.len(), 2);
            assert_eq!(meta_pair(&st[0]), ("embed_model", "m"));
            assert_eq!(meta_pair(&st[1]), ("embed_dims", "3"));
        }
        other => panic!("unexpected {:?}", other),
    }
    match compat_plan(s("m"), Some(3), "n", 2560, true).unwrap() {
        (CompatOutcome::Cleared { previous_model, previous_dims }, st) => {
            assert_eq!((previous_model.as_str(), previous_dims), ("m", 3));
            assert_eq!(st.len(), 3);
            assert_eq!(st[0].sql, CLEAR_EMBEDDINGS_SQL);
            assert_eq!(meta_pair(&st[1]), ("embed_model", "n"));
            assert_eq!(meta_pair(&st[2]), ("embed_dims", "2560"));
        }
        other => panic!("unexpected {:?}", other),
    }
    match compat_plan(s("m"), Some(3), "n", 3, false) {
        Err(RecallError::ModelMismatch { stored_model, stored_dims, model, dims }) => {
            assert_eq!((stored_model.as_str(), stored_dims, model.as_str(), dims), ("m", 3, "n", 3));
        }
        other => panic!("unexpected {:?}", other),
    }
}

#[test]
fn counts_come_in_order() {
    let r = read_counts(Ok(7), Ok(2));
    assert_eq!(r.unwrap(), (7, 2));
    assert!(matches!(
        read_counts(Err(rusqlite::Error::QueryReturnedNoRows), Ok(2)),
        Err(RecallError::Database(rusqlite::Error::QueryReturnedNoRows))
    ));
    assert!(matches!(
        read_counts(Ok(1), Err(rusqlite::Error::InvalidQuery)),
        Err(RecallError::Database(rusqlite::Error::InvalidQuery))
    ));
}

#[test]
fn upsert_statement_holds_the_record() {
    let record = ChangeRecord {
        hash: "H".to_string(),
        message: "msg".to_string(),
        description: None,
        timestamp: 5,
        authors: vec!["a \"q\"".to_string(), "tab\there".to_string()],
        files: vec!["x\\y.rs".to_string(), "\u{1}".to_string()],
        ai_vendor: Some("v".to_string()),
        ai_model: None,
        ai_tool: None,
        prompt_text: None,
        reasoning: None,
        task_plan: None,
        tokens_in: Some(1),
        tokens_out: None,
        cost_usd: None,
        session_id: None,
    };
    let s = record_upsert(&record);
    assert_eq!(s.sql, UPSERT_SQL);
    assert_eq!(s.params.len(), 16);
    assert_eq!(text(&s.params[0]), "H");
    assert_eq!(text(&s.params[4]), "[\"a \\\"q\\\"\",\"tab\\there\"]");
    assert_eq!(text(&s.params[5]), "[\"x\\\\y.rs\",\"\\u0001\"]");
    assert_eq!(text(&s.params[4]), serde_json::to_string(&record.authors).unwrap());
    assert!(matches!(s.params[2], SqlValue::Null));
    assert!(matches!(s.params[3], SqlValue::Integer(5)));
    assert_eq!(text(&s.params[6]), "v");
}

#[test]
fn embedding_store_statement() {
    let s = embedding_store("H", &vec![0x3f80_0000], "m", 9);
    assert_eq!(s.sql, STORE_EMBEDDING_SQL);
    assert!(matches!(&s.params[0], SqlValue::Blob(b) if b == &vec![0, 0, 0x80, 0x3f]));
    assert_eq!(text(&s.params[1]), "m");
    assert!(matches!(s.params[2], SqlValue::Integer(9)));
    assert_eq!(text(&s.params[3]), "H");
}

#[test]
fn index_path_under_atomic() {
    assert_eq!(index_db_path("/repo"), "/repo/.atomic/recall.db");
    assert_eq!(index_db_path("/repo/"), "/repo/.atomic/recall.db");
}

#[test]
fn result_dates() {
    assert_eq!(result_date(1710253320), "2024-03-12 14:22");
    assert_eq!(result_date(0), "1970-01-01 00:00");
    assert_eq!(result_date(i64::MAX), "unknown");
}

#[test]
fn refusal_and_clearing_messages() {
    assert_eq!(
        mismatch_message("nomic-embed-text", 768, "mxbai", 1024),
        "Index was built with model 'nomic-embed-text' (768d) but you're using 'mxbai' (1024d).\n\
         Run `atomic-recall index --force` to re-embed with the new model."
    );
    assert_eq!(
        cleared_notice("old-model", "new-model"),
        "Model changed (old-model \u{2192} new-model). Cleared existing embeddings; re-indexing everything."
    );
}
