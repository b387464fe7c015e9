use atomic_recall::change::ChangeRecord;
use atomic_recall::db::{CompatOutcome, RecallDb};
use atomic_recall::error::RecallError;
use rusqlite::types::Value;

/// A repository root whose index is a fresh in-memory database: SQLite reads
/// the joined path as a URI, and everything after `#` is ignored.
fn fresh_repo(name: &str) -> String {
    format!("file:{}?mode=memory#", name)
}

fn record(hash: &str, ts: i64) -> ChangeRecord {
    ChangeRecord {
        hash: hash.to_string(),
        message: format!("message {}", hash),
        description: Some("desc".to_string()),
        timestamp: ts,
        authors: vec!["alice".to_string()],
        files: vec!["src/a.rs".to_string(), "src/b.rs".to_string()],
        ai_vendor: None,
        ai_model: None,
        ai_tool: None,
        prompt_text: None,
        reasoning: None,
        task_plan: None,
        tokens_in: Some(3),
        tokens_out: None,
        cost_usd: Some(Value::Real(0.5)),
        session_id: None,
    }
}

#[test]
fn open_fails_without_atomic_dir() {
    assert!(matches!(
        RecallDb::open("/nonexistent/atomic_recall/none"),
        Err(RecallError::Database(_))
    ));
}

#[test]
fn index_store_and_load() {
    let root = fresh_repo("store_load");
    let mut db = RecallDb::open(&root).unwrap();
    assert_eq!(db.count().unwrap(), (0, 0));
    db.upsert_change(&record("B", 20)).unwrap();
    db.upsert_change(&record("A", 10)).unwrap();
    assert_eq!(db.count().unwrap(), (2, 0));
    assert!(!db.is_indexed("A").unwrap());
    let bits = vec![1.0f32.to_bits(), (-0.5f32).to_bits(), 7u32];
    db.store_embedding("A", &bits, "m", 123).unwrap();
    db.store_embedding("B", &vec![9u32], "m", 124).unwrap();
    assert!(db.is_indexed("A").unwrap());
    assert_eq!(db.count().unwrap(), (2, 2));
    let loaded = db.load_indexed().unwrap();
    assert_eq!(loaded.len(), 2);
    assert_eq!(loaded[0].hash, "A");
    assert_eq!(loaded[0].embedding, bits);
    assert_eq!(loaded[0].authors, "[\"alice\"]");
    assert_eq!(loaded[0].files, "[\"src/a.rs\",\"src/b.rs\"]");
    assert_eq!(loaded[1].hash, "B");
    assert_eq!(loaded[1].embedding, vec![9u32]);
}

#[test]
fn meta_read_back() {
    let root = fresh_repo("meta");
    let mut db = RecallDb::open(&root).unwrap();
    assert_eq!(db.get_meta("k").unwrap(), None);
    db.set_meta("k", "v1").unwrap();
    assert_eq!(db.get_meta("k").unwrap(), Some("v1".to_string()));
    db.set_meta("k", "v2").unwrap();
    assert_eq!(db.get_meta("k").unwrap(), Some("v2".to_string()));
}

#[test]
fn model_check_against_index() {
    let root = fresh_repo("compat");
    let mut db = RecallDb::open(&root).unwrap();
    assert!(matches!(db.check_model_compat("m1", 3, false).unwrap(), CompatOutcome::Unchanged));
    assert_eq!(db.get_meta("embed_dims").unwrap(), Some("3".to_string()));
    db.upsert_change(&record("A", 1)).unwrap();
    db.store_embedding("A", &vec![1, 2, 3], "m1", 5).unwrap();
    assert!(matches!(db.check_model_compat("m1", 3, false).unwrap(), CompatOutcome::Unchanged));
    match db.check_model_compat("m2", 4, false) {
        Err(RecallError::ModelMismatch { stored_model, stored_dims, model, dims }) => {
            assert_eq!((stored_model.as_str(), stored_dims, model.as_str(), dims), ("m1", 3, "m2", 4));
        }
        other => panic!("unexpected {:?}", other),
    }
    assert!(db.is_indexed("A").unwrap());
    match db.check_model_compat("m2", 4, true).unwrap() {
        CompatOutcome::Cleared { previous_model, previous_dims } => {
            assert_eq!((previous_model.as_str(), previous_dims), ("m1", 3));
        }
        other => panic!("unexpected {:?}", other),
    }
    assert!(!db.is_indexed("A").unwrap());
    assert_eq!(db.get_meta("embed_model").unwrap(), Some("m2".to_string()));
    assert_eq!(db.get_meta("embed_dims").unwrap(), Some("4".to_string()));
}

#[test]
fn model_check_falls_back_to_rows() {
    let root = fresh_repo("fallback");
    let mut db = RecallDb::open(&root).unwrap();
    db.upsert_change(&record("A", 1)).unwrap();
    db.store_embedding("A", &vec![1, 2], "old", 5).unwrap();
    match db.check_model_compat("new", 2, false) {
        Err(RecallError::ModelMismatch { stored_model, stored_dims, .. }) => {
            assert_eq!((stored_model.as_str(), stored_dims), ("old", 2));
        }
        other => panic!("unexpected {:?}", other),
    }
    db.set_meta("embed_dims", "not a number").unwrap();
    db.set_meta("embed_model", "new").unwrap();
    assert!(matches!(db.check_model_compat("new", 2, false).unwrap(), CompatOutcome::Unchanged));
}
