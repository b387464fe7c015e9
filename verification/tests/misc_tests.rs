use atomic_recall::db::{
    compat_decision, read_blob_dims, read_count, read_indexed, read_meta, read_optional_text,
    read_recorded_dims,
};
use atomic_recall::embed::OllamaEmbedder;
use atomic_recall::error::RecallError;
use atomic_recall::indexing::{needs_embedding, IndexTally};
use atomic_recall::json::string_list_or_empty;
use atomic_recall::paths::{find_repo_root, is_change_file_name, root_search_step, RootSearch};
use atomic_recall::search::{author_info, files_preview};
use atomic_recall::sql::QueryOutcome;

#[test]
fn embedder_settings() {
    let e = OllamaEmbedder::default_nomic();
    assert_eq!(e.model_id(), "nomic-embed-text");
    assert_eq!(e.dims(), 768);
    assert_eq!(e.embeddings_url(), "http://localhost:11434/api/embeddings");
    let q = OllamaEmbedder::new("http://gpu:1234", "qwen3-embedding:4b", 2560);
    assert_eq!(q.embeddings_url(), "http://gpu:1234/api/embeddings");
    assert_eq!(q.model_id(), "qwen3-embedding:4b");
}

#[test]
fn change_file_names() {
    assert!(is_change_file_name("NCEJ7BFNTJGD.change"));
    assert!(!is_change_file_name(".change"));
    assert!(!is_change_file_name("x.changes"));
    assert!(!is_change_file_name("change"));
    assert!(!is_change_file_name("x.change.bak"));
    assert!(is_change_file_name("a.b.change"));
    for name in ["x.change", ".change", "..", "a.", "x.tar.gz", "x", ".x.change"] {
        let by_std = std::path::Path::new(name).extension().and_then(|e| e.to_str()) == Some("change");
        assert_eq!(is_change_file_name(name), by_std, "{}", name);
    }
}

#[test]
fn repo_root_walk() {
    match find_repo_root("/home/u/repo", true) {
        RootSearch::Found(root) => assert_eq!(root, "/home/u/repo"),
        other => panic!("unexpected {:?}", other),
    }
    match find_repo_root("/home/u/repo/src", false) {
        RootSearch::Next(parent) => assert_eq!(parent, "/home/u/repo"),
        other => panic!("unexpected {:?}", other),
    }
    assert!(matches!(find_repo_root("/", false), RootSearch::NotFound));
    match find_repo_root("/w/a/b", false) {
        RootSearch::Next(parent) => assert_eq!(parent, "/w/a"),
        other => panic!("unexpected {:?}", other),
    }
    match find_repo_root("/b", false) {
        RootSearch::Next(parent) => assert_eq!(parent, "/"),
        other => panic!("unexpected {:?}", other),
    }
    match find_repo_root("repo", false) {
        RootSearch::Next(parent) => assert_eq!(parent, ""),
        other => panic!("unexpected {:?}", other),
    }
}

#[test]
fn root_search_steps() {
    match root_search_step("/w/a", true, Some("/w".to_string())) {
        RootSearch::Found(root) => assert_eq!(root, "/w/a"),
        other => panic!("unexpected {:?}", other),
    }
    match root_search_step("/w/a", false, Some("/w".to_string())) {
        RootSearch::Next(parent) => assert_eq!(parent, "/w"),
        other => panic!("unexpected {:?}", other),
    }
    assert!(matches!(root_search_step("/", false, None), RootSearch::NotFound));
}

#[test]
fn model_check_decisions() {
    let s = |x: &str| Some(x.to_string());
    assert_eq!(compat_decision(s("m"), Some(768), "m", 768, false).unwrap(), None);
    assert_eq!(compat_decision(s("m"), Some(768), "n", 768, false).unwrap_err(), ("m".to_string(), 768));
    assert_eq!(compat_decision(s("m"), Some(768), "m", 2560, false).unwrap_err(), ("m".to_string(), 768));
    assert_eq!(compat_decision(s("m"), Some(768), "n", 2560, true).unwrap(), Some(("m".to_string(), 768)));
    assert_eq!(compat_decision(None, Some(768), "n", 5, false).unwrap(), None);
    assert_eq!(compat_decision(s("m"), None, "n", 5, false).unwrap(), None);
}

#[test]
fn reading_query_results() {
    let type_error = || rusqlite::Error::InvalidColumnType(0, "c".to_string(), rusqlite::types::Type::Null);
    assert_eq!(read_count(Ok(3)).unwrap(), 3);
    assert!(matches!(
        read_count(Err(type_error())),
        Err(RecallError::Database(rusqlite::Error::InvalidColumnType(0, _, rusqlite::types::Type::Null)))
    ));
    assert!(matches!(
        read_count(Err(rusqlite::Error::QueryReturnedNoRows)),
        Err(RecallError::Database(rusqlite::Error::QueryReturnedNoRows))
    ));
    assert_eq!(read_indexed(Ok(0)).unwrap(), false);
    assert_eq!(read_indexed(Ok(2)).unwrap(), true);
    assert_eq!(read_meta(QueryOutcome::NoRows).unwrap(), None);
    assert_eq!(read_meta(QueryOutcome::Row("x".to_string())).unwrap(), Some("x".to_string()));
    assert!(matches!(read_meta(QueryOutcome::Failed(type_error())), Err(RecallError::Database(_))));
    assert_eq!(read_optional_text(QueryOutcome::Row("m".to_string())), Some("m".to_string()));
    assert_eq!(read_optional_text(QueryOutcome::NoRows), None);
    assert_eq!(read_optional_text(QueryOutcome::Failed(type_error())), None);
    assert_eq!(read_blob_dims(Ok(vec![0; 3074])), Some(768));
    assert_eq!(read_blob_dims(Err(rusqlite::Error::QueryReturnedNoRows)), None);
    assert_eq!(read_recorded_dims(&Some("2560".to_string())), Some(2560));
    assert_eq!(read_recorded_dims(&Some("abc".to_string())), None);
    assert_eq!(read_recorded_dims(&None), None);
}

#[test]
fn index_tally_summary() {
    assert!(needs_embedding(true, true));
    assert!(needs_embedding(false, false));
    assert!(!needs_embedding(false, true));
    let mut t = IndexTally::new();
    t.count_indexed();
    t.count_indexed();
    t.count_skipped();
    assert_eq!(t.summary(), "Done. 2 indexed, 1 already up to date.");
    t.count_error();
    assert_eq!(t.summary(), "Done. 2 indexed, 1 already up to date, 1 errors.");
}

#[test]
fn search_result_lines() {
    let files: Vec<String> = ["a.rs", "b.rs", "c.rs", "d.rs", "e.rs"].iter().map(|s| s.to_string()).collect();
    assert_eq!(files_preview(&files), "a.rs, b.rs, c.rs and 2 more");
    assert_eq!(files_preview(&files[..3].to_vec()), "a.rs, b.rs, c.rs");
    let authors = vec!["alice".to_string(), "bob".to_string()];
    assert_eq!(author_info(&Some("model-x".to_string()), &Some("vendor-y".to_string()), &authors), "model-x (vendor-y)");
    assert_eq!(author_info(&Some("model-x".to_string()), &None, &authors), "alice, bob");
}

#[test]
fn json_string_lists() {
    assert_eq!(string_list_or_empty("[\"a\",\"b\"]"), vec!["a".to_string(), "b".to_string()]);
    assert_eq!(string_list_or_empty("not json"), Vec::<String>::new());
    assert_eq!(string_list_or_empty("[1,2]"), Vec::<String>::new());
}
