use atomic_recall::change::{
    is_listed_file, listed_files, prompt_text, sort_by_timestamp, ChangeHeader, ChangeRecord,
    Provenance,
};
use rusqlite::types::Value;

fn human_record(message: &str) -> ChangeRecord {
    ChangeRecord {
        hash: "3F9AKDMTJ6QXABCDEF".to_string(),
        message: message.to_string(),
        description: None,
        timestamp: 1710253320,
        authors: vec![],
        files: vec![],
        ai_vendor: None,
        ai_model: None,
        ai_tool: None,
        prompt_text: None,
        reasoning: None,
        task_plan: None,
        tokens_in: None,
        tokens_out: None,
        cost_usd: None,
        session_id: None,
    }
}

#[test]
fn document_of_message_only() {
    let r = human_record("fix typo");
    assert!(r.document_cuttable());
    assert_eq!(r.embedding_document(), "[message]\nfix typo\n");
}

#[test]
fn document_sections_in_order() {
    let mut r = human_record("searcher: handle invalid UTF-8 in binary detection heuristic");
    r.description = Some("Binary files were misclassified.".to_string());
    r.files = vec![
        "crates/searcher/src/searcher/core.rs".to_string(),
        "crates/searcher/src/line_buffer.rs".to_string(),
    ];
    r.authors = vec!["alice".to_string(), "bob".to_string()];
    assert_eq!(
        r.embedding_document(),
        "[message]\nsearcher: handle invalid UTF-8 in binary detection heuristic\n\
         \n[description]\nBinary files were misclassified.\n\
         \n[files]\ncrates/searcher/src/searcher/core.rs\ncrates/searcher/src/line_buffer.rs\n\
         \n[author]\nalice, bob\n"
    );
}

#[test]
fn document_of_ai_change() {
    let mut r = human_record("add cache");
    r.prompt_text = Some("make it faster".to_string());
    r.reasoning = Some("memoize lookups".to_string());
    r.task_plan = Some("1. cache".to_string());
    r.ai_model = Some("model-x".to_string());
    r.ai_vendor = Some("vendor-y".to_string());
    r.authors = vec!["alice".to_string()];
    assert_eq!(
        r.embedding_document(),
        "[message]\nadd cache\n\n[prompt]\nmake it faster\n\n[reasoning]\nmemoize lookups\n\
         \n[task_plan]\n1. cache\n\n[author]\nmodel-x via unknown (vendor-y)\n"
    );
    r.ai_tool = Some("cli-tool".to_string());
    assert!(r.embedding_document().ends_with("\n[author]\nmodel-x via cli-tool (vendor-y)\n"));
}

#[test]
fn document_needs_both_model_and_vendor_for_ai_author() {
    let mut r = human_record("m");
    r.ai_model = Some("model-x".to_string());
    r.authors = vec!["alice".to_string()];
    assert_eq!(r.embedding_document(), "[message]\nm\n\n[author]\nalice\n");
    r.authors = vec![];
    assert_eq!(r.embedding_document(), "[message]\nm\n");
}

#[test]
fn document_caps_files_at_twenty() {
    let mut r = human_record("big");
    r.files = (0..25).map(|i| format!("f{}", i)).collect();
    let shown: Vec<String> = (0..20).map(|i| format!("f{}", i)).collect();
    let expected = format!(
        "[message]\nbig\n\n[files]\n{}\n... and 5 more files\n",
        shown.join("\n")
    );
    assert_eq!(r.embedding_document(), expected);
    r.files = (0..20).map(|i| format!("f{}", i)).collect();
    assert_eq!(
        r.embedding_document(),
        format!("[message]\nbig\n\n[files]\n{}\n", shown.join("\n"))
    );
}

#[test]
fn document_cuts_reasoning_at_2000_bytes() {
    let mut r = human_record("m");
    r.reasoning = Some("é".repeat(1500));
    assert!(r.document_cuttable());
    let doc = r.embedding_document();
    assert_eq!(doc, format!("[message]\nm\n\n[reasoning]\n{}\n", "é".repeat(1000)));
    r.reasoning = Some("x".repeat(2000));
    assert_eq!(r.embedding_document(), format!("[message]\nm\n\n[reasoning]\n{}\n", "x".repeat(2000)));
}

#[test]
fn reasoning_not_cuttable_at_2000() {
    let mut r = human_record("m");
    r.reasoning = Some(format!("a{}", "é".repeat(1500)));
    assert!(!r.document_cuttable());
}

#[test]
fn listed_files_drop_scratch_and_ignore() {
    let paths = vec![
        "src/main.rs".to_string(),
        ".gen-history-scratch/tmp".to_string(),
        ".atomicignore".to_string(),
        "docs/.atomicignore".to_string(),
        "README.md".to_string(),
    ];
    assert_eq!(
        listed_files(paths),
        vec!["src/main.rs".to_string(), "docs/.atomicignore".to_string(), "README.md".to_string()]
    );
    assert!(!is_listed_file(".gen-history-scratch"));
    assert!(is_listed_file(".gen-history"));
}

#[test]
fn prompt_text_drops_empty() {
    assert_eq!(prompt_text(Some("")), None);
    assert_eq!(prompt_text(None), None);
    assert_eq!(prompt_text(Some("go")), Some("go".to_string()));
}

#[test]
fn from_change_with_and_without_provenance() {
    let header = || ChangeHeader {
        hash: "H".to_string(),
        message: "msg".to_string(),
        description: Some("d".to_string()),
        timestamp: -5,
        authors: vec!["a".to_string()],
    };
    let paths = vec!["x.rs".to_string(), ".atomicignore".to_string()];
    let plain = ChangeRecord::from_change(header(), paths.clone(), None);
    assert_eq!(plain.files, vec!["x.rs".to_string()]);
    assert_eq!(plain.timestamp, -5);
    assert!(plain.ai_model.is_none() && plain.cost_usd.is_none() && plain.tokens_in.is_none());

    let prov = Provenance {
        vendor: "vendor-y".to_string(),
        model: "model-x".to_string(),
        tool: "cli".to_string(),
        prompt: Some(String::new()),
        reasoning_text: Some("r".to_string()),
        task_plan: None,
        input_tokens: 12,
        output_tokens: u64::MAX,
        cost_usd: Value::Real(0.25),
        session_id: Some("s".to_string()),
    };
    let ai = ChangeRecord::from_change(header(), paths, Some(prov));
    assert_eq!(ai.ai_vendor.as_deref(), Some("vendor-y"));
    assert_eq!(ai.ai_tool.as_deref(), Some("cli"));
    assert_eq!(ai.prompt_text, None);
    assert_eq!(ai.tokens_in, Some(12));
    assert_eq!(ai.tokens_out, Some(u64::MAX as i64));
    assert_eq!(ai.cost_usd, Some(Value::Real(0.25)));
    assert_eq!(ai.session_id.as_deref(), Some("s"));
}

#[test]
fn sort_by_timestamp_is_stable() {
    let mut records = Vec::new();
    for (msg, ts) in [("a", 30), ("b", 10), ("c", 30), ("d", 20), ("e", 10)] {
        let mut r = human_record(msg);
        r.timestamp = ts;
        records.push(r);
    }
    let sorted = sort_by_timestamp(records);
    let order: Vec<&str> = sorted.iter().map(|r| r.message.as_str()).collect();
    assert_eq!(order, vec!["b", "e", "d", "a", "c"]);
    assert!(sort_by_timestamp(Vec::new()).is_empty());
}
