use dk_engine::domain::{Error, Span, Symbol, SymbolKind, Visibility};
use dk_engine::repo::CodebaseSummary;
use dk_engine::tool_ops::{
    context_depth, detected_changes, file_list_result, finalize_status, kind_debug, merge_answer, merge_gate,
    merge_identity, submit_result, validate_path, ToolCodebaseSummary, ToolConflict, ToolConnectResult,
    ToolDetectedChange, ToolFileListEntry, ToolFileListResult, ToolMergeResult, ToolVerifyResult,
    ToolVerifyStepResult,
};
use dk_engine::workspace::conflict::{SemanticConflict, SymbolChangeKind};
use dk_engine::workspace::merge::WorkspaceMergeResult;

fn invalid_input(r: Result<(), Error>) -> String {
    match r {
        Err(Error::InvalidInput(m)) => m,
        other => panic!("expected InvalidInput, got {:?}", other),
    }
}

#[test]
fn validate_path_accepts_simple_relative() {
    assert!(validate_path("src/main.rs").is_ok());
}

#[test]
fn validate_path_accepts_single_file() {
    assert!(validate_path("Cargo.toml").is_ok());
}

#[test]
fn validate_path_accepts_nested() {
    assert!(validate_path("a/b/c/d.txt").is_ok());
}

#[test]
fn validate_path_accepts_dot_prefix() {
    assert!(validate_path("./src/lib.rs").is_ok());
}

#[test]
fn validate_path_rejects_empty() {
    let msg = invalid_input(validate_path(""));
    assert!(msg.contains("empty"), "expected empty error, got: {msg}");
}

#[test]
fn validate_path_rejects_absolute_forward_slash() {
    assert!(invalid_input(validate_path("/etc/passwd")).contains("relative"));
}

#[test]
fn validate_path_rejects_absolute_backslash() {
    assert!(invalid_input(validate_path("\\Windows\\system32")).contains("relative"));
}

#[test]
fn validate_path_rejects_null_byte() {
    assert!(invalid_input(validate_path("src/\0evil.rs")).contains("null"));
}

#[test]
fn validate_path_rejects_dot_dot_traversal() {
    assert!(invalid_input(validate_path("src/../../../etc/passwd")).contains("traversal"));
}

#[test]
fn validate_path_rejects_backslash_traversal() {
    assert!(invalid_input(validate_path("src\\..\\secret.txt")).contains("traversal"));
}

#[test]
fn validate_path_allows_dot_dot_in_filename() {
    assert!(validate_path("foo..bar.txt").is_ok());
}

#[test]
fn file_list_entry_modified_flag() {
    let entry = ToolFileListEntry {
        path: "src/lib.rs".into(),
        modified_in_session: true,
        modified_by_other: String::new(),
    };
    assert!(entry.modified_in_session);
    assert_eq!(entry.path, "src/lib.rs");
    let unmodified = ToolFileListEntry {
        path: "Cargo.toml".into(),
        modified_in_session: false,
        modified_by_other: String::new(),
    };
    assert!(!unmodified.modified_in_session);
}

#[test]
fn file_list_entry_modified_by_other() {
    let entry = ToolFileListEntry {
        path: "src/tasks.rs".into(),
        modified_in_session: false,
        modified_by_other: "create_task modified by agent-2".to_string(),
    };
    assert_eq!(entry.modified_by_other, "create_task modified by agent-2");
}

#[test]
fn file_list_result_total_matches_files() {
    let entries = vec![
        ToolFileListEntry { path: "a.rs".into(), modified_in_session: false, modified_by_other: String::new() },
        ToolFileListEntry { path: "b.rs".into(), modified_in_session: true, modified_by_other: String::new() },
        ToolFileListEntry { path: "c.rs".into(), modified_in_session: false, modified_by_other: String::new() },
    ];
    let result = ToolFileListResult { total: entries.len(), files: entries };
    assert_eq!(result.total, 3);
    assert_eq!(result.files.len(), 3);
}

#[test]
fn file_list_modified_filter_via_hashset() {
    let modified = vec!["src/changed.rs".to_string()];
    let all_files = vec!["src/changed.rs".to_string(), "src/unchanged.rs".to_string(), "Cargo.toml".to_string()];
    let notes = vec![String::new(), String::new(), String::new()];
    let result = file_list_result(all_files, &modified, notes);
    assert_eq!(result.total, 3);
    assert!(result.files[0].modified_in_session);
    assert!(!result.files[1].modified_in_session);
    assert!(!result.files[2].modified_in_session);
}

#[test]
fn file_list_result_carries_notes() {
    let result = file_list_result(
        vec!["src/tasks.rs".to_string()],
        &vec![],
        vec!["create_task modified by agent-2".to_string()],
    );
    assert_eq!(result.files[0].path, "src/tasks.rs");
    assert_eq!(result.files[0].modified_by_other, "create_task modified by agent-2");
}

#[test]
fn codebase_summary_from_conversion() {
    let src = CodebaseSummary {
        languages: vec!["Rust".into(), "TypeScript".into()],
        total_symbols: 42,
        total_files: 10,
    };
    let tool: ToolCodebaseSummary = src.into();
    assert_eq!(tool.languages, vec!["Rust", "TypeScript"]);
    assert_eq!(tool.total_symbols, 42);
    assert_eq!(tool.total_files, 10);
}

#[test]
fn verify_result_passed_true() {
    let result = ToolVerifyResult {
        changeset_id: "cs-1".to_string(),
        passed: true,
        steps: vec![ToolVerifyStepResult {
            step_name: "lint".into(),
            status: "passed".into(),
            output: "no warnings".into(),
            required: true,
        }],
    };
    assert!(result.passed);
    assert_eq!(result.steps.len(), 1);
    assert_eq!(result.steps[0].status, "passed");
}

#[test]
fn verify_result_passed_false() {
    let result = ToolVerifyResult {
        changeset_id: "cs-2".to_string(),
        passed: false,
        steps: vec![
            ToolVerifyStepResult { step_name: "lint".into(), status: "passed".into(), output: String::new(), required: true },
            ToolVerifyStepResult {
                step_name: "test".into(),
                status: "failed".into(),
                output: "1 test failed".into(),
                required: true,
            },
        ],
    };
    assert!(!result.passed);
    assert_eq!(result.steps[1].status, "failed");
}

#[test]
fn verify_finalize_status_derivation() {
    let status_for = |passed: bool| -> &str { finalize_status(passed) };
    assert_eq!(status_for(true), "approved");
    assert_eq!(status_for(false), "rejected");
}

#[test]
fn merge_rejects_non_approved_states() {
    for state in &["submitted", "verifying", "rejected", "draft"] {
        let msg = invalid_input(merge_gate(state));
        assert!(msg.contains("must be 'approved' to merge"), "unexpected error for state '{state}': {msg}");
        assert!(msg.contains(state), "error should contain the state '{state}': {msg}");
    }
    assert!(merge_gate("approved").is_ok());
}

#[test]
fn detected_change_construction() {
    let change = ToolDetectedChange { symbol_name: "crate::foo::Bar".into(), change_type: "modified".into() };
    assert_eq!(change.symbol_name, "crate::foo::Bar");
    assert_eq!(change.change_type, "modified");
}

fn symbol(qn: &str) -> Symbol {
    Symbol {
        id: 1,
        name: qn.to_string(),
        qualified_name: qn.to_string(),
        kind: SymbolKind::Function,
        visibility: Visibility::Public,
        file_path: "src/lib.rs".to_string(),
        span: Span { start_byte: 0, end_byte: 10 },
        signature: None,
        doc_comment: None,
        parent: None,
        last_modified_by: None,
        last_modified_intent: None,
    }
}

#[test]
fn detected_changes_lists_every_symbol_as_modified() {
    let changes = detected_changes(&[symbol("a::f"), symbol("b::g")]);
    assert_eq!(changes.len(), 2);
    assert_eq!(changes[0].symbol_name, "a::f");
    assert_eq!(changes[1].symbol_name, "b::g");
    assert!(changes.iter().all(|c| c.change_type == "modified"));
}

#[test]
fn tool_connect_result_holds_summary() {
    let result = ToolConnectResult {
        session_id: "abc-123".into(),
        base_commit: "deadbeef".into(),
        codebase_summary: ToolCodebaseSummary { languages: vec!["Rust".into()], total_symbols: 100, total_files: 5 },
        active_sessions: 2,
    };
    assert_eq!(result.session_id, "abc-123");
    assert_eq!(result.active_sessions, 2);
    assert_eq!(result.codebase_summary.languages.len(), 1);
}

#[test]
fn context_depth_flags() {
    assert_eq!(context_depth(None), (false, false));
    assert_eq!(context_depth(Some("signatures")), (false, false));
    assert_eq!(context_depth(Some("full")), (true, false));
    assert_eq!(context_depth(Some("call_graph")), (true, true));
}

#[test]
fn kind_debug_names() {
    assert_eq!(kind_debug(SymbolKind::Function), "Function");
    assert_eq!(kind_debug(SymbolKind::TypeAlias), "TypeAlias");
}

#[test]
fn submit_result_is_accepted() {
    let r = submit_result("cs-9".to_string());
    assert_eq!(r.status, "accepted");
    assert_eq!(r.changeset_id, "cs-9");
    assert!(r.version.is_none() && r.failures.is_empty() && r.conflicts.is_empty());
}

#[test]
fn merge_identity_falls_back_to_agent() {
    let (m, n, e) = merge_identity(None, &Some("agent-7".to_string()), "", "");
    assert_eq!(m, "merge changeset");
    assert_eq!(n, "agent-7");
    assert_eq!(e, "agent-7");
    let (m, n, e) = merge_identity(Some("ship it"), &None, "Ada", "ada@example.com");
    assert_eq!(m, "ship it");
    assert_eq!(n, "Ada");
    assert_eq!(e, "ada@example.com");
    let (_, n, _) = merge_identity(None, &None, "", "x@y");
    assert_eq!(n, "agent");
}

#[test]
fn merge_answer_reports_conflicts() {
    let outcome = WorkspaceMergeResult::Conflicts {
        conflicts: vec![SemanticConflict {
            file_path: "src/main.rs".into(),
            symbol_name: "main".into(),
            our_change: SymbolChangeKind::Modified,
            their_change: SymbolChangeKind::Removed,
        }],
    };
    let (result, version): (ToolMergeResult, Option<String>) = merge_answer(outcome);
    assert!(version.is_none());
    assert!(result.commit_hash.is_empty());
    assert_eq!(result.conflicts.len(), 1);
    let c: &ToolConflict = &result.conflicts[0];
    assert_eq!(c.file, "src/main.rs");
    assert_eq!(c.symbol, "main");
    assert_eq!(c.our_change, "Modified");
    assert_eq!(c.their_change, "Removed");
}

#[test]
fn merge_answer_fast_merge() {
    let (result, version) = merge_answer(WorkspaceMergeResult::FastMerge { commit_hash: "abc".to_string() });
    assert_eq!(version.as_deref(), Some("abc"));
    assert_eq!(result.commit_hash, "abc");
    assert_eq!(result.merged_version, "abc");
    assert!(!result.auto_rebased);
}
