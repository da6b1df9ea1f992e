use dk_engine::conflict::ast_merge::{ast_merge_parsed, MergeStatus};
use dk_engine::conflict::payload::{extract_signature, line_count, sanitize_for_proto};
use dk_engine::domain::{CallKind, Error, RawCallEdge, Span, Symbol, SymbolKind, Visibility};
use dk_engine::graph::{call_kind_str, parse_call_kind, parse_symbol_kind, parse_visibility, visibility_str, CallEdgeRow};
use dk_engine::metrics::{
    incr_workspace_pinned, set_workspace_stranded_active, workspace_pinned_total, workspace_stranded_active,
    WorkspaceMetrics,
};
use dk_engine::parser::registry::ParserRegistry;
use dk_engine::repo::{collect_files, resolve_call_edges, CodebaseSummary};
use dk_engine::storage::{validate_key, LocalStore};
use dk_engine::workspace::merge::{choose_strategy, MergeStrategy};
use dk_engine::workspace::session_manager::{gc_action, pin_decision, pin_flag_from, GcAction};

#[test]
fn test_merge_status_eq() {
    assert_eq!(MergeStatus::Clean, MergeStatus::Clean);
    assert_eq!(MergeStatus::Conflict, MergeStatus::Conflict);
    assert_ne!(MergeStatus::Clean, MergeStatus::Conflict);
}

#[test]
fn validate_key_rejects_traversal() {
    assert!(validate_key("../etc/passwd").is_err());
    assert!(validate_key("foo/../../bar").is_err());
}

#[test]
fn validate_key_rejects_absolute() {
    assert!(validate_key("/etc/passwd").is_err());
}

#[test]
fn validate_key_rejects_null() {
    assert!(validate_key("foo\0bar").is_err());
}

#[test]
fn validate_key_accepts_valid() {
    assert!(validate_key("repos/abc/data.json").is_ok());
    assert!(validate_key("sessions/123").is_ok());
    assert!(validate_key("file.txt").is_ok());
}

#[test]
fn local_store_paths() {
    let store = LocalStore::new("/var/data".to_string());
    assert_eq!(store.root(), "/var/data");
    assert_eq!(store.path_of("a/b.txt").unwrap(), "/var/data/a/b.txt");
    assert_eq!(store.path_of("../x").unwrap_err(), "storage key contains '..' traversal");
    assert_eq!(LocalStore::list_key("repos", "r1"), "repos/r1");
    assert_eq!(LocalStore::list_key("", "r1"), "r1");
}

fn sym(id: u128, name: &str, qn: &str, path: &str, start: u32, end: u32) -> Symbol {
    Symbol {
        id,
        name: name.into(),
        qualified_name: qn.into(),
        kind: SymbolKind::Function,
        visibility: Visibility::Public,
        file_path: path.into(),
        span: Span { start_byte: start, end_byte: end },
        signature: None,
        doc_comment: None,
        parent: None,
        last_modified_by: None,
        last_modified_intent: None,
    }
}

fn raw(caller: &str, callee: &str) -> RawCallEdge {
    RawCallEdge {
        caller_name: caller.into(),
        callee_name: callee.into(),
        call_site: Span { start_byte: 50, end_byte: 60 },
        kind: CallKind::DirectCall,
    }
}

#[test]
fn test_resolve_call_edges_basic() {
    let symbols = vec![
        sym(1, "foo", "crate::foo", "src/lib.rs", 0, 100),
        sym(2, "bar", "crate::bar", "src/lib.rs", 100, 200),
    ];
    let edges = resolve_call_edges(&[raw("foo", "bar")], &symbols, 9);
    assert_eq!(edges.len(), 1);
    assert_eq!(edges[0].caller, 1);
    assert_eq!(edges[0].callee, 2);
    assert_eq!(edges[0].repo_id, 9);
}

#[test]
fn test_resolve_call_edges_unresolved_skipped() {
    let symbols = vec![sym(1, "foo", "crate::foo", "src/lib.rs", 0, 100)];
    let edges = resolve_call_edges(&[raw("foo", "unknown")], &symbols, 9);
    assert!(edges.is_empty());
}

#[test]
fn test_resolve_call_edges_qualified_name() {
    let symbols = vec![
        sym(1, "foo", "crate::mod_a::foo", "src/mod_a.rs", 0, 100),
        sym(2, "bar", "crate::mod_b::bar", "src/mod_b.rs", 0, 100),
    ];
    let edges = resolve_call_edges(&[raw("crate::mod_a::foo", "crate::mod_b::bar")], &symbols, 9);
    assert_eq!(edges.len(), 1);
    assert_eq!(edges[0].caller, 1);
    assert_eq!(edges[0].callee, 2);
}

#[test]
fn test_collect_files_skips_git_dir() {
    let parser = ParserRegistry::new();
    let paths = vec![".git/config".to_string(), "main.rs".to_string(), "notes.txt".to_string()];
    let files = collect_files(&paths, &parser);
    assert_eq!(files.len(), 1);
    assert!(files[0].ends_with("main.rs"));
}

#[test]
fn test_codebase_summary_struct() {
    let summary = CodebaseSummary { languages: vec!["rs".into(), "py".into()], total_symbols: 42, total_files: 5 };
    assert_eq!(summary.languages.len(), 2);
    assert_eq!(summary.total_symbols, 42);
    assert_eq!(summary.total_files, 5);
}

#[test]
fn registry_supports_known_extensions() {
    let r = ParserRegistry::new();
    assert!(r.supports_file("src/app.ts"));
    assert!(r.supports_file("scripts/run.sh"));
    assert!(!r.supports_file("README.md"));
    assert!(!r.supports_file(".py"));
}

#[test]
fn ast_merge_combines_edits_to_different_symbols() {
    let base = "def a():\n    return 1\n\ndef b():\n    return 2\n";
    let va = "def a():\n    return 10\n\ndef b():\n    return 2\n";
    let vb = "def a():\n    return 1\n\ndef b():\n    return 20\n";
    let spans = |src: &str| {
        let b_at = src.find("def b").unwrap() as u32;
        let len = src.len() as u32;
        vec![sym(1, "a", "a", "m.py", 0, b_at - 2), sym(2, "b", "b", "m.py", b_at, len - 1)]
    };
    let r = ast_merge_parsed(&ParserRegistry::new(), "m.py", base, va, vb, &spans(base), &spans(va), &spans(vb)).unwrap();
    assert_eq!(r.status, MergeStatus::Clean);
    assert!(r.merged_content.contains("return 10"));
    assert!(r.merged_content.contains("return 20"));
    assert!(r.conflicts.is_empty());
}

#[test]
fn ast_merge_reports_same_symbol_conflict() {
    let base = "def a():\n    return 1\n";
    let va = "def a():\n    return 2\n";
    let vb = "def a():\n    return 3\n";
    let spans = |src: &str| vec![sym(1, "a", "a", "m.py", 0, src.len() as u32 - 1)];
    let r = ast_merge_parsed(&ParserRegistry::new(), "m.py", base, va, vb, &spans(base), &spans(va), &spans(vb)).unwrap();
    assert_eq!(r.status, MergeStatus::Conflict);
    assert_eq!(r.conflicts.len(), 1);
    assert_eq!(r.conflicts[0].qualified_name, "a");
}

#[test]
fn ast_merge_with_one_side_unchanged_is_clean() {
    let base = "def a():\n    return 1\n";
    let other = "def a():\n    return 5\n\ndef c():\n    return 7\n";
    let base_spans = vec![sym(1, "a", "a", "m.py", 0, base.len() as u32 - 1)];
    let c_at = other.find("def c").unwrap() as u32;
    let other_spans = vec![sym(1, "a", "a", "m.py", 0, c_at - 2), sym(2, "c", "c", "m.py", c_at, other.len() as u32 - 1)];
    let r = ast_merge_parsed(&ParserRegistry::new(), "m.py", base, base, other, &base_spans, &base_spans, &other_spans).unwrap();
    assert_eq!(r.status, MergeStatus::Clean);
    assert!(r.conflicts.is_empty());
    assert_eq!(r.merged_content, "def a():\n    return 5\n\ndef c():\n    return 7\n");
    let r2 = ast_merge_parsed(&ParserRegistry::new(), "m.py", base, other, base, &base_spans, &other_spans, &base_spans).unwrap();
    assert_eq!(r2.status, MergeStatus::Clean);
    assert!(r2.conflicts.is_empty());
}

#[test]
fn ast_merge_refuses_unsupported_file() {
    let r = ast_merge_parsed(&ParserRegistry::new(), "notes.txt", "", "", "", &[], &[], &[]);
    assert!(matches!(r, Err(Error::UnsupportedLanguage(_))));
}

#[test]
fn payload_helpers() {
    assert_eq!(extract_signature("  fn main() {  \n body }"), "fn main() {");
    assert_eq!(line_count(""), 0);
    assert_eq!(line_count("a\nb\nc"), 3);
    assert_eq!(sanitize_for_proto("a\0b"), "ab");
}

#[test]
fn stored_labels_round_trip() {
    for k in [CallKind::DirectCall, CallKind::MethodCall, CallKind::Import, CallKind::Implements] {
        assert_eq!(parse_call_kind(call_kind_str(k)), k);
    }
    assert_eq!(parse_call_kind("unknown"), CallKind::DirectCall);
    assert_eq!(parse_symbol_kind("type_alias"), Some(SymbolKind::TypeAlias));
    assert_eq!(parse_symbol_kind("nope"), None);
    assert_eq!(parse_visibility(visibility_str(Visibility::Crate)), Some(Visibility::Crate));
    let e = CallEdgeRow { id: 1, repo_id: 2, caller_id: 3, callee_id: 4, kind: "method_call".into() }.into_call_edge();
    assert_eq!(e.kind, CallKind::MethodCall);
    assert_eq!((e.caller, e.callee), (3, 4));
}

#[test]
fn metrics_count_by_label() {
    let mut m = WorkspaceMetrics::new();
    incr_workspace_pinned(&mut m, "non_terminal");
    incr_workspace_pinned(&mut m, "non_terminal");
    incr_workspace_pinned(&mut m, "other");
    assert_eq!(workspace_pinned_total(&m), 3);
    incr_workspace_pinned(&mut m, "third");
    assert_eq!(workspace_pinned_total(&m), 4);
    set_workspace_stranded_active(&mut m, 4);
    assert_eq!(workspace_stranded_active(&m), 4);
}

#[test]
fn merge_strategy_choice() {
    assert!(matches!(choose_strategy(true, &None, "x"), Err(Error::Internal(_))));
    assert_eq!(choose_strategy(false, &None, "initial").unwrap(), MergeStrategy::InitialCommit);
    assert!(matches!(choose_strategy(false, &None, "abc"), Err(Error::Git(_))));
    assert_eq!(choose_strategy(false, &Some("abc".into()), "abc").unwrap(), MergeStrategy::FastForward);
    assert_eq!(choose_strategy(false, &Some("def".into()), "abc").unwrap(), MergeStrategy::Rebase);
}

#[test]
fn pinning_decisions() {
    assert!(pin_flag_from(None));
    assert!(!pin_flag_from(Some(" OFF ")));
    assert!(!pin_flag_from(Some("false")));
    assert!(pin_flag_from(Some("yes")));
    assert!(pin_decision(Some("submitted")));
    assert!(!pin_decision(Some("merged")));
    assert!(!pin_decision(None));
    assert_eq!(gc_action(true, true), GcAction::Skip);
    assert_eq!(gc_action(false, true), GcAction::Strand);
    assert_eq!(gc_action(true, false), GcAction::Evict);
}
