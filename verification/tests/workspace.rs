use std::collections::HashMap;

use dk_engine::domain::{CallEdge, CallKind, Span, Symbol, SymbolKind, Visibility};
use dk_engine::workspace::conflict::{byte_level_analysis, infer_change_kind, MergeAnalysis, SymbolChangeKind};
use dk_engine::workspace::overlay::{FileOverlay, OverlayEntry};
use dk_engine::workspace::session_graph::{SessionGraph, SharedBase};
use dk_engine::workspace::session_manager::{join_notes, peer_modifier_note, session_info, AgentCounters, SessionInfo};
use dk_engine::workspace::session_workspace::{SessionWorkspace, WorkspaceMode};

fn make_symbol(id: u128, name: &str) -> Symbol {
    Symbol {
        id,
        name: name.to_string(),
        qualified_name: name.to_string(),
        kind: SymbolKind::Function,
        visibility: Visibility::Public,
        file_path: "test.rs".to_string(),
        span: Span { start_byte: 0, end_byte: 10 },
        signature: None,
        doc_comment: None,
        parent: None,
        last_modified_by: None,
        last_modified_intent: None,
    }
}

// ── byte-level merge analysis ──

#[test]
fn byte_level_no_conflict_when_only_overlay_changed() {
    let base = b"base content";
    let head = b"base content";
    let overlay = b"overlay content";
    match byte_level_analysis("test.txt", base, head, overlay) {
        MergeAnalysis::AutoMerge { merged_content } => assert_eq!(merged_content, overlay.to_vec()),
        MergeAnalysis::Conflict { .. } => panic!("expected auto-merge"),
    }
}

#[test]
fn byte_level_no_conflict_when_only_head_changed() {
    let base = b"base content";
    let head = b"head content";
    let overlay = b"base content";
    match byte_level_analysis("test.txt", base, head, overlay) {
        MergeAnalysis::AutoMerge { merged_content } => assert_eq!(merged_content, head.to_vec()),
        MergeAnalysis::Conflict { .. } => panic!("expected auto-merge"),
    }
}

#[test]
fn byte_level_conflict_when_both_changed_differently() {
    let base = b"base content";
    let head = b"head content";
    let overlay = b"overlay content";
    match byte_level_analysis("test.txt", base, head, overlay) {
        MergeAnalysis::Conflict { conflicts } => {
            assert_eq!(conflicts.len(), 1);
            assert_eq!(conflicts[0].symbol_name, "<entire file>");
        }
        MergeAnalysis::AutoMerge { .. } => panic!("expected conflict"),
    }
}

#[test]
fn byte_level_no_conflict_when_both_changed_identically() {
    let base = b"base content";
    let same = b"same content";
    match byte_level_analysis("test.txt", base, same, same) {
        MergeAnalysis::AutoMerge { .. } => {}
        MergeAnalysis::Conflict { .. } => panic!("expected auto-merge"),
    }
}

#[test]
fn infer_change_kind_added() {
    assert_eq!(infer_change_kind("", "fn new() {}"), SymbolChangeKind::Added);
}

#[test]
fn infer_change_kind_removed() {
    assert_eq!(infer_change_kind("fn old() {}", ""), SymbolChangeKind::Removed);
}

#[test]
fn infer_change_kind_modified() {
    assert_eq!(infer_change_kind("fn foo() { 1 }", "fn foo() { 2 }"), SymbolChangeKind::Modified);
}

#[test]
fn infer_change_kind_both_empty() {
    assert_eq!(infer_change_kind("", ""), SymbolChangeKind::Modified);
}

// ── overlay ──

#[test]
fn overlay_entry_content_and_hash() {
    let entry = OverlayEntry::Modified { content: b"hello".to_vec(), hash: "abc".into() };
    assert_eq!(entry.content(), Some(b"hello".as_slice()));
    assert_eq!(entry.hash(), Some("abc"));
    let deleted = OverlayEntry::Deleted;
    assert!(deleted.content().is_none());
    assert!(deleted.hash().is_none());
}

#[test]
fn overlay_entry_change_type() {
    assert_eq!(OverlayEntry::Modified { content: vec![], hash: String::new() }.change_type_str(), "modified");
    assert_eq!(OverlayEntry::Added { content: vec![], hash: String::new() }.change_type_str(), "added");
    assert_eq!(OverlayEntry::Deleted.change_type_str(), "deleted");
}

#[test]
fn overlay_entry_from_row() {
    let e = OverlayEntry::from_row(b"x".to_vec(), "h".to_string(), "added");
    assert_eq!(e.change_type_str(), "added");
    let e = OverlayEntry::from_row(vec![], String::new(), "deleted");
    assert_eq!(e.change_type_str(), "deleted");
    let e = OverlayEntry::from_row(b"y".to_vec(), "h".to_string(), "modified");
    assert_eq!(e.content(), Some(b"y".as_slice()));
}

#[test]
fn content_hash_is_sha256_hex() {
    let (_, h) = FileOverlay::entry_for_write(b"hello".to_vec(), false);
    assert_eq!(h, "2cf24dba5fb0a30e26e83b2ac5b9e29e1b161e5c1fa7425e73043362938b9824");
    let (_, h) = FileOverlay::entry_for_write(Vec::new(), true);
    assert_eq!(h, "e3b0c44298fc1c149afbf4c8996fb92427ae41e4649b934ca495991b7852b855");
    let base = SessionWorkspace::base_read(b"hello".to_vec());
    assert_eq!(base.hash, "2cf24dba5fb0a30e26e83b2ac5b9e29e1b161e5c1fa7425e73043362938b9824");
}

#[test]
fn overlay_read_after_write() {
    let mut ov = FileOverlay::new(7);
    let h = ov.write_local("src/lib.rs", b"hello".to_vec(), true);
    assert_eq!(h, "2cf24dba5fb0a30e26e83b2ac5b9e29e1b161e5c1fa7425e73043362938b9824");
    let got = ov.get("src/lib.rs").unwrap();
    assert_eq!(got.content(), Some(b"hello".as_slice()));
    assert_eq!(got.hash(), Some(h.as_str()));
    assert_eq!(got.change_type_str(), "added");
    assert_eq!(ov.workspace_id(), 7);
    assert_eq!(ov.len(), 1);
    assert_eq!(ov.total_bytes(), 5);
}

#[test]
fn overlay_delete_and_revert() {
    let mut ov = FileOverlay::new(1);
    ov.write_local("a.rs", b"one".to_vec(), false);
    ov.delete_local("a.rs");
    assert_eq!(ov.get("a.rs").unwrap().change_type_str(), "deleted");
    assert_eq!(ov.total_bytes(), 0);
    ov.revert_local("a.rs");
    assert!(ov.get("a.rs").is_none());
    assert!(ov.is_empty());
}

#[test]
fn overlay_lists_each_path_once() {
    let mut ov = FileOverlay::new(1);
    ov.write_local("a.rs", b"1".to_vec(), false);
    ov.write_local("b.rs", b"2".to_vec(), true);
    ov.write_local("a.rs", b"3".to_vec(), false);
    let mut paths = ov.list_paths();
    paths.sort();
    assert_eq!(paths, vec!["a.rs".to_string(), "b.rs".to_string()]);
    assert_eq!(ov.list_changes().len(), 2);
}

// ── session graph ──

#[test]
fn empty_graph_returns_none() {
    let g = SessionGraph::empty();
    assert!(g.get_symbol(42).is_none());
}

#[test]
fn add_and_get_symbol() {
    let mut g = SessionGraph::empty();
    g.add_symbol(make_symbol(1, "foo"));
    assert!(g.get_symbol(1).is_some());
    assert_eq!(g.get_symbol(1).unwrap().name, "foo");
}

#[test]
fn remove_added_symbol() {
    let mut g = SessionGraph::empty();
    g.add_symbol(make_symbol(2, "bar"));
    g.remove_symbol(2);
    assert!(g.get_symbol(2).is_none());
}

#[test]
fn modify_added_symbol_updates_in_place() {
    let mut g = SessionGraph::empty();
    let mut sym = make_symbol(3, "baz");
    g.add_symbol(sym.clone());
    sym.name = "baz_v2".to_string();
    g.modify_symbol(sym);
    let got = g.get_symbol(3).unwrap();
    assert_eq!(got.name, "baz_v2");
}

#[test]
fn fork_from_base_lookup() {
    let mut base = HashMap::new();
    base.insert(4, make_symbol(4, "base_fn"));
    let g = SessionGraph::fork_from(SharedBase::new(base));
    assert!(g.get_symbol(4).is_some());
    assert_eq!(g.get_symbol(4).unwrap().name, "base_fn");
}

#[test]
fn remove_base_symbol_hides_it() {
    let mut base = HashMap::new();
    base.insert(5, make_symbol(5, "base_fn"));
    let mut g = SessionGraph::fork_from(SharedBase::new(base));
    g.remove_symbol(5);
    assert!(g.get_symbol(5).is_none());
}

#[test]
fn changed_symbol_names_collects_all() {
    let mut base = HashMap::new();
    base.insert(6, make_symbol(6, "removed_fn"));
    base.insert(7, make_symbol(7, "modified_fn"));
    let mut g = SessionGraph::fork_from(SharedBase::new(base));
    g.add_symbol(make_symbol(8, "added_fn"));
    g.modify_symbol(make_symbol(7, "modified_fn"));
    g.remove_symbol(6);
    let names = g.changed_symbol_names();
    assert!(names.contains(&"added_fn".to_string()));
    assert!(names.contains(&"modified_fn".to_string()));
    assert!(names.contains(&"removed_fn".to_string()));
}

#[test]
fn change_count() {
    let mut g = SessionGraph::empty();
    assert_eq!(g.change_count(), 0);
    g.add_symbol(make_symbol(9, "a"));
    assert_eq!(g.change_count(), 1);
}

#[test]
fn changed_symbols_for_file_filters_by_path() {
    let mut g = SessionGraph::empty();
    let mut sym1 = make_symbol(10, "create_task");
    sym1.file_path = "src/tasks.rs".to_string();
    g.add_symbol(sym1);
    let mut sym2 = make_symbol(11, "delete_task");
    sym2.file_path = "src/tasks.rs".to_string();
    g.add_symbol(sym2);
    let mut sym3 = make_symbol(12, "run_server");
    sym3.file_path = "src/main.rs".to_string();
    g.add_symbol(sym3);
    let task_syms = g.changed_symbols_for_file("src/tasks.rs");
    assert_eq!(task_syms.len(), 2);
    assert!(task_syms.contains(&"create_task".to_string()));
    assert!(task_syms.contains(&"delete_task".to_string()));
    let main_syms = g.changed_symbols_for_file("src/main.rs");
    assert_eq!(main_syms.len(), 1);
    assert!(main_syms.contains(&"run_server".to_string()));
}

#[test]
fn snapshot_round_trip_keeps_delta() {
    let mut g = SessionGraph::empty();
    g.add_symbol(make_symbol(20, "x"));
    let snap = g.to_snapshot();
    let g2 = SessionGraph::from_snapshot(snap);
    assert_eq!(g2.get_symbol(20).unwrap().name, "x");
    assert_eq!(g2.change_count(), 1);
}

#[test]
fn snapshot_round_trip_keeps_every_kind_of_change() {
    let mut base = HashMap::new();
    base.insert(1u128, make_symbol(1, "old"));
    base.insert(2u128, make_symbol(2, "gone"));
    let mut g = SessionGraph::fork_from(SharedBase::new(base));
    g.add_symbol(make_symbol(20, "x"));
    g.modify_symbol(make_symbol(1, "changed"));
    g.remove_symbol(2);
    g.add_edge(CallEdge { id: 7, repo_id: 9, caller: 20, callee: 1, kind: CallKind::DirectCall });
    g.remove_edge(8);
    let g2 = SessionGraph::from_snapshot(g.to_snapshot());
    assert_eq!(g2.get_symbol(20).unwrap().name, "x");
    assert_eq!(g2.get_symbol(1).unwrap().name, "changed");
    assert!(g2.get_symbol(2).is_none());
    assert_eq!(g2.get_edge(7).unwrap().callee, 1);
    assert!(g2.is_edge_removed(8));
    assert_eq!(g2.change_count(), g.change_count());
    let mut names = g2.changed_symbol_names();
    names.sort();
    let mut expected = g.changed_symbol_names();
    expected.sort();
    assert_eq!(names, expected);
}

// ── session manager ──

#[test]
fn session_info_clone_preserves_values() {
    let info = SessionInfo {
        session_id: 1,
        agent_id: "agent-1".to_string(),
        agent_name: "feature-bot".to_string(),
        intent: "deploy".to_string(),
        repo_id: 2,
        changeset_id: 3,
        state: "active".to_string(),
        elapsed_secs: 5,
    };
    let cloned = info.clone();
    assert_eq!(info.session_id, cloned.session_id);
    assert_eq!(info.agent_id, cloned.agent_id);
    assert_eq!(info.agent_name, cloned.agent_name);
    assert_eq!(info.intent, cloned.intent);
    assert_eq!(info.repo_id, cloned.repo_id);
    assert_eq!(info.changeset_id, cloned.changeset_id);
    assert_eq!(info.state, cloned.state);
    assert_eq!(info.elapsed_secs, cloned.elapsed_secs);
}

#[test]
fn next_agent_name_increments_per_repo() {
    let mut counters = AgentCounters::new();
    let repo1: u128 = 100;
    let repo2: u128 = 200;
    assert_eq!(counters.next_agent_name(repo1), "agent-1");
    assert_eq!(counters.next_agent_name(repo1), "agent-2");
    assert_eq!(counters.next_agent_name(repo1), "agent-3");
    assert_eq!(counters.next_agent_name(repo2), "agent-1");
    assert_eq!(counters.next_agent_name(repo2), "agent-2");
    assert_eq!(counters.next_agent_name(repo1), "agent-4");
    assert_eq!(counters.issued_count(repo1), 4);
    assert_eq!(counters.issued_count(repo2), 2);
    assert_eq!(counters.issued_count(300), 0);
}

fn describe_other_modifiers(peers: &[SessionWorkspace], file_path: &str, repo_id: u128, session_id: u128) -> String {
    let notes: Vec<String> = peers
        .iter()
        .filter_map(|ws| peer_modifier_note(ws, file_path, repo_id, session_id))
        .collect();
    join_notes(&notes)
}

#[test]
fn describe_other_modifiers_empty_when_no_other_sessions() {
    let result = describe_other_modifiers(&[], "src/lib.rs", 1, 2);
    assert!(result.is_empty());
}

#[test]
fn describe_other_modifiers_shows_agent_name() {
    let repo_id: u128 = 0x77;
    let session1: u128 = 1;
    let session2: u128 = 2;
    let mut ws2 = SessionWorkspace::new_test(
        session2,
        repo_id,
        "agent-2-id".to_string(),
        "fix bug".to_string(),
        "abc123".to_string(),
        WorkspaceMode::Ephemeral,
    );
    ws2.agent_name = "agent-2".to_string();
    ws2.overlay.write_local("src/lib.rs", b"content".to_vec(), false);
    let peers = vec![ws2];
    assert_eq!(describe_other_modifiers(&peers, "src/lib.rs", repo_id, session1), "modified by agent-2");
    assert!(describe_other_modifiers(&peers, "src/other.rs", repo_id, session1).is_empty());
    assert!(describe_other_modifiers(&peers, "src/lib.rs", repo_id, session2).is_empty());
}

#[test]
fn describe_other_modifiers_includes_symbols() {
    let repo_id: u128 = 0x78;
    let mut ws2 = SessionWorkspace::new_test(
        2,
        repo_id,
        "agent-2-id".to_string(),
        "add feature".to_string(),
        "abc123".to_string(),
        WorkspaceMode::Ephemeral,
    );
    ws2.agent_name = "agent-2".to_string();
    ws2.overlay.write_local("src/tasks.rs", b"fn create_task() {}".to_vec(), true);
    let mut sym = make_symbol(30, "create_task");
    sym.file_path = "src/tasks.rs".to_string();
    ws2.graph.add_symbol(sym);
    let result = describe_other_modifiers(&[ws2], "src/tasks.rs", repo_id, 1);
    assert_eq!(result, "create_task modified by agent-2");
}

#[test]
fn session_info_reports_workspace() {
    let mut ws = SessionWorkspace::new_test(
        5,
        6,
        "agent-id".to_string(),
        "refactor".to_string(),
        "base".to_string(),
        WorkspaceMode::Ephemeral,
    );
    ws.agent_name = "agent-9".to_string();
    let now = ws.created_at + 42_500;
    let info = session_info(&ws, now);
    assert_eq!(info.session_id, 5);
    assert_eq!(info.repo_id, 6);
    assert_eq!(info.agent_name, "agent-9");
    assert_eq!(info.intent, "refactor");
    assert_eq!(info.state, "active");
    assert_eq!(info.elapsed_secs, 42);
}

// ── session workspace ──

#[test]
fn read_overlay_reports_deleted_files() {
    let mut ws = SessionWorkspace::new_test(1, 2, "a".to_string(), "i".to_string(), "b".to_string(), WorkspaceMode::Ephemeral);
    assert!(ws.read_overlay("x.rs").is_none());
    ws.overlay.write_local("x.rs", b"abc".to_vec(), false);
    let r = ws.read_overlay("x.rs").unwrap().unwrap();
    assert_eq!(r.content, b"abc".to_vec());
    assert!(r.modified_in_session);
    ws.overlay.delete_local("x.rs");
    assert!(ws.read_overlay("x.rs").unwrap().is_err());
}

#[test]
fn list_files_merges_overlay_and_base() {
    let mut ws = SessionWorkspace::new_test(1, 2, "a".to_string(), "i".to_string(), "b".to_string(), WorkspaceMode::Ephemeral);
    ws.overlay.write_local("src/new.rs", b"n".to_vec(), true);
    ws.overlay.delete_local("src/old.rs");
    let base = vec!["src/old.rs".to_string(), "src/keep.rs".to_string(), "README.md".to_string()];
    let all = ws.list_files(&base, false, None);
    assert_eq!(all, vec!["README.md".to_string(), "src/keep.rs".to_string(), "src/new.rs".to_string()]);
    let src_only = ws.list_files(&base, false, Some("src/"));
    assert_eq!(src_only, vec!["src/keep.rs".to_string(), "src/new.rs".to_string()]);
    let mut modified = ws.list_files(&base, true, None);
    modified.sort();
    assert_eq!(modified, vec!["src/new.rs".to_string(), "src/old.rs".to_string()]);
}
