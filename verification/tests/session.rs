use dk_engine::conflict::claim_tracker::{AcquireOutcome, LocalClaimTracker, SymbolClaim};
use dk_engine::domain::{Error, Span, Symbol, SymbolKind, Visibility};
use dk_engine::parser::registry::{extension_of, ParserRegistry};
use dk_engine::workspace::cache::workspace_snapshot;
use dk_engine::workspace::conflict::{analyze_file_conflict_parsed, MergeAnalysis, SymbolChangeKind};
use dk_engine::workspace::merge::rebase_overlay;
use dk_engine::workspace::session_manager::{
    deadline_passed, idle_expired, lock_targets, mode_from_label, reacquire_locks, resume_decision, ResumeResult,
    ResumeRow, ResumeStep,
};
use dk_engine::tool_ops::{file_read_result, symbol_source};
use dk_engine::workspace::session_workspace::{FileReadResult, ReindexStep, SessionWorkspace, WorkspaceMode};

const REPO: u128 = 7;

fn sym(id: u128, qn: &str, path: &str, start: u32, end: u32) -> Symbol {
    Symbol {
        id,
        name: qn.to_string(),
        qualified_name: qn.to_string(),
        kind: SymbolKind::Function,
        visibility: Visibility::Public,
        file_path: path.to_string(),
        span: Span { start_byte: start, end_byte: end },
        signature: None,
        doc_comment: None,
        parent: None,
        last_modified_by: None,
        last_modified_intent: None,
    }
}

fn workspace(session: u128) -> SessionWorkspace {
    SessionWorkspace::new_test(session, REPO, "agent".to_string(), "fix".to_string(), "abc".to_string(), WorkspaceMode::Ephemeral)
}

/// The spans of the two functions `a` and `b` of a Python source.
fn two_functions(src: &str) -> Vec<Symbol> {
    let b_at = src.find("def b").unwrap() as u32;
    vec![sym(1, "a", "m.py", 0, b_at - 2), sym(2, "b", "m.py", b_at, src.len() as u32 - 1)]
}

const BASE: &str = "def a():\n    return 1\n\ndef b():\n    return 2\n";
const HEAD: &str = "def a():\n    return 10\n\ndef b():\n    return 2\n";
const OURS: &str = "def a():\n    return 1\n\ndef b():\n    return 20\n";

#[test]
fn extension_of_follows_file_names() {
    assert_eq!(extension_of("src/a.py").as_deref(), Some("py"));
    assert_eq!(extension_of("archive.tar.gz").as_deref(), Some("gz"));
    assert_eq!(extension_of(".py"), None);
    assert_eq!(extension_of("dir.d/Makefile"), None);
    assert_eq!(extension_of(""), None);
}

#[test]
fn idle_and_lifetime_expiry() {
    assert!(idle_expired(10_000, 1_000, 0, 5_000, 100_000));
    assert!(idle_expired(3_000, 1_000, 0, 5_000, 2_000));
    assert!(!idle_expired(3_000, 1_000, 0, 5_000, 5_000));
    assert!(!idle_expired(500, 1_000, 0, 5_000, 5_000));
}

#[test]
fn persistent_deadlines() {
    assert!(deadline_passed(&WorkspaceMode::Persistent { expires_at: Some(100) }, 100));
    assert!(!deadline_passed(&WorkspaceMode::Persistent { expires_at: Some(100) }, 99));
    assert!(!deadline_passed(&WorkspaceMode::Persistent { expires_at: None }, 1_000));
    assert!(!deadline_passed(&WorkspaceMode::Ephemeral, 1_000));
}

#[test]
fn mode_labels() {
    assert!(matches!(mode_from_label("persistent"), WorkspaceMode::Persistent { expires_at: None }));
    assert!(matches!(mode_from_label("ephemeral"), WorkspaceMode::Ephemeral));
    assert!(matches!(mode_from_label("other"), WorkspaceMode::Ephemeral));
}

#[test]
fn snapshot_of_new_workspace() {
    let ws = workspace(11);
    let snap = workspace_snapshot(&ws);
    assert_eq!(snap.session_id, 11);
    assert_eq!(snap.repo_id, REPO);
    assert_eq!(snap.agent_id, "agent");
    assert_eq!(snap.intent, "fix");
    assert_eq!(snap.base_commit, "abc");
    assert_eq!(snap.state, "active");
    assert_eq!(snap.mode, "ephemeral");
}

fn row() -> ResumeRow {
    ResumeRow {
        workspace_id: 1,
        repo_id: REPO,
        changeset_id: Some(3),
        agent_id: "a1".to_string(),
        intent: "fix".to_string(),
        base_commit: "abc".to_string(),
        mode: "ephemeral".to_string(),
        agent_name: "agent-1".to_string(),
        stranded: true,
        abandoned: false,
        superseded_by: None,
        changeset_state: Some("submitted".to_string()),
    }
}

#[test]
fn resume_decisions() {
    assert!(matches!(resume_decision(&None, "a1"), ResumeStep::Finish(ResumeResult::NotStranded)));
    assert!(matches!(resume_decision(&Some(row()), "a1"), ResumeStep::Rotate));
    let abandoned = ResumeRow { abandoned: true, ..row() };
    assert!(matches!(resume_decision(&Some(abandoned), "a1"), ResumeStep::Finish(ResumeResult::Abandoned)));
    let merged = ResumeRow { changeset_state: Some("merged".to_string()), ..row() };
    assert!(matches!(resume_decision(&Some(merged), "a1"), ResumeStep::Finish(ResumeResult::Abandoned)));
    let draft = ResumeRow { changeset_state: Some("draft".to_string()), ..row() };
    assert!(matches!(resume_decision(&Some(draft), "a1"), ResumeStep::Rotate));
    let closed = ResumeRow { changeset_state: Some("closed".to_string()), ..row() };
    assert!(matches!(resume_decision(&Some(closed), "a1"), ResumeStep::Finish(ResumeResult::Abandoned)));
    let draft_live = ResumeRow { stranded: false, changeset_state: Some("draft".to_string()), ..row() };
    assert!(matches!(resume_decision(&Some(draft_live), "a1"), ResumeStep::Finish(ResumeResult::NotStranded)));
    let resumed = ResumeRow { stranded: false, superseded_by: Some(5), ..row() };
    assert!(matches!(resume_decision(&Some(resumed), "a1"), ResumeStep::Finish(ResumeResult::AlreadyResumed(5))));
    let live = ResumeRow { stranded: false, ..row() };
    assert!(matches!(resume_decision(&Some(live), "a1"), ResumeStep::Finish(ResumeResult::NotStranded)));
    match resume_decision(&Some(row()), "a2") {
        ResumeStep::Refuse(Error::Internal(m)) => assert_eq!(m, "resume unauthorized: requires original agent_id 'a1'"),
        _ => panic!("expected a refusal"),
    }
}

fn claim(session: u128, agent: &str, name: &str) -> SymbolClaim {
    SymbolClaim {
        session_id: session,
        agent_name: agent.to_string(),
        qualified_name: name.to_string(),
        kind: SymbolKind::Function,
        first_touched_at: 0,
    }
}

#[test]
fn lock_targets_pair_files_with_changed_symbols() {
    let mut ws = workspace(11);
    ws.overlay.write_local("a.py", b"def foo(): pass\n".to_vec(), true);
    ws.overlay.write_local("b.txt", b"notes".to_vec(), true);
    ws.graph.add_symbol(sym(30, "foo", "a.py", 0, 15));
    let targets = lock_targets(&ws);
    assert_eq!(targets, vec![("a.py".to_string(), "foo".to_string())]);
}

#[test]
fn reacquire_takes_every_free_lock() {
    let mut tracker = LocalClaimTracker::new();
    let targets = vec![("a.py".to_string(), "foo".to_string()), ("a.py".to_string(), "bar".to_string())];
    let conflicts = reacquire_locks(&mut tracker, REPO, 11, "agent-1", &targets);
    assert!(conflicts.is_empty());
    let seen = tracker.check_conflicts(REPO, "a.py", 12, &["foo".to_string(), "bar".to_string()]);
    assert_eq!(seen.len(), 2);
    assert!(seen.iter().all(|c| c.conflicting_session == 11));
}

#[test]
fn contended_reacquire_leaves_nothing_held() {
    let mut tracker = LocalClaimTracker::new();
    assert!(matches!(tracker.acquire_lock(REPO, "a.py", claim(12, "agent-2", "bar")), Ok(AcquireOutcome::Fresh)));
    let targets = vec![("a.py".to_string(), "foo".to_string()), ("a.py".to_string(), "bar".to_string())];
    let conflicts = reacquire_locks(&mut tracker, REPO, 11, "agent-1", &targets);
    assert_eq!(conflicts.len(), 1);
    assert_eq!(conflicts[0].qualified_name, "bar");
    assert_eq!(conflicts[0].file_path, "a.py");
    assert_eq!(conflicts[0].claimant_session, 12);
    assert_eq!(conflicts[0].claimant_agent, "agent-2");
    // The lock on `foo` taken on the way was given back.
    assert!(tracker.check_conflicts(REPO, "a.py", 13, &["foo".to_string()]).is_empty());
    assert!(tracker.release_locks(REPO, 11).is_empty());
}

#[test]
fn reindex_plan_parses_supported_and_clears_deleted() {
    let mut ws = workspace(11);
    ws.overlay.write_local("a.py", b"def f(): pass\n".to_vec(), true);
    ws.overlay.write_local("notes.txt", b"hello".to_vec(), false);
    ws.overlay.delete_local("old.py");
    let (steps, stop) = ws.reindex_plan(&ParserRegistry::new());
    assert!(stop.is_none());
    let mut parsed: Vec<(String, String)> = Vec::new();
    let mut cleared: Vec<String> = Vec::new();
    for step in steps {
        match step {
            ReindexStep::Parse { path, source } => parsed.push((path, source)),
            ReindexStep::ClearFile { path } => cleared.push(path),
        }
    }
    assert_eq!(parsed, vec![("a.py".to_string(), "def f(): pass\n".to_string())]);
    assert_eq!(cleared, vec!["old.py".to_string()]);
}

#[test]
fn reindex_plan_stops_at_non_utf8_source() {
    let mut ws = workspace(11);
    ws.overlay.write_local("bad.py", vec![0x66, 0xff, 0x66], true);
    let (steps, stop) = ws.reindex_plan(&ParserRegistry::new());
    assert!(steps.is_empty());
    match stop {
        Some(Error::Internal(m)) => {
            assert_eq!(m, "reindex_from_overlay: non-utf8 in bad.py: invalid utf-8 sequence of 1 bytes from index 1")
        }
        other => panic!("unexpected {other:?}"),
    }
}

#[test]
fn overlay_for_tree_lists_content_and_deletions() {
    let mut ws = workspace(11);
    ws.overlay.write_local("a.py", b"x = 1\n".to_vec(), false);
    ws.overlay.delete_local("b.py");
    let mut items = ws.overlay_for_tree();
    items.sort();
    assert_eq!(items, vec![("a.py".to_string(), Some(b"x = 1\n".to_vec())), ("b.py".to_string(), None)]);
}

#[test]
fn file_analysis_merges_edits_to_different_symbols() {
    let parsed = Some((two_functions(BASE), two_functions(HEAD), two_functions(OURS)));
    let r = analyze_file_conflict_parsed("m.py", BASE.as_bytes(), HEAD.as_bytes(), OURS.as_bytes(), &ParserRegistry::new(), &parsed);
    match r {
        MergeAnalysis::AutoMerge { merged_content } => {
            assert_eq!(String::from_utf8(merged_content).unwrap(), "def a():\n    return 10\n\ndef b():\n    return 20\n");
        }
        MergeAnalysis::Conflict { .. } => panic!("expected an automatic merge"),
    }
}

#[test]
fn file_analysis_reports_same_symbol_edits() {
    let ours = "def a():\n    return 99\n\ndef b():\n    return 2\n";
    let parsed = Some((two_functions(BASE), two_functions(HEAD), two_functions(ours)));
    let r = analyze_file_conflict_parsed("m.py", BASE.as_bytes(), HEAD.as_bytes(), ours.as_bytes(), &ParserRegistry::new(), &parsed);
    match r {
        MergeAnalysis::Conflict { conflicts } => {
            assert_eq!(conflicts.len(), 1);
            assert_eq!(conflicts[0].file_path, "m.py");
            assert_eq!(conflicts[0].symbol_name, "a");
            assert_eq!(conflicts[0].our_change, SymbolChangeKind::Modified);
            assert_eq!(conflicts[0].their_change, SymbolChangeKind::Modified);
        }
        MergeAnalysis::AutoMerge { .. } => panic!("expected a conflict"),
    }
}

#[test]
fn file_analysis_without_symbols_compares_bytes() {
    let r = analyze_file_conflict_parsed("m.py", b"one", b"two", b"two", &ParserRegistry::new(), &None);
    assert!(matches!(r, MergeAnalysis::AutoMerge { .. }));
    let r = analyze_file_conflict_parsed("m.py", b"one", b"two", b"three", &ParserRegistry::new(), &None);
    assert!(matches!(r, MergeAnalysis::Conflict { .. }));
}

#[test]
fn rebase_merges_and_carries_unchanged_files() {
    let overlay = vec![
        ("m.py".to_string(), Some(OURS.as_bytes().to_vec())),
        ("gone.txt".to_string(), None),
        ("new.txt".to_string(), Some(b"x".to_vec())),
    ];
    let base = vec![Some(BASE.as_bytes().to_vec()), Some(b"old".to_vec()), None];
    let head = vec![Some(HEAD.as_bytes().to_vec()), Some(b"old".to_vec()), None];
    let parsed = vec![Some((two_functions(BASE), two_functions(HEAD), two_functions(OURS))), None, None];
    let plan = rebase_overlay(&overlay, &base, &head, &parsed, &ParserRegistry::new());
    assert!(plan.conflicts.is_empty());
    assert_eq!(plan.auto_rebased, vec!["m.py".to_string()]);
    assert_eq!(
        plan.rebased_overlay,
        vec![
            ("m.py".to_string(), Some(b"def a():\n    return 10\n\ndef b():\n    return 20\n".to_vec())),
            ("gone.txt".to_string(), None),
            ("new.txt".to_string(), Some(b"x".to_vec())),
        ]
    );
}

#[test]
fn rebase_reports_whole_file_conflicts() {
    let overlay = vec![("gone.txt".to_string(), None), ("both.txt".to_string(), Some(b"mine".to_vec()))];
    let base = vec![Some(b"old".to_vec()), None];
    let head = vec![Some(b"changed".to_vec()), Some(b"theirs".to_vec())];
    let parsed = vec![None, None];
    let plan = rebase_overlay(&overlay, &base, &head, &parsed, &ParserRegistry::new());
    assert_eq!(plan.conflicts.len(), 2);
    assert_eq!(plan.conflicts[0].symbol_name, "<entire file>");
    assert_eq!(plan.conflicts[0].our_change, SymbolChangeKind::Removed);
    assert_eq!(plan.conflicts[0].their_change, SymbolChangeKind::Modified);
    assert_eq!(plan.conflicts[1].file_path, "both.txt");
    assert_eq!(plan.conflicts[1].our_change, SymbolChangeKind::Added);
    assert_eq!(plan.conflicts[1].their_change, SymbolChangeKind::Added);
}

#[test]
fn invalid_bytes_read_with_replacement_characters() {
    let r = file_read_result(FileReadResult { content: vec![0x61, 0xff, 0x62], hash: "h".to_string(), modified_in_session: true });
    assert_eq!(r.content, "a\u{FFFD}b");
    assert_eq!(r.hash, "h");
    assert!(r.modified_in_session);
    let src = Some(vec![0x78, 0x20, 0xc3, 0x28, 0x79]);
    assert_eq!(symbol_source(&src, 1, 5).as_deref(), Some(" \u{FFFD}(y"));
    assert_eq!(symbol_source(&src, 0, 6), None);
    assert_eq!(symbol_source(&None, 0, 1), None);
}
