use dk_engine::conflict::claim_tracker::{AcquireOutcome, LocalClaimTracker, SymbolClaim};
use dk_engine::domain::SymbolKind;

fn make_claim(session_id: u128, agent: &str, name: &str, kind: SymbolKind) -> SymbolClaim {
    SymbolClaim {
        session_id,
        agent_name: agent.to_string(),
        qualified_name: name.to_string(),
        kind,
        first_touched_at: 1_700_000_000_000,
    }
}

const REPO: u128 = 0x11;
const SESSION_A: u128 = 0xa;
const SESSION_B: u128 = 0xb;

#[test]
fn no_conflict_different_symbols_same_file() {
    let mut tracker = LocalClaimTracker::new();
    tracker.record_claim(REPO, "src/lib.rs", make_claim(SESSION_A, "agent-1", "fn_a", SymbolKind::Function));
    let conflicts = tracker.check_conflicts(REPO, "src/lib.rs", SESSION_B, &["fn_b".to_string()]);
    assert!(conflicts.is_empty(), "different symbols should not conflict");
}

#[test]
fn conflict_same_symbol() {
    let mut tracker = LocalClaimTracker::new();
    tracker.record_claim(REPO, "src/lib.rs", make_claim(SESSION_A, "agent-1", "fn_a", SymbolKind::Function));
    let conflicts = tracker.check_conflicts(REPO, "src/lib.rs", SESSION_B, &["fn_a".to_string()]);
    assert_eq!(conflicts.len(), 1);
    assert_eq!(conflicts[0].qualified_name, "fn_a");
    assert_eq!(conflicts[0].conflicting_session, SESSION_A);
    assert_eq!(conflicts[0].conflicting_agent, "agent-1");
}

#[test]
fn claims_cleared_on_session_destroy() {
    let mut tracker = LocalClaimTracker::new();
    tracker.record_claim(REPO, "src/lib.rs", make_claim(SESSION_A, "agent-1", "fn_a", SymbolKind::Function));
    tracker.clear_session(SESSION_A);
    let conflicts = tracker.check_conflicts(REPO, "src/lib.rs", SESSION_B, &["fn_a".to_string()]);
    assert!(conflicts.is_empty(), "cleared session should not cause conflicts");
}

#[test]
fn same_session_no_self_conflict() {
    let mut tracker = LocalClaimTracker::new();
    tracker.record_claim(REPO, "src/lib.rs", make_claim(SESSION_A, "agent-1", "fn_a", SymbolKind::Function));
    tracker.record_claim(REPO, "src/lib.rs", make_claim(SESSION_A, "agent-1", "fn_a", SymbolKind::Function));
    let conflicts = tracker.check_conflicts(REPO, "src/lib.rs", SESSION_A, &["fn_a".to_string()]);
    assert!(conflicts.is_empty(), "same session should not conflict with itself");
}

#[test]
fn multiple_conflicts() {
    let mut tracker = LocalClaimTracker::new();
    tracker.record_claim(REPO, "src/lib.rs", make_claim(SESSION_A, "agent-1", "fn_a", SymbolKind::Function));
    tracker.record_claim(REPO, "src/lib.rs", make_claim(SESSION_A, "agent-1", "fn_b", SymbolKind::Function));
    let conflicts = tracker.check_conflicts(
        REPO,
        "src/lib.rs",
        SESSION_B,
        &["fn_a".to_string(), "fn_b".to_string()],
    );
    assert_eq!(conflicts.len(), 2);
    let names: Vec<&str> = conflicts.iter().map(|c| c.qualified_name.as_str()).collect();
    assert!(names.contains(&"fn_a"));
    assert!(names.contains(&"fn_b"));
}

#[test]
fn acquire_lock_unclaimed_succeeds() {
    let mut tracker = LocalClaimTracker::new();
    let result = tracker.acquire_lock(REPO, "src/lib.rs", make_claim(SESSION_A, "agent-1", "fn_a", SymbolKind::Function));
    assert!(matches!(result, Ok(AcquireOutcome::Fresh)));
}

#[test]
fn acquire_lock_same_session_succeeds() {
    let mut tracker = LocalClaimTracker::new();
    tracker
        .acquire_lock(REPO, "src/lib.rs", make_claim(SESSION_A, "agent-1", "fn_a", SymbolKind::Function))
        .unwrap();
    let result = tracker.acquire_lock(REPO, "src/lib.rs", make_claim(SESSION_A, "agent-1", "fn_a", SymbolKind::Function));
    assert!(matches!(result, Ok(AcquireOutcome::ReAcquired)));
}

#[test]
fn acquire_lock_cross_session_blocked() {
    let mut tracker = LocalClaimTracker::new();
    tracker
        .acquire_lock(REPO, "src/lib.rs", make_claim(SESSION_A, "agent-1", "fn_a", SymbolKind::Function))
        .unwrap();
    let result = tracker.acquire_lock(REPO, "src/lib.rs", make_claim(SESSION_B, "agent-2", "fn_a", SymbolKind::Function));
    assert!(result.is_err());
    let locked = result.unwrap_err();
    assert_eq!(locked.qualified_name, "fn_a");
    assert_eq!(locked.locked_by_session, SESSION_A);
    assert_eq!(locked.locked_by_agent, "agent-1");
    assert_eq!(locked.file_path, "src/lib.rs");
}

#[test]
fn acquire_lock_different_symbols_same_file() {
    let mut tracker = LocalClaimTracker::new();
    tracker
        .acquire_lock(REPO, "src/lib.rs", make_claim(SESSION_A, "agent-1", "fn_a", SymbolKind::Function))
        .unwrap();
    let result = tracker.acquire_lock(REPO, "src/lib.rs", make_claim(SESSION_B, "agent-2", "fn_b", SymbolKind::Function));
    assert!(result.is_ok());
}

#[test]
fn release_lock_single_symbol() {
    let mut tracker = LocalClaimTracker::new();
    tracker
        .acquire_lock(REPO, "src/lib.rs", make_claim(SESSION_A, "agent-1", "fn_a", SymbolKind::Function))
        .unwrap();
    tracker.release_lock(REPO, "src/lib.rs", SESSION_A, "fn_a");
    let result = tracker.acquire_lock(REPO, "src/lib.rs", make_claim(SESSION_B, "agent-2", "fn_a", SymbolKind::Function));
    assert!(result.is_ok());
}

#[test]
fn release_lock_cleans_empty_entries() {
    let mut tracker = LocalClaimTracker::new();
    tracker
        .acquire_lock(REPO, "src/lib.rs", make_claim(SESSION_A, "agent-1", "fn_a", SymbolKind::Function))
        .unwrap();
    tracker.release_lock(REPO, "src/lib.rs", SESSION_A, "fn_a");
    assert!(!tracker.has_claims_on(REPO, "src/lib.rs"));
}

#[test]
fn release_locks_returns_released_entries() {
    let mut tracker = LocalClaimTracker::new();
    tracker
        .acquire_lock(REPO, "src/lib.rs", make_claim(SESSION_A, "agent-1", "fn_a", SymbolKind::Function))
        .unwrap();
    tracker
        .acquire_lock(REPO, "src/api.rs", make_claim(SESSION_A, "agent-1", "handler", SymbolKind::Function))
        .unwrap();
    let released = tracker.release_locks(REPO, SESSION_A);
    assert_eq!(released.len(), 2);
    let names: Vec<&str> = released.iter().map(|r| r.qualified_name.as_str()).collect();
    assert!(names.contains(&"fn_a"));
    assert!(names.contains(&"handler"));
}

#[test]
fn release_locks_unblocks_other_session() {
    let mut tracker = LocalClaimTracker::new();
    tracker
        .acquire_lock(REPO, "src/lib.rs", make_claim(SESSION_A, "agent-1", "fn_a", SymbolKind::Function))
        .unwrap();
    assert!(tracker
        .acquire_lock(REPO, "src/lib.rs", make_claim(SESSION_B, "agent-2", "fn_a", SymbolKind::Function))
        .is_err());
    tracker.release_locks(REPO, SESSION_A);
    assert!(tracker
        .acquire_lock(REPO, "src/lib.rs", make_claim(SESSION_B, "agent-2", "fn_a", SymbolKind::Function))
        .is_ok());
}

#[test]
fn release_locks_keeps_other_repos() {
    let mut tracker = LocalClaimTracker::new();
    tracker
        .acquire_lock(REPO, "src/lib.rs", make_claim(SESSION_A, "agent-1", "fn_a", SymbolKind::Function))
        .unwrap();
    tracker
        .acquire_lock(0x22, "src/lib.rs", make_claim(SESSION_A, "agent-1", "fn_a", SymbolKind::Function))
        .unwrap();
    let released = tracker.release_locks(REPO, SESSION_A);
    assert_eq!(released.len(), 1);
    assert!(tracker.has_claims_on(0x22, "src/lib.rs"));
    assert!(!tracker.has_claims_on(REPO, "src/lib.rs"));
}

#[test]
fn release_lock_by_other_session_keeps_lock() {
    let mut tracker = LocalClaimTracker::new();
    tracker
        .acquire_lock(REPO, "src/lib.rs", make_claim(SESSION_A, "agent-1", "fn_a", SymbolKind::Function))
        .unwrap();
    tracker.release_lock(REPO, "src/lib.rs", SESSION_B, "fn_a");
    assert!(tracker
        .acquire_lock(REPO, "src/lib.rs", make_claim(SESSION_B, "agent-2", "fn_a", SymbolKind::Function))
        .is_err());
}

#[test]
fn conflicts_for_session_lists_foreign_claims() {
    let mut tracker = LocalClaimTracker::new();
    tracker.record_claim(REPO, "src/lib.rs", make_claim(SESSION_A, "agent-1", "fn_a", SymbolKind::Function));
    tracker.record_claim(REPO, "src/lib.rs", make_claim(SESSION_B, "agent-2", "fn_a", SymbolKind::Function));
    tracker.record_claim(REPO, "src/other.rs", make_claim(SESSION_B, "agent-2", "fn_c", SymbolKind::Function));
    let conflicts = tracker.get_all_conflicts_for_session(REPO, SESSION_B);
    assert_eq!(conflicts.len(), 1);
    assert_eq!(conflicts[0].0, "src/lib.rs");
    assert_eq!(conflicts[0].1.conflicting_session, SESSION_A);
}
