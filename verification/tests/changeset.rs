use dk_engine::changeset::{
    intent_slug, source_branch, target_branch, Changeset, ChangesetFile, ChangesetFileMeta, ChangesetState,
};
use dk_engine::domain::Error;

fn test_changeset_fixture() -> Changeset {
    Changeset {
        id: 1,
        repo_id: 2,
        number: 1,
        title: String::new(),
        intent_summary: None,
        source_branch: "agent/test".to_string(),
        target_branch: "main".to_string(),
        state: "draft".to_string(),
        reason: String::new(),
        session_id: None,
        agent_id: None,
        agent_name: None,
        author_id: None,
        base_version: None,
        merged_version: None,
        created_at: 1_700_000_000_000_000,
        updated_at: 1_700_000_000_000_000,
        merged_at: None,
        parent_changeset_id: None,
    }
}

#[test]
fn source_branch_format_uses_intent_slug() {
    let intent = "Fix UI bugs";
    let agent_name = "agent-1";
    let source_branch = format!("{}/{}", intent_slug(intent), agent_name);
    assert_eq!(source_branch, "fix-ui-bugs/agent-1");
}

#[test]
fn source_branch_format_with_custom_name() {
    let intent = "Add comments endpoint";
    let agent_name = "feature-bot";
    let source_branch = format!("{}/{}", intent_slug(intent), agent_name);
    assert_eq!(source_branch, "add-comments-endpoint/feature-bot");
}

#[test]
fn source_branch_joins_slug_and_agent() {
    assert_eq!(source_branch("Fix UI bugs", "agent-1"), "fix-ui-bugs/agent-1");
    assert_eq!(source_branch("  Hello,   World!! ", "a"), "hello----world/a");
}

#[test]
fn intent_slug_truncates_to_fifty_bytes() {
    let intent = "a".repeat(49) + " bcd";
    let slug = intent_slug(&intent);
    assert_eq!(slug, "a".repeat(49));
    let long = "word ".repeat(30);
    let slug = intent_slug(&long);
    assert!(slug.len() <= 50);
    assert!(!slug.ends_with('-'));
}

#[test]
fn target_branch_is_main() {
    let target_branch_name = "main";
    assert_eq!(target_branch_name, "main");
    assert_eq!(target_branch(), "main");
}

#[test]
fn changeset_create_shape_has_correct_branches() {
    let session_id: u128 = 77;
    let agent_id = "test-agent";
    let intent = "fix all the bugs";
    let source_branch = format!("agent/{}", agent_id);
    let cs = Changeset {
        repo_id: 5,
        title: intent.to_string(),
        intent_summary: Some(intent.to_string()),
        source_branch: source_branch.clone(),
        session_id: Some(session_id),
        agent_id: Some(agent_id.to_string()),
        agent_name: Some(agent_id.to_string()),
        base_version: Some("abc123".to_string()),
        ..test_changeset_fixture()
    };
    assert_eq!(cs.source_branch, "agent/test-agent");
    assert_eq!(cs.target_branch, "main");
    assert_eq!(cs.agent_name.as_deref(), Some("test-agent"));
    assert_eq!(cs.agent_id, cs.agent_name);
    assert!(cs.merged_at.is_none());
    assert!(cs.merged_version.is_none());
}

#[test]
fn changeset_all_fields_accessible() {
    let cs = Changeset {
        id: 10,
        repo_id: 11,
        number: 42,
        title: "test".to_string(),
        source_branch: "agent/a".to_string(),
        ..test_changeset_fixture()
    };
    assert_eq!(cs.id, 10);
    assert_eq!(cs.repo_id, 11);
    assert_eq!(cs.number, 42);
    assert_eq!(cs.title, "test");
    assert!(cs.intent_summary.is_none());
    assert!(cs.session_id.is_none());
    assert!(cs.agent_id.is_none());
    assert!(cs.agent_name.is_none());
    assert!(cs.author_id.is_none());
    assert!(cs.base_version.is_none());
    assert!(cs.merged_version.is_none());
    assert!(cs.merged_at.is_none());
}

#[test]
fn changeset_file_meta_struct() {
    let meta = ChangesetFileMeta {
        file_path: "src/main.rs".to_string(),
        operation: "modify".to_string(),
        size_bytes: 1024,
    };
    assert_eq!(meta.file_path, "src/main.rs");
    assert_eq!(meta.operation, "modify");
    assert_eq!(meta.size_bytes, 1024);
}

#[test]
fn changeset_file_struct() {
    let cf = ChangesetFile {
        changeset_id: 9,
        file_path: "lib.rs".to_string(),
        operation: "add".to_string(),
        content: Some("fn main() {}".to_string()),
    };
    assert_eq!(cf.file_path, "lib.rs");
    assert_eq!(cf.operation, "add");
    assert!(cf.content.is_some());
}

#[test]
fn changeset_clone_produces_equal_values() {
    let cs = Changeset {
        title: "clone test".to_string(),
        intent_summary: Some("intent".to_string()),
        source_branch: "agent/x".to_string(),
        agent_id: Some("x".to_string()),
        agent_name: Some("x".to_string()),
        ..test_changeset_fixture()
    };
    let cloned = cs.clone();
    assert_eq!(cs.id, cloned.id);
    assert_eq!(cs.source_branch, cloned.source_branch);
    assert_eq!(cs.target_branch, cloned.target_branch);
    assert_eq!(cs.state, cloned.state);
}

#[test]
fn is_terminal_partitions_changeset_states() {
    assert!(!ChangesetState::Submitted.is_terminal());
    assert!(!ChangesetState::Verifying.is_terminal());
    assert!(!ChangesetState::Approved.is_terminal());
    assert!(ChangesetState::Merged.is_terminal());
    assert!(ChangesetState::Rejected.is_terminal());
    assert!(ChangesetState::Closed.is_terminal());
    assert!(ChangesetState::Draft.is_terminal());
}

#[test]
fn state_labels_round_trip() {
    for s in [
        ChangesetState::Draft,
        ChangesetState::Submitted,
        ChangesetState::Verifying,
        ChangesetState::Approved,
        ChangesetState::Rejected,
        ChangesetState::Merged,
        ChangesetState::Closed,
    ] {
        assert_eq!(ChangesetState::parse(s.as_str()), Some(s));
    }
    assert_eq!(ChangesetState::parse("open"), None);
    assert_eq!(ChangesetState::Verifying.as_str(), "verifying");
}

#[test]
fn transitions_follow_the_state_machine() {
    assert!(ChangesetState::Draft.can_transition_to(ChangesetState::Submitted));
    assert!(ChangesetState::Submitted.can_transition_to(ChangesetState::Verifying));
    assert!(ChangesetState::Verifying.can_transition_to(ChangesetState::Approved));
    assert!(ChangesetState::Verifying.can_transition_to(ChangesetState::Rejected));
    assert!(ChangesetState::Approved.can_transition_to(ChangesetState::Merged));
    assert!(ChangesetState::Merged.can_transition_to(ChangesetState::Closed));
    assert!(!ChangesetState::Draft.can_transition_to(ChangesetState::Merged));
    assert!(!ChangesetState::Submitted.can_transition_to(ChangesetState::Approved));
    assert!(!ChangesetState::Rejected.can_transition_to(ChangesetState::Approved));
}

#[test]
fn transition_updates_state_and_reason() {
    let mut cs = test_changeset_fixture();
    assert!(cs.transition(ChangesetState::Submitted, "ready".to_string()).is_ok());
    assert_eq!(cs.state, "submitted");
    assert_eq!(cs.reason, "ready");
    assert_eq!(cs.parsed_state(), Some(ChangesetState::Submitted));
}

#[test]
fn transition_rejects_invalid_move() {
    let mut cs = test_changeset_fixture();
    match cs.transition(ChangesetState::Merged, "skip".to_string()) {
        Err(Error::InvalidInput(msg)) => assert_eq!(msg, "invalid state transition: 'draft' -> 'merged'"),
        other => panic!("unexpected {:?}", other),
    }
    assert_eq!(cs.state, "draft");
}

#[test]
fn transition_reports_unknown_state() {
    let mut cs = Changeset { state: "bogus".to_string(), ..test_changeset_fixture() };
    match cs.transition(ChangesetState::Closed, String::new()) {
        Err(Error::Internal(msg)) => assert_eq!(msg, "unknown current state: 'bogus'"),
        other => panic!("unexpected {:?}", other),
    }
}
