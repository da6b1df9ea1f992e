use dk_engine::conflict::claim_tracker::{AcquireOutcome, SymbolClaim};
use dk_engine::conflict::valkey_claim_tracker::{
    acquire_answer, conflicts_from_holders, lock_key, lock_key_cuts, parse_lock_key, read_lock_key, release_decision_checked, release_decision, repo_lock_keys,
    session_set_key,
};
use dk_engine::domain::SymbolKind;
use uuid::Uuid;

fn claim(session: u128, agent: &str, name: &str) -> SymbolClaim {
    SymbolClaim {
        session_id: session,
        agent_name: agent.to_string(),
        qualified_name: name.to_string(),
        kind: SymbolKind::Function,
        first_touched_at: 5,
    }
}

#[test]
fn parse_lock_key_valid() {
    let repo = Uuid::new_v4();
    let key = format!("lock:{repo}:src/lib.rs:fn_main");
    let (r, f, q) = parse_lock_key(&key).unwrap();
    assert_eq!(r, repo.as_u128());
    assert_eq!(f, "src/lib.rs");
    assert_eq!(q, "fn_main");
}

#[test]
fn parse_lock_key_nested_path() {
    let repo = Uuid::new_v4();
    let key = format!("lock:{repo}:src/api/v2/handler.rs:MyStruct::method");
    let (r, f, q) = parse_lock_key(&key).unwrap();
    assert_eq!(r, repo.as_u128());
    assert_eq!(f, "src/api/v2/handler.rs");
    assert_eq!(q, "MyStruct::method");
}

#[test]
fn parse_lock_key_invalid() {
    assert!(parse_lock_key("invalid").is_none());
    assert!(parse_lock_key("lock:").is_none());
}

#[test]
fn lock_keys_read_back() {
    let repo = Uuid::new_v4().as_u128();
    let key = lock_key(repo, "src/a.rs", "A::b");
    assert_eq!(key, format!("lock:{}:src/a.rs:A::b", Uuid::from_u128(repo)));
    assert_eq!(parse_lock_key(&key), Some((repo, "src/a.rs".to_string(), "A::b".to_string())));
    assert_eq!(session_set_key(0), "sess:00000000-0000-0000-0000-000000000000");
}

#[test]
fn conflicts_skip_own_and_missing_claims() {
    let names = vec!["a".to_string(), "b".to_string(), "c".to_string()];
    let holders = vec![Some(claim(1, "me", "a")), None, Some(claim(2, "other", "c"))];
    let conflicts = conflicts_from_holders(&names, &holders, 1);
    assert_eq!(conflicts.len(), 1);
    assert_eq!(conflicts[0].qualified_name, "c");
    assert_eq!(conflicts[0].conflicting_session, 2);
    assert_eq!(conflicts[0].conflicting_agent, "other");
}

#[test]
fn acquire_answers() {
    let c = claim(1, "me", "f");
    assert!(matches!(acquire_answer("FRESH", Err(String::new()), &c, "x.rs", 0), Ok(AcquireOutcome::Fresh)));
    assert!(matches!(acquire_answer("REACQUIRE", Err(String::new()), &c, "x.rs", 0), Ok(AcquireOutcome::ReAcquired)));
    let locked = acquire_answer("{..}", Ok(claim(2, "other", "f")), &c, "x.rs", 0).unwrap_err();
    assert_eq!(locked.locked_by_session, 2);
    assert_eq!(locked.locked_by_agent, "other");
    assert_eq!(locked.file_path, "x.rs");
    let broken = acquire_answer("garbage", Err("eof".to_string()), &c, "x.rs", 77).unwrap_err();
    assert_eq!(broken.locked_by_session, 0);
    assert_eq!(broken.locked_by_agent, "parse error: eof");
    assert_eq!(broken.locked_since, 77);
}

#[test]
fn release_keeps_foreign_locks() {
    let repo = Uuid::new_v4().as_u128();
    let k1 = lock_key(repo, "src/a.rs", "f");
    let k2 = lock_key(repo, "src/b.rs", "g");
    let other = lock_key(Uuid::new_v4().as_u128(), "src/c.rs", "h");
    let keys = repo_lock_keys(repo, &vec![k1.clone(), other, k2.clone()]);
    assert_eq!(keys, vec![k1.clone(), k2.clone()]);
    let holders = vec![Some(claim(1, "me", "f")), Some(claim(2, "other", "g"))];
    let (released, deleted) = release_decision(&keys, &holders, 1);
    assert_eq!(deleted, vec![k1]);
    assert_eq!(released.len(), 1);
    assert_eq!(released[0].file_path, "src/a.rs");
    assert_eq!(released[0].qualified_name, "f");
}

#[test]
fn lock_key_spells_the_identifier_in_hyphenated_hex() {
    let key = lock_key(0x0123456789abcdef0123456789abcdef, "a.py", "f");
    assert_eq!(key, "lock:01234567-89ab-cdef-0123-456789abcdef:a.py:f");
    assert_eq!(session_set_key(0xff), "sess:00000000-0000-0000-0000-0000000000ff");
}

#[test]
fn lock_key_cut_only_where_reading_would_slice_a_character() {
    let id = "01234567-89ab-cdef-0123-456789abcdef";
    assert!(!lock_key_cuts(&format!("lock:{id}:a.rs:f")));
    // byte 36 of the identifier continues a character
    let cut = format!("lock:{}é:a.rs:f", &id[..35]);
    assert!(lock_key_cuts(&cut));
    assert!(read_lock_key(&cut).is_none());
    // an identifier that does not parse leaves byte 37 unread
    let unread = format!("lock:{}xé:f", &id[..35]);
    assert!(!lock_key_cuts(&unread));
    assert_eq!(read_lock_key(&unread), Some(None));
    let ok = read_lock_key(&format!("lock:{id}:a.rs:f")).unwrap().unwrap();
    assert_eq!(ok.1, "a.rs");
    assert!(release_decision_checked(&vec![cut], &vec![None], 1).is_none());
}
