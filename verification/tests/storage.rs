use auth::errors::AppError;
use auth::storage::{AppState, TokenStore, UserStore};

#[test]
fn token_store_persists_and_reads_tokens() {
    let mut store = TokenStore::new();
    store.save_token("abc", "alice", "access", "jti-abc");

    assert!(store.has_token("abc"));
    assert_eq!(store.get_user_id("abc").as_deref(), Some("alice"));
}

#[test]
fn token_store_replaces_and_revokes_tokens_for_user() {
    let mut store = TokenStore::new();
    store.save_token("old-access", "alice", "access", "old-jti-access");
    store.save_token("old-refresh", "alice", "refresh", "old-jti-refresh");

    store.revoke_user_tokens("alice");
    assert!(!store.has_token("old-access"));
    assert!(!store.has_token("old-refresh"));

    store
        .replace_token_for_user("new-access", "alice", "access", "new-jti-access")
        .unwrap();
    assert!(store.has_token("new-access"));
    assert!(!store.has_token("old-access"));
}

#[test]
fn token_store_invalidates_token_without_deleting_other_tokens() {
    let mut store = TokenStore::new();
    store.save_token("token-a", "alice", "access", "jti-a");
    store.save_token("token-b", "alice", "refresh", "jti-b");

    store.invalidate_token("token-a");

    assert!(!store.has_token("token-a"));
    assert!(store.has_token("token-b"));
}

#[test]
fn token_store_save_replaces_same_token_or_jti() {
    let mut store = TokenStore::new();
    store.save_token("t1", "alice", "access", "j1");
    store.save_token("t1", "bob", "access", "j2");
    assert_eq!(store.get_user_id("t1").as_deref(), Some("bob"));
    store.save_token("t2", "carol", "access", "j2");
    assert!(!store.has_token("t1"));
    assert_eq!(store.get_user_id("t2").as_deref(), Some("carol"));
}

#[test]
fn token_store_replace_keeps_other_kinds_and_users() {
    let mut store = TokenStore::new();
    store.save_token("a1", "alice", "access", "ja1");
    store.save_token("r1", "alice", "refresh", "jr1");
    store.save_token("b1", "bob", "access", "jb1");
    store.replace_token_for_user("a2", "alice", "access", "ja2").unwrap();
    assert!(!store.has_token("a1"));
    assert!(store.has_token("a2"));
    assert!(store.has_token("r1"));
    assert!(store.has_token("b1"));
}

#[test]
fn token_store_replace_conflicts() {
    let mut store = TokenStore::new();
    store.save_token("b1", "bob", "access", "jb1");
    store.save_token("a1", "alice", "access", "ja1");
    match store.replace_token_for_user("b1", "alice", "access", "new") {
        Err(AppError::Database(m)) => assert_eq!(m, "UNIQUE constraint failed: tokens.token"),
        other => panic!("unexpected {:?}", other),
    }
    // the deletion of alice's access token stands
    assert!(!store.has_token("a1"));
    assert!(store.has_token("b1"));
    match store.replace_token_for_user("a3", "alice", "access", "jb1") {
        Err(AppError::Database(m)) => assert_eq!(m, "UNIQUE constraint failed: tokens.jti"),
        other => panic!("unexpected {:?}", other),
    }
    assert!(!store.has_token("a3"));
}

#[test]
fn token_store_missing_token() {
    let store = TokenStore::new();
    assert!(!store.has_token("nope"));
    assert_eq!(store.get_user_id("nope"), None);
}

#[test]
fn user_store_create_and_find() {
    let mut users = UserStore::new();
    users.create_user("alice", "hash-a").unwrap();
    assert_eq!(users.find_user("alice").as_deref(), Some("hash-a"));
    assert_eq!(users.find_user("bob"), None);
    match users.create_user("alice", "hash-b") {
        Err(AppError::Database(m)) => assert_eq!(m, "UNIQUE constraint failed: users.username"),
        other => panic!("unexpected {:?}", other),
    }
    assert_eq!(users.find_user("alice").as_deref(), Some("hash-a"));
}

#[test]
fn app_state_from_default_config() {
    let state = AppState::new();
    assert_eq!(state.config.port, 3000);
    assert_eq!(state.metrics.alerts_total(), 0);
    assert!(!state.tokens.has_token("x"));
    assert_eq!(state.users.find_user("x"), None);
}
