use reminder::domain::GitHubAccount;
use reminder::storage::{AccountStore, StoredAccounts};

#[test]
fn upsert_inserts_sorted_by_login() {
    let mut registry = StoredAccounts::new();
    registry.upsert("bob", "t1");
    registry.upsert("alice", "t2");
    registry.upsert("carol", "t3");
    let logins: Vec<&str> = registry.accounts.iter().map(|a| a.login.as_str()).collect();
    assert_eq!(logins, vec!["alice", "bob", "carol"]);
}

#[test]
fn upsert_replaces_existing_token() {
    let mut registry = StoredAccounts::new();
    registry.upsert("alice", "t1");
    registry.upsert("alice", "t9");
    assert_eq!(registry.accounts.len(), 1);
    assert_eq!(registry.accounts[0].token, "t9");
}

#[test]
fn remove_drops_matching_login() {
    let mut registry = StoredAccounts::new();
    registry.upsert("alice", "t1");
    registry.upsert("bob", "t2");
    registry.remove("alice");
    assert_eq!(registry.accounts.len(), 1);
    assert_eq!(registry.accounts[0].login, "bob");
    registry.remove("nobody");
    assert_eq!(registry.accounts.len(), 1);
}

#[test]
fn hydrate_restores_profiles_in_order() {
    let mut registry = StoredAccounts::new();
    registry.upsert("bob", "t2");
    registry.upsert("alice", "t1");
    let store = AccountStore::new(registry);
    let outcome = store.hydrate();
    assert_eq!(outcome.profiles.len(), 2);
    assert_eq!(outcome.profiles[0].login, "alice");
    assert_eq!(outcome.profiles[0].token, "t1");
    assert_eq!(outcome.profiles[1].login, "bob");
    assert_eq!(outcome.profiles[1].token, "t2");
}

#[test]
fn persist_and_forget_update_registry() {
    let mut store = AccountStore::new(StoredAccounts::new());
    store.persist_profile(&GitHubAccount {
        login: "dana".to_string(),
        token: "tok".to_string(),
    });
    assert_eq!(store.registry.accounts.len(), 1);
    store.persist_profile(&GitHubAccount {
        login: "dana".to_string(),
        token: "tok2".to_string(),
    });
    assert_eq!(store.registry.accounts.len(), 1);
    assert_eq!(store.registry.accounts[0].token, "tok2");
    store.forget("dana");
    assert!(store.registry.accounts.is_empty());
}
