use newsauth::auth::{
    change_password, compute_password_hash, validate_credentials, validate_with_lookup, AuthError,
    Credentials,
};
use newsauth::phc;
use newsauth::secret::{SecretBytes, SecretString};
use newsauth::store::{CredentialStore, StoreError, UserId};

fn seeded_store(username: &str, id: u128, password: &str) -> CredentialStore {
    let mut store = CredentialStore::new();
    let hash = compute_password_hash(&SecretString::new(password.to_string())).unwrap();
    let bytes = phc::serialize(&hash);
    let added = store.add_user(username.to_string(), UserId { value: id }, SecretBytes::new(bytes));
    assert!(added);
    store
}

fn creds(username: &str, password: &str) -> Credentials {
    Credentials {
        username: username.to_string(),
        password: SecretString::new(password.to_string()),
    }
}

#[test]
fn correct_password_validates() {
    let store = seeded_store("alice", 7, "correcthorse");
    let r = validate_credentials(creds("alice", "correcthorse"), &store);
    assert_eq!(r, Ok(UserId { value: 7 }));
}

#[test]
fn wrong_password_is_invalid_credentials() {
    let store = seeded_store("alice", 7, "correcthorse");
    let r = validate_credentials(creds("alice", "wrong"), &store);
    assert!(matches!(r, Err(AuthError::InvalidCredentials(_))));
}

#[test]
fn unknown_username_is_invalid_credentials() {
    let store = seeded_store("alice", 7, "correcthorse");
    let r = validate_credentials(creds("bob", "anything"), &store);
    assert!(matches!(r, Err(AuthError::InvalidCredentials(_))));
}

#[test]
fn change_password_takes_effect() {
    let mut store = seeded_store("alice", 7, "correcthorse");
    let changed = change_password(
        UserId { value: 7 },
        &SecretString::new("newpass".to_string()),
        &mut store,
    );
    assert_eq!(changed, Ok(()));

    let old = validate_credentials(creds("alice", "correcthorse"), &store);
    assert!(matches!(old, Err(AuthError::InvalidCredentials(_))));

    let new = validate_credentials(creds("alice", "newpass"), &store);
    assert_eq!(new, Ok(UserId { value: 7 }));
}

#[test]
fn change_leaves_other_users_alone() {
    let mut store = seeded_store("alice", 7, "correcthorse");
    let hash = compute_password_hash(&SecretString::new("bobsecret".to_string())).unwrap();
    assert!(store.add_user(
        "bob".to_string(),
        UserId { value: 8 },
        SecretBytes::new(phc::serialize(&hash)),
    ));
    let changed = change_password(
        UserId { value: 7 },
        &SecretString::new("newpass".to_string()),
        &mut store,
    );
    assert_eq!(changed, Ok(()));
    let bob = validate_credentials(creds("bob", "bobsecret"), &store);
    assert_eq!(bob, Ok(UserId { value: 8 }));
}

#[test]
fn lookup_fault_is_unexpected_error() {
    let r = validate_with_lookup(creds("alice", "anything"), Err(StoreError::QueryFailed));
    assert_eq!(r, Err(AuthError::UnexpectedError(StoreError::QueryFailed)));
    let r = validate_with_lookup(creds("alice", "anything"), Err(StoreError::Unreachable));
    assert_eq!(r, Err(AuthError::UnexpectedError(StoreError::Unreachable)));
}

#[test]
fn absent_lookup_is_invalid_credentials() {
    let r = validate_with_lookup(creds("ghost", "anything"), Ok(None));
    assert!(matches!(r, Err(AuthError::InvalidCredentials(_))));
}

#[test]
fn malformed_stored_hash_fails_closed() {
    let mut store = CredentialStore::new();
    assert!(store.add_user(
        "mallory".to_string(),
        UserId { value: 9 },
        SecretBytes::new(b"not a phc string".to_vec()),
    ));
    let r = validate_credentials(creds("mallory", "anything"), &store);
    assert!(matches!(r, Err(AuthError::InvalidCredentials(_))));
}

#[test]
fn duplicate_provisioning_is_refused() {
    let mut store = seeded_store("alice", 7, "correcthorse");
    let hash = compute_password_hash(&SecretString::new("other".to_string())).unwrap();
    let dup_name = store.add_user(
        "alice".to_string(),
        UserId { value: 10 },
        SecretBytes::new(phc::serialize(&hash)),
    );
    assert!(!dup_name);
    let dup_id = store.add_user(
        "carol".to_string(),
        UserId { value: 7 },
        SecretBytes::new(phc::serialize(&hash)),
    );
    assert!(!dup_id);
}

#[test]
fn compute_hash_uses_fixed_parameters() {
    let h = compute_password_hash(&SecretString::new("pw".to_string())).unwrap();
    assert!(matches!(h.alg, newsauth::phc::HashAlg::Argon2id));
    assert_eq!(h.version, 19);
    assert_eq!(h.m_cost, 15000);
    assert_eq!(h.t_cost, 2);
    assert_eq!(h.p_cost, 1);
    assert_eq!(h.salt.len(), 16);
    assert_eq!(h.digest.len(), 32);
}
