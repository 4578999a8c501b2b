use daynotes::error::ServiceError;
use daynotes::identity::IdentityStore;

#[test]
fn register_assigns_distinct_ids_and_rejects_duplicates() {
    let mut s = IdentityStore::new();
    let a = s.register("alice", "pw1").unwrap();
    let b = s.register("bob", "pw2").unwrap();
    assert_ne!(a, b);
    assert_eq!(s.register("alice", "other"), Err(ServiceError::Conflict));
    assert_eq!(s.register("", "pw"), Err(ServiceError::BadRequest));
}

#[test]
fn login_checks_password() {
    let mut s = IdentityStore::new();
    s.register("alice", "pw1").unwrap();
    assert_eq!(s.login("alice", "wrong"), Err(ServiceError::Unauthorized));
    assert_eq!(s.login("nobody", "pw1"), Err(ServiceError::Unauthorized));
    let t = s.login("alice", "pw1").unwrap();
    assert!(!t.is_empty());
    let u = s.authenticate(&t).unwrap();
    assert_eq!(u.username, "alice");
    assert_ne!(u.password_hash, "pw1");
}

#[test]
fn new_login_invalidates_previous_token() {
    let mut s = IdentityStore::new();
    let id = s.register("alice", "pw1").unwrap();
    let t1 = s.login("alice", "pw1").unwrap();
    let t2 = s.login("alice", "pw1").unwrap();
    assert_ne!(t1, t2);
    assert_eq!(s.authenticate(&t1).unwrap_err(), ServiceError::Unauthorized);
    assert_eq!(s.authenticate(&t2).unwrap().id, id);
}

#[test]
fn authenticate_rejects_empty_and_unknown_tokens() {
    let mut s = IdentityStore::new();
    s.register("alice", "pw1").unwrap();
    assert_eq!(s.authenticate("").unwrap_err(), ServiceError::Unauthorized);
    assert_eq!(s.authenticate("nope").unwrap_err(), ServiceError::Unauthorized);
}

#[test]
fn install_token_refuses_empty_and_held_tokens() {
    let mut s = IdentityStore::new();
    s.register("alice", "pw1").unwrap();
    s.register("bob", "pw2").unwrap();
    assert_eq!(s.install_token(0, "abc".to_string()), Ok("abc".to_string()));
    assert_eq!(s.authenticate("abc").unwrap().username, "alice");
    assert_eq!(s.install_token(1, "abc".to_string()), Err(ServiceError::Internal));
    assert_eq!(s.install_token(1, String::new()), Err(ServiceError::Internal));
    assert_eq!(s.install_token(1, "def".to_string()), Ok("def".to_string()));
    assert_eq!(s.authenticate("def").unwrap().username, "bob");
    assert_eq!(s.install_token(0, "xyz".to_string()), Ok("xyz".to_string()));
    assert_eq!(s.authenticate("abc").unwrap_err(), ServiceError::Unauthorized);
}

#[test]
fn stored_hash_verifies_only_the_registered_password() {
    let mut s = IdentityStore::new();
    s.register("carol", "secret").unwrap();
    assert!(s.login("carol", "secret").is_ok());
    assert_eq!(s.login("carol", "Secret"), Err(ServiceError::Unauthorized));
}
