//! Token lifecycle: creation, duplicate refusal, resolution, consumption.

use vrac::api::{request_token, resolve_for_read, Quantity, Token as TokenRequest};
use vrac::db::{CreateToken, Store, TokenStatus};
use vrac::errors::VracError;

fn demo_request(path: &str) -> TokenRequest {
    TokenRequest {
        path: path.to_string(),
        max_size_in_mb: Quantity::Bounded(10),
        content_expires_after: 1,
        token_valid_for: Quantity::Bounded(1),
    }
}

#[test]
fn request_token_then_duplicate() {
    let mut store = Store::new();
    let first = request_token(&mut store, demo_request("demo"), 1000);
    assert!(first.is_ok());
    let second = request_token(&mut store, demo_request("demo"), 1200);
    match second {
        Err(VracError::TokenAlreadyExists(p)) => assert_eq!(p, "demo"),
        other => panic!("expected duplicate error, got {:?}", other),
    }
}

#[test]
fn duplicate_allowed_after_expiry() {
    let mut store = Store::new();
    assert!(request_token(&mut store, demo_request("demo"), 1000).is_ok());
    // the first token's upload deadline is 1000 + 3600; well past it, the
    // path is free again
    let second = request_token(&mut store, demo_request("demo"), 10000);
    assert!(second.is_ok());
}

#[test]
fn token_expiry_formula() {
    let mut store = Store::new();
    let tok = request_token(&mut store, demo_request("demo"), 1000).unwrap();
    assert_eq!(tok.token_expires_at, 1000 + 3600);
    assert_eq!(tok.status, TokenStatus::Fresh);
    assert_eq!(tok.content_expires_at, None);
    assert_eq!(tok.content_expires_after_hours, Some(1));
    assert_eq!(tok.max_size_mib, Some(10));
}

#[test]
fn unbounded_validity_never_expires() {
    let mut store = Store::new();
    let req = TokenRequest {
        path: "forever".to_string(),
        max_size_in_mb: Quantity::Unbounded,
        content_expires_after: 24,
        token_valid_for: Quantity::Unbounded,
    };
    let tok = request_token(&mut store, req, 1000).unwrap();
    assert_eq!(tok.token_expires_at, i64::MAX);
    assert_eq!(tok.max_size_mib, None);
    assert!(resolve_for_read(&store, &"forever".to_string(), 999_999_999).is_some());
}

#[test]
fn empty_path_rejected() {
    let mut store = Store::new();
    let req = demo_request("");
    match request_token(&mut store, req, 1000) {
        Err(VracError::Validation(_)) => {}
        other => panic!("expected validation error, got {:?}", other),
    }
}

#[test]
fn unrecognized_duration_rejected() {
    let mut store = Store::new();
    let mut req = demo_request("demo");
    req.content_expires_after = 7;
    match request_token(&mut store, req, 1000) {
        Err(VracError::Validation(_)) => {}
        other => panic!("expected validation error, got {:?}", other),
    }
}

#[test]
fn unrecognized_size_rejected() {
    let mut store = Store::new();
    let mut req = demo_request("demo");
    req.max_size_in_mb = Quantity::Bounded(3);
    match request_token(&mut store, req, 1000) {
        Err(VracError::Validation(_)) => {}
        other => panic!("expected validation error, got {:?}", other),
    }
}

#[test]
fn resolve_expired_token_is_none() {
    let mut store = Store::new();
    assert!(request_token(&mut store, demo_request("demo"), 1000).is_ok());
    assert!(resolve_for_read(&store, &"demo".to_string(), 4600).is_some());
    assert!(resolve_for_read(&store, &"demo".to_string(), 4601).is_none());
}

#[test]
fn resolve_unknown_path_is_none() {
    let store = Store::new();
    assert!(resolve_for_read(&store, &"nope".to_string(), 1000).is_none());
}

#[test]
fn consume_sets_content_deadline_once() {
    let mut store = Store::new();
    let tok = request_token(&mut store, demo_request("demo"), 1000).unwrap();
    store.consume_token(tok.id, 2000);
    let used = resolve_for_read(&store, &"demo".to_string(), 2000).unwrap();
    assert_eq!(used.status, TokenStatus::Used);
    assert_eq!(used.content_expires_at, Some(2000 + 3600));
}

#[test]
fn consume_twice_is_noop() {
    let mut store = Store::new();
    let tok = request_token(&mut store, demo_request("demo"), 1000).unwrap();
    store.consume_token(tok.id, 2000);
    // a second consume, even much later, must not move the deadline
    store.consume_token(tok.id, 3000);
    let used = resolve_for_read(&store, &"demo".to_string(), 2500).unwrap();
    assert_eq!(used.status, TokenStatus::Used);
    assert_eq!(used.content_expires_at, Some(2000 + 3600));
}

#[test]
fn consume_without_content_duration_leaves_deadline_unset() {
    let mut store = Store::new();
    let tok = store
        .create_token(
            CreateToken {
                path: "raw".to_string(),
                max_size_mib: None,
                token_expires_at: 5000,
                content_expires_after_hours: None,
            },
            1000,
        )
        .unwrap();
    store.consume_token(tok.id, 2000);
    let used = resolve_for_read(&store, &"raw".to_string(), 2500).unwrap();
    assert_eq!(used.status, TokenStatus::Used);
    assert_eq!(used.content_expires_at, None);
}

#[test]
fn gen_user_then_duplicate() {
    let mut store = Store::new();
    assert!(store.gen_user("alice".to_string(), "hunter2".to_string()).is_ok());
    match store.gen_user("alice".to_string(), "other".to_string()) {
        Err(VracError::UserAlreadyExists(u)) => assert_eq!(u, "alice"),
        other => panic!("expected duplicate user error, got {:?}", other),
    }
}

#[test]
fn get_user_auth_roundtrip() {
    let mut store = Store::new();
    assert!(store.gen_user("bob".to_string(), "secret".to_string()).is_ok());
    match store.get_user_auth(&"bob".to_string()) {
        Ok(vrac::db::Auth::Basic { phc }) => {
            // a PHC-format scrypt hash
            assert!(phc.starts_with("$scrypt$"));
        }
        other => panic!("expected credential, got {:?}", other),
    }
    match store.get_user_auth(&"carol".to_string()) {
        Err(VracError::NotFound) => {}
        other => panic!("expected not-found, got {:?}", other),
    }
}
