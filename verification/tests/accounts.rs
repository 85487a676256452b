use tecindo::accounts::{
    check_registration, create_user, delete_refresh_token, delete_user_refresh_tokens,
    find_by_email, find_by_id, find_by_username, find_refresh_token, load_user,
    redeem_refresh_token, store_refresh_token, UserStore,
};
use tecindo::auth::{RegisterRequest, User};
use tecindo::error::AppError;

fn request(username: &str, email: Option<&str>, password: &str) -> RegisterRequest {
    RegisterRequest {
        username: username.to_string(),
        email: email.map(|e| e.to_string()),
        password: password.to_string(),
    }
}

fn store_with_ann() -> UserStore {
    let mut store = UserStore::new();
    create_user(&mut store, "u1", "ann", Some("ann@example.com"), "hash-1", 100).unwrap();
    store
}

#[test]
fn an_account_is_created_and_found() {
    let mut store = UserStore::new();
    let u = create_user(&mut store, "u1", "ann", Some("ann@example.com"), "hash-1", 100).unwrap();
    assert_eq!((u.id.as_str(), u.username.as_str(), u.password_hash.as_str()), ("u1", "ann", "hash-1"));
    assert_eq!(u.email, Some("ann@example.com".to_string()));
    assert_eq!((u.created_at, u.updated_at), (100, 100));
    assert_eq!(find_by_id(&store, "u1").unwrap().username, "ann");
    assert_eq!(find_by_username(&store, "ann").unwrap().id, "u1");
    assert_eq!(find_by_email(&store, "ann@example.com").unwrap().id, "u1");
    assert!(find_by_id(&store, "u2").is_none());
    assert!(find_by_username(&store, "Ann").is_none());
    assert!(find_by_email(&store, "ann").is_none());
    assert_eq!(store.all_users().len(), 1);
}

#[test]
fn ids_names_and_addresses_are_unique() {
    let mut store = store_with_ann();
    assert!(matches!(create_user(&mut store, "u1", "bob", None, "h", 1), Err(AppError::Database(_))));
    assert!(matches!(create_user(&mut store, "u2", "ann", None, "h", 1), Err(AppError::Database(_))));
    assert!(matches!(
        create_user(&mut store, "u2", "bob", Some("ann@example.com"), "h", 1),
        Err(AppError::Database(_))
    ));
    assert_eq!(store.all_users().len(), 1);
    create_user(&mut store, "u2", "bob", None, "h", 1).unwrap();
    create_user(&mut store, "u3", "cy", None, "h", 1).unwrap();
    assert_eq!(store.all_users().len(), 3);
}

#[test]
fn a_registration_is_held_to_rules_and_accounts() {
    let store = store_with_ann();
    assert!(check_registration(&store, &request("bob", Some("bob@example.com"), "12345678")).is_ok());
    assert!(check_registration(&store, &request("bob", None, "12345678")).is_ok());
    match check_registration(&store, &request("ann", Some("new@example.com"), "12345678")) {
        Err(AppError::Conflict(m)) => assert_eq!(m, "Username already exists"),
        _ => panic!("taken name accepted"),
    }
    match check_registration(&store, &request("bob", Some("ann@example.com"), "12345678")) {
        Err(AppError::Conflict(m)) => assert_eq!(m, "Email already exists"),
        _ => panic!("taken address accepted"),
    }
    match check_registration(&store, &request("ann", Some("ann@example.com"), "short")) {
        Err(AppError::BadRequest(m)) => assert_eq!(m, "Password must be at least 8 characters"),
        _ => panic!("short password accepted"),
    }
    match check_registration(&store, &request("an", Some("ann@example.com"), "12345678")) {
        Err(AppError::BadRequest(m)) => assert_eq!(m, "Username must be at least 3 characters"),
        _ => panic!("short name accepted"),
    }
}

#[test]
fn a_refresh_token_is_good_once() {
    let mut store = store_with_ann();
    store_refresh_token(&mut store, "t1", "u1", "fp-1", 1_000).unwrap();
    assert!(matches!(store_refresh_token(&mut store, "t1", "u1", "fp-2", 1_000), Err(AppError::Database(_))));
    let t = find_refresh_token(&store, "fp-1").unwrap();
    assert_eq!((t.id.as_str(), t.user_id.as_str(), t.expires_at), ("t1", "u1", 1_000));
    let u = redeem_refresh_token(&mut store, "fp-1", 999).unwrap();
    assert_eq!(u.id, "u1");
    assert!(find_refresh_token(&store, "fp-1").is_none());
    match redeem_refresh_token(&mut store, "fp-1", 999) {
        Err(AppError::Unauthorized(m)) => assert_eq!(m, "Refresh token not found or revoked"),
        _ => panic!("token redeemed twice"),
    }
}

#[test]
fn a_refresh_token_past_its_time_is_deleted() {
    let mut store = store_with_ann();
    store_refresh_token(&mut store, "t1", "u1", "fp-1", 1_000).unwrap();
    store_refresh_token(&mut store, "t2", "u1", "fp-2", 1_000).unwrap();
    assert!(redeem_refresh_token(&mut store, "fp-2", 1_000).is_ok());
    match redeem_refresh_token(&mut store, "fp-1", 1_001) {
        Err(AppError::Unauthorized(m)) => assert_eq!(m, "Refresh token expired"),
        _ => panic!("expired token redeemed"),
    }
    assert_eq!(store.all_tokens().len(), 0);
}

#[test]
fn a_refresh_token_without_account_is_refused_and_kept() {
    let mut store = store_with_ann();
    store_refresh_token(&mut store, "t1", "ghost", "fp-1", 1_000).unwrap();
    match redeem_refresh_token(&mut store, "fp-1", 10) {
        Err(AppError::Unauthorized(m)) => assert_eq!(m, "User not found"),
        _ => panic!("token without account redeemed"),
    }
    assert_eq!(store.all_tokens().len(), 1);
}

#[test]
fn tokens_are_deleted_by_fingerprint_and_by_account() {
    let mut store = store_with_ann();
    store_refresh_token(&mut store, "t1", "u1", "a", 1).unwrap();
    store_refresh_token(&mut store, "t2", "u2", "b", 1).unwrap();
    store_refresh_token(&mut store, "t3", "u1", "c", 1).unwrap();
    store_refresh_token(&mut store, "t4", "u2", "a", 1).unwrap();
    delete_refresh_token(&mut store, "a");
    let ids: Vec<String> = store.all_tokens().iter().map(|t| t.id.clone()).collect();
    assert_eq!(ids, vec!["t2", "t3"]);
    delete_refresh_token(&mut store, "zzz");
    assert_eq!(store.all_tokens().len(), 2);
    delete_user_refresh_tokens(&mut store, "u1");
    let ids: Vec<String> = store.all_tokens().iter().map(|t| t.id.clone()).collect();
    assert_eq!(ids, vec!["t2"]);
    delete_user_refresh_tokens(&mut store, "u2");
    assert!(store.all_tokens().is_empty());
}

#[test]
fn kept_accounts_are_taken_in_as_they_are() {
    let mut store = UserStore::new();
    let kept = User {
        id: "u9".to_string(),
        username: "kim".to_string(),
        email: None,
        password_hash: "h".to_string(),
        created_at: 5,
        updated_at: 7,
    };
    load_user(&mut store, kept.clone()).unwrap();
    assert!(matches!(load_user(&mut store, kept), Err(AppError::Database(_))));
    let u = find_by_id(&store, "u9").unwrap();
    assert_eq!((u.created_at, u.updated_at, u.email), (5, 7, None));
}
