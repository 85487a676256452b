use tecindo::auth::{
    access_claims, bearer_token, claims_for, contains_char, hash_token, refresh_claims, to_hex,
    validate_registration, AuthError, RegisterRequest, User, UserResponse,
};
use tecindo::error::{AppError, IoErrorKind};

fn request(username: &str, email: Option<&str>, password: &str) -> RegisterRequest {
    RegisterRequest {
        username: username.to_string(),
        email: email.map(|e| e.to_string()),
        password: password.to_string(),
    }
}

#[test]
fn errors_are_shown_by_kind() {
    let r = AppError::NotFound.into_response();
    assert_eq!((r.status, r.code.as_str(), r.message.as_str()), (404, "not_found", "Resource not found"));
    let r = AppError::BadRequest("no".to_string()).into_response();
    assert_eq!((r.status, r.code.as_str(), r.message.as_str()), (400, "bad_request", "no"));
    let r = AppError::Unauthorized("who".to_string()).into_response();
    assert_eq!((r.status, r.code.as_str(), r.message.as_str()), (401, "unauthorized", "who"));
    let r = AppError::Conflict("taken".to_string()).into_response();
    assert_eq!((r.status, r.code.as_str(), r.message.as_str()), (409, "conflict", "taken"));
}

#[test]
fn store_failures_show_no_detail() {
    let r = AppError::Internal("row 7 vanished".to_string()).into_response();
    assert_eq!((r.status, r.code.as_str(), r.message.as_str()), (500, "internal_error", "An internal error occurred"));
    let r = AppError::Database("UNIQUE constraint failed".to_string()).into_response();
    assert_eq!((r.status, r.code.as_str(), r.message.as_str()), (500, "database_error", "A database error occurred"));
    for kind in [IoErrorKind::NotFound, IoErrorKind::PermissionDenied, IoErrorKind::Other] {
        let r = AppError::Io(kind).into_response();
        assert_eq!((r.status, r.code.as_str(), r.message.as_str()), (500, "io_error", "An IO error occurred"));
    }
}

#[test]
fn authentication_failures_are_shown_as_401() {
    let r = AuthError::MissingToken.into_response();
    assert_eq!((r.status, r.code.as_str(), r.message.as_str()), (401, "missing_token", "Authorization token is required"));
    let r = AuthError::InvalidToken.into_response();
    assert_eq!((r.status, r.code.as_str(), r.message.as_str()), (401, "invalid_token", "Invalid authorization token"));
    let r = AuthError::ExpiredToken.into_response();
    assert_eq!((r.status, r.code.as_str(), r.message.as_str()), (401, "expired_token", "Authorization token has expired"));
}

#[test]
fn bearer_token_follows_the_prefix() {
    assert_eq!(bearer_token(Some("Bearer abc.def")), Ok("abc.def".to_string()));
    assert_eq!(bearer_token(Some("Bearer ")), Ok("".to_string()));
    assert_eq!(bearer_token(Some("Bearer  x")), Ok(" x".to_string()));
    assert_eq!(bearer_token(None), Err(AuthError::MissingToken));
    assert_eq!(bearer_token(Some("")), Err(AuthError::InvalidToken));
    assert_eq!(bearer_token(Some("bearer abc")), Err(AuthError::InvalidToken));
    assert_eq!(bearer_token(Some("Bearer")), Err(AuthError::InvalidToken));
    assert_eq!(bearer_token(Some("Basic abc")), Err(AuthError::InvalidToken));
}

#[test]
fn claims_carry_issue_and_expiry() {
    let c = access_claims("u1", 1_000);
    assert_eq!((c.sub.as_str(), c.iat, c.exp), ("u1", 1_000, 1_900));
    let c = refresh_claims("u1", 1_000);
    assert_eq!((c.sub.as_str(), c.iat, c.exp), ("u1", 1_000, 605_800));
    let c = claims_for("u2", i64::MAX - 10, 900);
    assert_eq!(c.exp, i64::MAX);
    let c = claims_for("u2", -5, 0);
    assert_eq!((c.iat, c.exp), (-5, -5));
    let c = claims_for("u2", 100, -30);
    assert_eq!((c.iat, c.exp), (100, 70));
    let c = claims_for("u2", i64::MIN + 1, -30);
    assert_eq!(c.exp, i64::MIN);
}

#[test]
fn user_response_drops_the_password_hash() {
    let user = User {
        id: "u1".to_string(),
        username: "ann".to_string(),
        email: Some("ann@example.com".to_string()),
        password_hash: "SECRET-REDACTED".to_string(),
        created_at: 1_704_067_200_000,
        updated_at: 1_704_153_600_000,
    };
    let r = UserResponse::from(user);
    assert_eq!(r.id, "u1");
    assert_eq!(r.username, "ann");
    assert_eq!(r.email, Some("ann@example.com".to_string()));
    assert_eq!(r.created_at, 1_704_067_200_000);
    assert_eq!(r.updated_at, 1_704_153_600_000);
}

#[test]
fn registration_rules() {
    assert!(validate_registration(&request("ann", Some("a@b"), "12345678")).is_ok());
    assert!(validate_registration(&request("ann", None, "12345678")).is_ok());
    match validate_registration(&request("an", Some("a@b"), "12345678")) {
        Err(AppError::BadRequest(m)) => assert_eq!(m, "Username must be at least 3 characters"),
        _ => panic!("short user name accepted"),
    }
    match validate_registration(&request("ann", Some("a@b"), "1234567")) {
        Err(AppError::BadRequest(m)) => assert_eq!(m, "Password must be at least 8 characters"),
        _ => panic!("short password accepted"),
    }
    match validate_registration(&request("ann", Some("ab"), "12345678")) {
        Err(AppError::BadRequest(m)) => assert_eq!(m, "Invalid email address"),
        _ => panic!("address without @ accepted"),
    }
    match validate_registration(&request("", Some("ab"), "")) {
        Err(AppError::BadRequest(m)) => assert_eq!(m, "Username must be at least 3 characters"),
        _ => panic!("empty request accepted"),
    }
}

#[test]
fn registration_lengths_are_counted_in_bytes() {
    assert!(validate_registration(&request("한", None, "12345678")).is_ok());
    assert!(validate_registration(&request("ann", None, "비밀번")).is_ok());
    assert!(validate_registration(&request("ann", None, "비밀")).is_err());
}

#[test]
fn contains_char_finds_a_character() {
    assert!(contains_char("a@b", '@'));
    assert!(!contains_char("ab", '@'));
    assert!(!contains_char("", '@'));
    assert!(contains_char("가@", '@'));
}

#[test]
fn hex_is_lower_case_two_digits_a_byte() {
    assert_eq!(to_hex(&[]), "");
    assert_eq!(to_hex(&[0x00, 0x0f, 0x10, 0xab, 0xff]), "000f10abff");
}

#[test]
fn hash_token_is_the_sha256_in_hex() {
    assert_eq!(
        hash_token("abc"),
        "ba7816bf8f01cfea414140de5dae2223b00361a396177a9cb410ff61f20015ad"
    );
    assert_eq!(
        hash_token(""),
        "e3b0c44298fc1c149afbf4c8996fb92427ae41e4649b934ca495991b7852b855"
    );
    assert_ne!(hash_token("abc"), "abc");
}
