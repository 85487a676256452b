//! What the engine shares with the authentication around it: the caller's
//! identity as it arrives, the accounts, and the rules that requests for
//! them have to meet.

use vstd::prelude::*;
use vstd::std_specs::convert::FromSpecImpl;
use vstd::utf8::encode_utf8;
use crate::error::{AppError, ErrorResponse};
use crate::strings::{chars_of, clone_opt_string, starts_with_chars, string_from};

verus! {

/// Seconds for which an access token is valid: 15 minutes.
pub const ACCESS_TOKEN_SECONDS: i64 = 900;

/// Seconds for which a refresh token is valid: 7 days.
pub const REFRESH_TOKEN_SECONDS: i64 = 604_800;

/// Fewest bytes of a user name.
pub const MIN_USERNAME_BYTES: usize = 3;

/// Fewest bytes of a password.
pub const MIN_PASSWORD_BYTES: usize = 8;

/// What a token states: whom it was issued to, when, and until when it is
/// valid, both in seconds since the Unix epoch.
#[derive(Debug)]
pub struct Claims {
    pub sub: String,
    pub exp: i64,
    pub iat: i64,
}

/// Why a request carries no valid identity.
#[derive(Debug, PartialEq, Eq, Structural)]
pub enum AuthError {
    MissingToken,
    InvalidToken,
    ExpiredToken,
}

/// The code shown for an authentication failure.
pub open spec fn auth_code_of(e: AuthError) -> Seq<char> {
    match e {
        AuthError::MissingToken => "missing_token"@,
        AuthError::InvalidToken => "invalid_token"@,
        AuthError::ExpiredToken => "expired_token"@,
    }
}

/// The message shown for an authentication failure.
pub open spec fn auth_message_of(e: AuthError) -> Seq<char> {
    match e {
        AuthError::MissingToken => "Authorization token is required"@,
        AuthError::InvalidToken => "Invalid authorization token"@,
        AuthError::ExpiredToken => "Authorization token has expired"@,
    }
}

impl AuthError {
    /// Turns the failure into what the caller is shown; the status is 401
    /// for each.
    pub fn into_response(self) -> (r: ErrorResponse)
        ensures
            r.status == 401,
            r.code@ == auth_code_of(self),
            r.message@ == auth_message_of(self),
    {
        match self {
            AuthError::MissingToken => ErrorResponse {
                status: 401,
                code: "missing_token".to_owned(),
                message: "Authorization token is required".to_owned(),
            },
            AuthError::InvalidToken => ErrorResponse {
                status: 401,
                code: "invalid_token".to_owned(),
                message: "Invalid authorization token".to_owned(),
            },
            AuthError::ExpiredToken => ErrorResponse {
                status: 401,
                code: "expired_token".to_owned(),
                message: "Authorization token has expired".to_owned(),
            },
        }
    }
}

/// What precedes the token in an `Authorization` header.
pub open spec fn bearer_prefix() -> Seq<char> {
    "Bearer "@
}

/// The token that an `Authorization` header carries.
pub open spec fn bearer_token_of(header: Option<Seq<char>>) -> Result<Seq<char>, AuthError> {
    match header {
        None => Err(AuthError::MissingToken),
        Some(h) => if bearer_prefix().is_prefix_of(h) {
            Ok(h.skip(bearer_prefix().len() as int))
        } else {
            Err(AuthError::InvalidToken)
        },
    }
}

/// Takes the token out of an `Authorization` header: what follows `Bearer `.
pub fn bearer_token(header: Option<&str>) -> (r: Result<String, AuthError>)
    ensures
        match bearer_token_of(crate::strings::opt_str_view(header)) {
            Ok(t) => r matches Ok(s) && s@ == t,
            Err(e) => r == Err::<String, AuthError>(e),
        },
{
    let h: &str = match header {
        Some(h) => h,
        None => {
            return Err(AuthError::MissingToken);
        },
    };
    let chars = chars_of(h);
    let prefix = chars_of("Bearer ");
    if starts_with_chars(&chars, &prefix) {
        Ok(string_from(&chars, prefix.len()))
    } else {
        Err(AuthError::InvalidToken)
    }
}

/// The second that lies `seconds` after `now`, or the last or first second
/// that there is when that one lies beyond.
pub open spec fn later(now: i64, seconds: i64) -> i64 {
    if now + seconds > i64::MAX {
        i64::MAX
    } else if now + seconds < i64::MIN {
        i64::MIN
    } else {
        (now + seconds) as i64
    }
}

/// The claims of a token issued to `user_id` at `now` and valid for
/// `seconds` seconds.
pub fn claims_for(user_id: &str, now: i64, seconds: i64) -> (c: Claims)
    ensures
        c.sub@ == user_id@,
        c.iat == now,
        c.exp == later(now, seconds),
{
    let sum: i128 = now as i128 + seconds as i128;
    let exp: i64 = if sum > i64::MAX as i128 {
        i64::MAX
    } else if sum < i64::MIN as i128 {
        i64::MIN
    } else {
        sum as i64
    };
    Claims { sub: user_id.to_owned(), exp, iat: now }
}

/// The claims of an access token issued to `user_id` at `now`.
pub fn access_claims(user_id: &str, now: i64) -> (c: Claims)
    ensures
        c.sub@ == user_id@,
        c.iat == now,
        c.exp == later(now, ACCESS_TOKEN_SECONDS),
{
    claims_for(user_id, now, ACCESS_TOKEN_SECONDS)
}

/// The claims of a refresh token issued to `user_id` at `now`.
pub fn refresh_claims(user_id: &str, now: i64) -> (c: Claims)
    ensures
        c.sub@ == user_id@,
        c.iat == now,
        c.exp == later(now, REFRESH_TOKEN_SECONDS),
{
    claims_for(user_id, now, REFRESH_TOKEN_SECONDS)
}

/// An account. Times are milliseconds since the Unix epoch.
#[derive(Debug)]
pub struct User {
    pub id: String,
    pub username: String,
    pub email: Option<String>,
    pub password_hash: String,
    pub created_at: i64,
    pub updated_at: i64,
}

impl Clone for User {
    fn clone(&self) -> (r: Self)
        ensures
            r == *self,
    {
        User {
            id: self.id.clone(),
            username: self.username.clone(),
            email: clone_opt_string(&self.email),
            password_hash: self.password_hash.clone(),
            created_at: self.created_at,
            updated_at: self.updated_at,
        }
    }
}

/// An account as it is shown: without the password hash.
#[derive(Debug)]
pub struct UserResponse {
    pub id: String,
    pub username: String,
    pub email: Option<String>,
    pub created_at: i64,
    pub updated_at: i64,
}

impl From<User> for UserResponse {
    fn from(user: User) -> (r: Self) {
        UserResponse {
            id: user.id,
            username: user.username,
            email: user.email,
            created_at: user.created_at,
            updated_at: user.updated_at,
        }
    }
}

impl FromSpecImpl<User> for UserResponse {
    open spec fn obeys_from_spec() -> bool {
        true
    }

    open spec fn from_spec(user: User) -> Self {
        UserResponse {
            id: user.id,
            username: user.username,
            email: user.email,
            created_at: user.created_at,
            updated_at: user.updated_at,
        }
    }
}

/// A request for a new account.
#[derive(Debug)]
pub struct RegisterRequest {
    pub username: String,
    pub email: Option<String>,
    pub password: String,
}

/// A request to sign in.
#[derive(Debug)]
pub struct LoginRequest {
    pub username: String,
    pub password: String,
}

/// A request for new tokens.
#[derive(Debug)]
pub struct RefreshRequest {
    pub refresh_token: String,
}

/// What signing in returns.
#[derive(Debug)]
pub struct AuthResponse {
    pub user: UserResponse,
    pub access_token: String,
    pub refresh_token: String,
}

/// Why a request for a new account is refused.
#[derive(Debug, PartialEq, Eq, Structural)]
pub enum RegistrationFault {
    UsernameTooShort,
    PasswordTooShort,
    InvalidEmail,
}

/// The first rule that a request for a new account breaks: the user name
/// takes at least 3 bytes, the password at least 8, and an e-mail address,
/// if one is given, holds an `@`.
pub open spec fn registration_fault(req: RegisterRequest) -> Option<RegistrationFault> {
    if encode_utf8(req.username@).len() < MIN_USERNAME_BYTES {
        Some(RegistrationFault::UsernameTooShort)
    } else if encode_utf8(req.password@).len() < MIN_PASSWORD_BYTES {
        Some(RegistrationFault::PasswordTooShort)
    } else if req.email matches Some(e) && !e@.contains('@') {
        Some(RegistrationFault::InvalidEmail)
    } else {
        None
    }
}

/// The message that tells a caller of a broken rule.
pub open spec fn registration_message(fault: RegistrationFault) -> Seq<char> {
    match fault {
        RegistrationFault::UsernameTooShort => "Username must be at least 3 characters"@,
        RegistrationFault::PasswordTooShort => "Password must be at least 8 characters"@,
        RegistrationFault::InvalidEmail => "Invalid email address"@,
    }
}

/// Tells whether `s` holds the character `c`.
pub fn contains_char(s: &str, c: char) -> (r: bool)
    ensures
        r == s@.contains(c),
{
    let chars = chars_of(s);
    let mut i: usize = 0;
    while i < chars.len()
        invariant
            i <= chars.len(),
            chars@ == s@,
            forall|j: int| 0 <= j < i ==> chars@[j] != c,
        decreases chars.len() - i,
    {
        if chars[i] == c {
            return true;
        }
        i = i + 1;
    }
    false
}

/// Holds a request for a new account to the rules, and reports the first
/// that it breaks as a bad request.
pub fn validate_registration(req: &RegisterRequest) -> (r: Result<(), AppError>)
    ensures
        match registration_fault(*req) {
            None => r is Ok,
            Some(fault) => r matches Err(AppError::BadRequest(msg)) && msg@ == registration_message(
                fault,
            ),
        },
{
    if req.username.as_str().as_bytes().len() < MIN_USERNAME_BYTES {
        return Err(AppError::BadRequest("Username must be at least 3 characters".to_owned()));
    }
    if req.password.as_str().as_bytes().len() < MIN_PASSWORD_BYTES {
        return Err(AppError::BadRequest("Password must be at least 8 characters".to_owned()));
    }
    match &req.email {
        Some(e) => {
            if !contains_char(e.as_str(), '@') {
                return Err(AppError::BadRequest("Invalid email address".to_owned()));
            }
        },
        None => {},
    }
    Ok(())
}

/// The SHA-256 digest of a sequence of bytes.
pub uninterp spec fn sha256_of(data: Seq<u8>) -> Seq<u8>;

/// Calls `sha2::Sha256::digest`. Assumed of it: what it returns depends on
/// the bytes alone, so that the same bytes always give the same digest.
/// What the digest is is not stated here.
#[verifier::external_body]
fn sha256(data: &[u8]) -> (digest: Vec<u8>)
    ensures
        digest@ == sha256_of(data@),
{
    <sha2::Sha256 as sha2::Digest>::digest(data).to_vec()
}

/// The hexadecimal digit of a number below 16, in lower case.
pub open spec fn hex_digit(n: int) -> char {
    if n < 10 {
        (n + 48) as char
    } else {
        (n + 87) as char
    }
}

/// Bytes written as hexadecimal digits in lower case, two for each byte.
pub open spec fn hex_lower(bytes: Seq<u8>) -> Seq<char>
    decreases bytes.len(),
{
    if bytes.len() == 0 {
        Seq::empty()
    } else {
        hex_lower(bytes.drop_last()).push(hex_digit(bytes.last() as int / 16)).push(
            hex_digit(bytes.last() as int % 16),
        )
    }
}

/// The hexadecimal digit of `n`, in lower case.
fn hex_char(n: u8) -> (c: char)
    requires
        n < 16,
    ensures
        c == hex_digit(n as int),
{
    if n < 10 {
        (n + 48) as char
    } else {
        (n + 87) as char
    }
}

/// Writes bytes as hexadecimal digits in lower case.
pub fn to_hex(bytes: &[u8]) -> (hex: String)
    ensures
        hex@ == hex_lower(bytes@),
{
    let mut hex = String::new();
    let mut i: usize = 0;
    assert(bytes@.take(0) =~= Seq::<u8>::empty());
    while i < bytes.len()
        invariant
            i <= bytes.len(),
            hex@ == hex_lower(bytes@.take(i as int)),
        decreases bytes.len() - i,
    {
        let b: u8 = bytes[i];
        hex.push(hex_char(b / 16));
        hex.push(hex_char(b % 16));
        proof {
            let next = bytes@.take(i + 1);
            assert(next.drop_last() =~= bytes@.take(i as int));
            assert(next.last() == b);
        }
        i = i + 1;
    }
    assert(bytes@.take(bytes@.len() as int) =~= bytes@);
    hex
}

/// The fingerprint under which a refresh token is stored: the SHA-256
/// digest of its bytes, in hexadecimal.
pub fn hash_token(token: &str) -> (hash: String)
    ensures
        hash@ == hex_lower(sha256_of(encode_utf8(token@))),
{
    let digest = sha256(token.as_bytes());
    to_hex(digest.as_slice())
}

} // verus!
