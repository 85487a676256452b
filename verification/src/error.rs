//! The errors that operations report, and what a caller is shown of each.

use vstd::prelude::*;

verus! {

/// Why a content read or write failed.
#[derive(Debug, PartialEq, Eq, Structural)]
pub enum IoErrorKind {
    NotFound,
    PermissionDenied,
    Other,
}

impl Clone for IoErrorKind {
    fn clone(&self) -> (r: Self)
        ensures
            r == *self,
    {
        match self {
            IoErrorKind::NotFound => IoErrorKind::NotFound,
            IoErrorKind::PermissionDenied => IoErrorKind::PermissionDenied,
            IoErrorKind::Other => IoErrorKind::Other,
        }
    }
}

impl Copy for IoErrorKind {

}

/// An operation's failure.
#[derive(Debug)]
pub enum AppError {
    /// The entity does not exist, or belongs to another user.
    NotFound,
    /// The request is malformed; the text says how.
    BadRequest(String),
    /// An invariant of the stores was found broken.
    Internal(String),
    /// The metadata store failed.
    Database(String),
    /// The content store failed.
    Io(IoErrorKind),
    /// The caller is not who they claim to be.
    Unauthorized(String),
    /// The request collides with existing data.
    Conflict(String),
}

/// What a caller is shown of a failure.
#[derive(Debug)]
pub struct ErrorResponse {
    /// The HTTP status that stands for the failure.
    pub status: u16,
    /// A stable machine-readable code.
    pub code: String,
    /// A message for the caller.
    pub message: String,
}

/// The status shown for an error.
pub open spec fn status_of(e: AppError) -> u16 {
    match e {
        AppError::NotFound => 404,
        AppError::BadRequest(_) => 400,
        AppError::Internal(_) => 500,
        AppError::Database(_) => 500,
        AppError::Io(_) => 500,
        AppError::Unauthorized(_) => 401,
        AppError::Conflict(_) => 409,
    }
}

/// The code shown for an error.
pub open spec fn code_of(e: AppError) -> Seq<char> {
    match e {
        AppError::NotFound => "not_found"@,
        AppError::BadRequest(_) => "bad_request"@,
        AppError::Internal(_) => "internal_error"@,
        AppError::Database(_) => "database_error"@,
        AppError::Io(_) => "io_error"@,
        AppError::Unauthorized(_) => "unauthorized"@,
        AppError::Conflict(_) => "conflict"@,
    }
}

/// The message shown for an error. Failures of the stores and broken
/// invariants show a fixed text, never their own.
pub open spec fn message_of(e: AppError) -> Seq<char> {
    match e {
        AppError::NotFound => "Resource not found"@,
        AppError::BadRequest(msg) => msg@,
        AppError::Internal(_) => "An internal error occurred"@,
        AppError::Database(_) => "A database error occurred"@,
        AppError::Io(_) => "An IO error occurred"@,
        AppError::Unauthorized(msg) => msg@,
        AppError::Conflict(msg) => msg@,
    }
}

impl AppError {
    /// Tells whether the error's own text must be kept from the caller.
    pub open spec fn is_opaque(self) -> bool {
        self is Internal || self is Database || self is Io
    }

    /// Turns the error into what the caller is shown.
    pub fn into_response(self) -> (r: ErrorResponse)
        ensures
            r.status == status_of(self),
            r.code@ == code_of(self),
            r.message@ == message_of(self),
    {
        match self {
            AppError::NotFound => ErrorResponse {
                status: 404,
                code: "not_found".to_owned(),
                message: "Resource not found".to_owned(),
            },
            AppError::BadRequest(msg) => ErrorResponse {
                status: 400,
                code: "bad_request".to_owned(),
                message: msg,
            },
            AppError::Internal(_) => ErrorResponse {
                status: 500,
                code: "internal_error".to_owned(),
                message: "An internal error occurred".to_owned(),
            },
            AppError::Database(_) => ErrorResponse {
                status: 500,
                code: "database_error".to_owned(),
                message: "A database error occurred".to_owned(),
            },
            AppError::Io(_) => ErrorResponse {
                status: 500,
                code: "io_error".to_owned(),
                message: "An IO error occurred".to_owned(),
            },
            AppError::Unauthorized(msg) => ErrorResponse {
                status: 401,
                code: "unauthorized".to_owned(),
                message: msg,
            },
            AppError::Conflict(msg) => ErrorResponse {
                status: 409,
                code: "conflict".to_owned(),
                message: msg,
            },
        }
    }
}

/// The text of a store failure never reaches the caller: two such errors of
/// one kind are shown alike, whatever they hold.
pub proof fn lemma_opaque_errors_show_no_detail(a: AppError, b: AppError)
    requires
        a.is_opaque(),
        (a is Internal && b is Internal) || (a is Database && b is Database) || (a is Io && b is Io),
    ensures
        status_of(a) == status_of(b),
        code_of(a) == code_of(b),
        message_of(a) == message_of(b),
{
}

} // verus!
