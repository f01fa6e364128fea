//! Application errors and what clients are told of them.
use vstd::prelude::*;
use crate::text;

verus! {

/// Application-level error type.
///
/// Variants map to HTTP status codes.  Internal details are kept
/// server-side and not exposed to clients.  The database's and the file
/// system's errors are held by their text.
#[derive(Debug, Clone, PartialEq, Eq)]
pub enum AppError {
    Notmuch(String),
    MailParse(String),
    Io(String),
    NotFound(String),
    BadRequest(String),
    Internal(String),
    Unsupported(String),
    ServiceUnavailable(String),
}

/// The status code and client message of each error: not found (404), bad
/// request (400) and service unavailable (503) with their own message, and
/// every other error as a generic internal server error (500).
pub open spec fn response_spec(e: AppError) -> (u16, Seq<char>) {
    match e {
        AppError::NotFound(m) => (404, m@),
        AppError::BadRequest(m) => (400, m@),
        AppError::ServiceUnavailable(m) => (503, m@),
        _ => (500, "internal server error"@),
    }
}

/// The text of an error (its `Display`): a prefix naming the kind, then the
/// detail.
pub open spec fn message_spec(e: AppError) -> Seq<char> {
    match e {
        AppError::Notmuch(m) => "notmuch database error: "@ + m@,
        AppError::MailParse(m) => "mail parse error: "@ + m@,
        AppError::Io(m) => "IO error: "@ + m@,
        AppError::NotFound(m) => "not found: "@ + m@,
        AppError::BadRequest(m) => "bad request: "@ + m@,
        AppError::Internal(m) => "internal error: "@ + m@,
        AppError::Unsupported(m) => "unsupported: "@ + m@,
        AppError::ServiceUnavailable(m) => "service unavailable: "@ + m@,
    }
}

impl AppError {
    /// The HTTP status code and the message a client is shown.
    pub fn response(&self) -> (r: (u16, String))
        ensures
            r.0 == response_spec(*self).0,
            r.1@ == response_spec(*self).1,
    {
        match self {
            AppError::NotFound(m) => (404, text::copy_str(m.as_str())),
            AppError::BadRequest(m) => (400, text::copy_str(m.as_str())),
            AppError::ServiceUnavailable(m) => (503, text::copy_str(m.as_str())),
            _ => (500, text::copy_str("internal server error")),
        }
    }

    /// The text of the error.
    pub fn message(&self) -> (r: String)
        ensures
            r@ == message_spec(*self),
    {
        let (prefix, detail) = match self {
            AppError::Notmuch(m) => ("notmuch database error: ", m),
            AppError::MailParse(m) => ("mail parse error: ", m),
            AppError::Io(m) => ("IO error: ", m),
            AppError::NotFound(m) => ("not found: ", m),
            AppError::BadRequest(m) => ("bad request: ", m),
            AppError::Internal(m) => ("internal error: ", m),
            AppError::Unsupported(m) => ("unsupported: ", m),
            AppError::ServiceUnavailable(m) => ("service unavailable: ", m),
        };
        let mut r = text::copy_str(prefix);
        text::push_str(&mut r, detail.as_str());
        r
    }
}

} // verus!
