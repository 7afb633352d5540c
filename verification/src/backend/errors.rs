//! API error values and the JSON payload that carries their message.

use vstd::prelude::*;

verus! {

/// The body of an error response: `{"error": ...}`.
#[derive(Debug)]
pub struct ErrorPayload<'a> {
    pub error: &'a str,
}

/// The kinds of application error, each with its detail.
#[derive(Debug)]
pub enum AppErrorKind {
    BadRequest(String),
    NotFound(String),
    Internal(String),
}

impl AppErrorKind {
    /// The message of the error: its kind, a colon, and its detail.
    pub fn to_string(&self) -> (s: String)
        ensures
            self matches AppErrorKind::BadRequest(d) ==> s@ == "bad request: "@ + d@,
            self matches AppErrorKind::NotFound(d) ==> s@ == "not found: "@ + d@,
            self matches AppErrorKind::Internal(d) ==> s@ == "internal error: "@ + d@,
    {
        match self {
            AppErrorKind::BadRequest(d) => {
                let mut s = "bad request: ".to_owned();
                s.append(d.as_str());
                s
            },
            AppErrorKind::NotFound(d) => {
                let mut s = "not found: ".to_owned();
                s.append(d.as_str());
                s
            },
            AppErrorKind::Internal(d) => {
                let mut s = "internal error: ".to_owned();
                s.append(d.as_str());
                s
            },
        }
    }
}

/// A status code that HTTP accepts: three digits, from 100 to 999.
pub open spec fn is_status_code(status: u16) -> bool {
    100 <= status <= 999
}

/// The status code of an internal server error.
pub const INTERNAL_SERVER_ERROR: u16 = 500;

/// An error that an API handler answers with: a status code and a message.
#[derive(Debug)]
pub struct ApiError {
    pub status: u16,
    pub message: String,
}

impl ApiError {
    pub fn new(status: u16, message: &str) -> (e: ApiError)
        requires
            is_status_code(status),
        ensures
            e.status == status,
            e.message@ == message@,
    {
        ApiError { status, message: message.to_owned() }
    }

    /// An internal server error (status 500).
    pub fn internal(message: &str) -> (e: ApiError)
        ensures
            e.status == INTERNAL_SERVER_ERROR,
            e.message@ == message@,
    {
        ApiError { status: INTERNAL_SERVER_ERROR, message: message.to_owned() }
    }

    /// Whether the error is a server error (status 500 and above), which is
    /// logged when it is answered.
    pub fn is_server_error(&self) -> (b: bool)
        ensures
            b == (self.status >= 500),
    {
        self.status >= 500
    }

    /// The body of the response to this error.
    pub fn payload(&self) -> (p: ErrorPayload<'_>)
        ensures
            p.error@ == self.message@,
    {
        ErrorPayload { error: self.message.as_str() }
    }
}

/// The result of an API handler.
pub type Result<T> = std::result::Result<T, ApiError>;

} // verus!
