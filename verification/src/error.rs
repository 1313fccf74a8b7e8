//! The error taxonomy: a fault is the caller's or the server's, and is
//! rendered in one place to a status code and an error envelope.

use vstd::prelude::*;

verus! {

/// The status code of a fault of the caller.
pub const BAD_REQUEST: u16 = 400;

/// The status code of a fault of the server.
pub const INTERNAL_SERVER_ERROR: u16 = 500;

/// Why a request failed.
#[derive(Debug, PartialEq, Eq)]
pub enum AppError {
    /// The caller's input was invalid.
    BadRequest(String),
    /// The server failed for a reason that is not the caller's input.
    Internal(String),
}

/// A rendered fault: the status code and the envelope `{"error": ...}`.
#[derive(Debug, PartialEq, Eq)]
pub struct ErrorResponse {
    pub status: u16,
    pub error: String,
}

impl AppError {
    /// The text that the fault carries.
    pub open spec fn spec_message(&self) -> Seq<char> {
        match self {
            AppError::BadRequest(m) => m@,
            AppError::Internal(m) => m@,
        }
    }

    /// The status code that the fault is answered with.
    pub open spec fn spec_status_code(&self) -> u16 {
        match self {
            AppError::BadRequest(_) => BAD_REQUEST,
            AppError::Internal(_) => INTERNAL_SERVER_ERROR,
        }
    }

    /// The text that the fault carries.
    pub fn message(&self) -> (m: &str)
        ensures
            m@ == self.spec_message(),
    {
        match self {
            AppError::BadRequest(m) => m.as_str(),
            AppError::Internal(m) => m.as_str(),
        }
    }

    /// The fault as text: its message, with nothing added.
    pub fn to_string(&self) -> (s: String)
        ensures
            s@ == self.spec_message(),
    {
        match self {
            AppError::BadRequest(m) => m.clone(),
            AppError::Internal(m) => m.clone(),
        }
    }

    /// The status code that the fault is answered with: 400 for the caller's
    /// faults, 500 for the server's.
    pub fn status_code(&self) -> (code: u16)
        ensures
            code == self.spec_status_code(),
            self is BadRequest ==> code == 400,
            self is Internal ==> code == 500,
    {
        match self {
            AppError::BadRequest(_) => BAD_REQUEST,
            AppError::Internal(_) => INTERNAL_SERVER_ERROR,
        }
    }

    /// Renders the fault: its status code, and its message as the envelope's
    /// `error` field.
    pub fn into_response(self) -> (response: ErrorResponse)
        ensures
            response.status == self.spec_status_code(),
            response.error@ == self.spec_message(),
    {
        match self {
            AppError::BadRequest(m) => ErrorResponse { status: BAD_REQUEST, error: m },
            AppError::Internal(m) => ErrorResponse { status: INTERNAL_SERVER_ERROR, error: m },
        }
    }
}

} // verus!
