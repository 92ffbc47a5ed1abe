//! The service's error type and the HTTP status that each error is answered with.

use vstd::prelude::*;

verus! {

/// The kinds of error the service reports.
#[derive(Debug, Clone, Copy, PartialEq, Eq, Structural)]
pub enum ErrorKind {
    Validation,
    Unauthorized,
    Conflict,
    Database,
    Hash,
    Token,
}

/// An error of the service: its kind and the message shown to the client.
#[derive(Debug, Clone)]
pub enum AppError {
    Validation(String),
    Unauthorized(String),
    Conflict(String),
    Database(String),
    Hash(String),
    Token(String),
}

pub type AppResult<T> = Result<T, AppError>;

/// The HTTP status code that answers an error of kind `k`.
pub open spec fn status_of(k: ErrorKind) -> u16 {
    match k {
        ErrorKind::Validation => 400,
        ErrorKind::Unauthorized => 401,
        ErrorKind::Conflict => 409,
        ErrorKind::Database | ErrorKind::Hash | ErrorKind::Token => 500,
    }
}

impl AppError {
    pub open spec fn kind(self) -> ErrorKind {
        match self {
            AppError::Validation(_) => ErrorKind::Validation,
            AppError::Unauthorized(_) => ErrorKind::Unauthorized,
            AppError::Conflict(_) => ErrorKind::Conflict,
            AppError::Database(_) => ErrorKind::Database,
            AppError::Hash(_) => ErrorKind::Hash,
            AppError::Token(_) => ErrorKind::Token,
        }
    }

    pub open spec fn text(self) -> Seq<char> {
        match self {
            AppError::Validation(m) => m@,
            AppError::Unauthorized(m) => m@,
            AppError::Conflict(m) => m@,
            AppError::Database(m) => m@,
            AppError::Hash(m) => m@,
            AppError::Token(m) => m@,
        }
    }

    /// The error is of kind `k` with message `m`.
    pub open spec fn is(self, k: ErrorKind, m: Seq<char>) -> bool {
        self.kind() == k && self.text() == m
    }

    /// The HTTP status code of the response that reports this error.
    pub fn status_code(&self) -> (c: u16)
        ensures
            c == status_of(self.kind()),
    {
        match self {
            AppError::Validation(_) => 400,
            AppError::Unauthorized(_) => 401,
            AppError::Conflict(_) => 409,
            AppError::Database(_) | AppError::Hash(_) | AppError::Token(_) => 500,
        }
    }

    /// The message shown to the client.
    pub fn message(&self) -> (m: String)
        ensures
            m@ == self.text(),
    {
        match self {
            AppError::Validation(m) => m.clone(),
            AppError::Unauthorized(m) => m.clone(),
            AppError::Conflict(m) => m.clone(),
            AppError::Database(m) => m.clone(),
            AppError::Hash(m) => m.clone(),
            AppError::Token(m) => m.clone(),
        }
    }
}

} // verus!
