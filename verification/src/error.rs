//! Errors reported by the library.

use vstd::prelude::*;
use vstd::string::*;
use crate::text::{i64_text, signed_decimal};

verus! {

/// What went wrong, with the detail the caller shows to the user.
#[derive(Clone, Debug, PartialEq, Eq)]
pub enum AppError {
    Database(String),
    /// An input/output failure, carried as its message.
    Io(String),
    SessionNotFound(String),
    GroupNotFound(i64),
    Scan(String),
    Image(String),
    Config(String),
    Other(String),
}

/// Shorthand for results whose error is an `AppError`.
pub type AppResult<T> = Result<T, AppError>;

/// The text an error is shown with.
pub open spec fn error_text(e: AppError) -> Seq<char> {
    match e {
        AppError::Database(m) => "database error: "@ + m@,
        AppError::Io(m) => "io error: "@ + m@,
        AppError::SessionNotFound(m) => "session not found: "@ + m@,
        AppError::GroupNotFound(id) => "group not found: "@ + signed_decimal(id as int),
        AppError::Scan(m) => "scan error: "@ + m@,
        AppError::Image(m) => "image error: "@ + m@,
        AppError::Config(m) => "invalid configuration: "@ + m@,
        AppError::Other(m) => m@,
    }
}

impl AppError {
    /// The text this error is shown with.
    pub fn message(&self) -> (t: String)
        ensures
            t@ == error_text(*self),
    {
        match self {
            AppError::Database(m) => String::from_str("database error: ").concat(m.as_str()),
            AppError::Io(m) => String::from_str("io error: ").concat(m.as_str()),
            AppError::SessionNotFound(m) => String::from_str("session not found: ").concat(m.as_str()),
            AppError::GroupNotFound(id) => {
                let n = i64_text(*id);
                String::from_str("group not found: ").concat(n.as_str())
            },
            AppError::Scan(m) => String::from_str("scan error: ").concat(m.as_str()),
            AppError::Image(m) => String::from_str("image error: ").concat(m.as_str()),
            AppError::Config(m) => String::from_str("invalid configuration: ").concat(m.as_str()),
            AppError::Other(m) => m.clone(),
        }
    }
}

} // verus!
