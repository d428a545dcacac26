//! Application error values: a machine-readable code plus a human-readable
//! message. No error kind carries internal details beyond those two strings.

use vstd::prelude::*;

verus! {

/// An error surfaced to callers: `code` is machine-readable, `message` is for
/// a human. The codes the library emits are fixed strings such as
/// `invalid_symbol`, `invalid_settings`, `rate_limited` or `persistence_error`
/// variants; contracts pin them exactly.
#[derive(Debug, PartialEq, Eq)]
pub struct AppError {
    pub code: String,
    pub message: String,
}

impl Clone for AppError {
    fn clone(&self) -> (res: Self)
        ensures
            res@ == self@,
    {
        AppError { code: self.code.clone(), message: self.message.clone() }
    }
}

/// Spec-level image of an [`AppError`]: both strings as character sequences.
pub struct AppErrorView {
    pub code: Seq<char>,
    pub message: Seq<char>,
}

impl View for AppError {
    type V = AppErrorView;

    open spec fn view(&self) -> AppErrorView {
        AppErrorView { code: self.code@, message: self.message@ }
    }
}

impl AppError {
    /// Builds an error out of a code and a message, verbatim.
    pub fn new(code: &str, message: &str) -> (r: AppError)
        ensures
            r@.code == code@,
            r@.message == message@,
    {
        AppError { code: code.to_owned(), message: message.to_owned() }
    }

    /// An input-validation failure.
    pub fn validation(code: &str, message: &str) -> (r: AppError)
        ensures
            r@.code == code@,
            r@.message == message@,
    {
        AppError::new(code, message)
    }

    /// A provider or network failure.
    pub fn provider(code: &str, message: &str) -> (r: AppError)
        ensures
            r@.code == code@,
            r@.message == message@,
    {
        AppError::new(code, message)
    }

    /// A persistence (read/write/decode) failure.
    pub fn persistence(code: &str, message: &str) -> (r: AppError)
        ensures
            r@.code == code@,
            r@.message == message@,
    {
        AppError::new(code, message)
    }

    /// An internal failure that fits no other family.
    pub fn internal(code: &str, message: &str) -> (r: AppError)
        ensures
            r@.code == code@,
            r@.message == message@,
    {
        AppError::new(code, message)
    }
}

} // verus!
