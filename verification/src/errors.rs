//! Error taxonomy of the engine.
//!
//! `NotFound` is a normal outcome ("show nothing"), never a fault. The
//! duplicate and validation errors are caller-correctable. Storage and I/O
//! faults abort the current operation.

use vstd::prelude::*;

verus! {

/// Every failure the engine can report.
#[derive(Debug)]
pub enum VracError {
    /// A live token already occupies the requested path.
    TokenAlreadyExists(String),
    /// A credentialed user with this name already exists.
    UserAlreadyExists(String),
    /// A malformed field or unrecognized enumeration value.
    Validation(String),
    /// The token or file is absent, invalid or deleted.
    NotFound,
    /// The upload exceeded the token's byte budget.
    PayloadTooLarge,
    /// The incoming byte stream was malformed.
    ProtocolDecode,
    /// A persistence fault.
    Storage,
    /// A filesystem fault other than "not found".
    Io,
}

impl VracError {
    /// A short, user-presentable description of the error.
    pub fn message(&self) -> (r: String)
        ensures
            self matches VracError::TokenAlreadyExists(p) ==> r@ == "Token already exists: "@
                + p@,
            self matches VracError::UserAlreadyExists(u) ==> r@ == "User already exists: "@ + u@,
            self matches VracError::Validation(m) ==> r@ == m@,
            self is NotFound ==> r@ == "not found"@,
            self is PayloadTooLarge ==> r@ == "payload too large"@,
            self is ProtocolDecode ==> r@ == "malformed upload stream"@,
            self is Storage ==> r@ == "storage error"@,
            self is Io ==> r@ == "IO error"@,
    {
        match self {
            VracError::TokenAlreadyExists(p) => String::from_str("Token already exists: ").concat(
                p.as_str(),
            ),
            VracError::UserAlreadyExists(u) => String::from_str("User already exists: ").concat(
                u.as_str(),
            ),
            VracError::Validation(m) => m.clone(),
            VracError::NotFound => String::from_str("not found"),
            VracError::PayloadTooLarge => String::from_str("payload too large"),
            VracError::ProtocolDecode => String::from_str("malformed upload stream"),
            VracError::Storage => String::from_str("storage error"),
            VracError::Io => String::from_str("IO error"),
        }
    }
}

} // verus!
