//! The typed service error model: every refusal carries one of five
//! failure categories and a human-readable message.

use crate::ids::Identity;
use vstd::prelude::*;

verus! {

/// A service failure, by category.
#[derive(Debug, PartialEq, Eq)]
pub enum ServiceError {
    /// The request is malformed.
    Validation { message: String },
    /// A referenced row does not exist.
    NotFound { message: String },
    /// The request contradicts the current state.
    Conflict { message: String },
    /// The caller may not perform the request.
    Forbidden { identity: Identity, message: String },
    /// The service itself failed.
    Internal { message: String },
}

/// The category of a service failure.
#[derive(Debug, Clone, Copy, PartialEq, Eq, Structural)]
pub enum ErrorKind {
    Validation,
    NotFound,
    Conflict,
    Forbidden,
    Internal,
}

impl ServiceError {
    /// The category of this failure.
    pub open spec fn kind(&self) -> ErrorKind {
        match self {
            ServiceError::Validation { .. } => ErrorKind::Validation,
            ServiceError::NotFound { .. } => ErrorKind::NotFound,
            ServiceError::Conflict { .. } => ErrorKind::Conflict,
            ServiceError::Forbidden { .. } => ErrorKind::Forbidden,
            ServiceError::Internal { .. } => ErrorKind::Internal,
        }
    }

    /// The message of this failure.
    pub open spec fn text(&self) -> Seq<char> {
        match self {
            ServiceError::Validation { message } => message@,
            ServiceError::NotFound { message } => message@,
            ServiceError::Conflict { message } => message@,
            ServiceError::Forbidden { message, .. } => message@,
            ServiceError::Internal { message } => message@,
        }
    }

    /// The message of this failure (executable).
    pub fn message(&self) -> (m: &String)
        ensures
            m@ == self.text(),
    {
        match self {
            ServiceError::Validation { message } => message,
            ServiceError::NotFound { message } => message,
            ServiceError::Conflict { message } => message,
            ServiceError::Forbidden { message, .. } => message,
            ServiceError::Internal { message } => message,
        }
    }
}

/// The result of a service operation.
pub type ServiceResult<T> = Result<T, ServiceError>;

} // verus!
