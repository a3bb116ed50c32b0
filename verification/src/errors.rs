//! The error taxonomy the service maps onto transport status codes, and the
//! error classes of the relational store.

use vstd::prelude::*;

verus! {

/// Errors the service surfaces to callers, one per transport status code.
/// `InvalidArgument` names the offending request field.
#[derive(Clone, Debug, PartialEq, Eq)]
pub enum ServiceError {
    InvalidArgument(String),
    Unauthenticated,
    PermissionDenied,
    NotFound,
    AlreadyExists,
    FailedPrecondition,
    Unavailable,
    DeadlineExceeded,
    Internal,
}

impl ServiceError {
    /// The stable status-code name of this error.
    pub fn code(&self) -> (c: &'static str)
        ensures
            c@ == spec_code(*self),
    {
        match self {
            ServiceError::InvalidArgument(_) => "invalid-argument",
            ServiceError::Unauthenticated => "unauthenticated",
            ServiceError::PermissionDenied => "permission-denied",
            ServiceError::NotFound => "not-found",
            ServiceError::AlreadyExists => "already-exists",
            ServiceError::FailedPrecondition => "failed-precondition",
            ServiceError::Unavailable => "unavailable",
            ServiceError::DeadlineExceeded => "deadline-exceeded",
            ServiceError::Internal => "internal",
        }
    }
}

/// The status-code name of each error.
pub open spec fn spec_code(e: ServiceError) -> Seq<char> {
    match e {
        ServiceError::InvalidArgument(_) => "invalid-argument"@,
        ServiceError::Unauthenticated => "unauthenticated"@,
        ServiceError::PermissionDenied => "permission-denied"@,
        ServiceError::NotFound => "not-found"@,
        ServiceError::AlreadyExists => "already-exists"@,
        ServiceError::FailedPrecondition => "failed-precondition"@,
        ServiceError::Unavailable => "unavailable"@,
        ServiceError::DeadlineExceeded => "deadline-exceeded"@,
        ServiceError::Internal => "internal"@,
    }
}

/// The invalid-argument error for a request field that is not a version-4
/// UUID.
pub fn invalid_uuid_error(field: &str) -> (e: ServiceError)
    ensures
        e matches ServiceError::InvalidArgument(f) && f@ == field@,
{
    ServiceError::InvalidArgument(field.to_owned())
}

/// Error classes of the relational store.
#[derive(Clone, Copy, Debug, PartialEq, Eq, Structural)]
pub enum DbError {
    NotFound,
    UniqueViolation,
    ForeignKeyViolation,
    Transport,
    Other,
}

} // verus!
