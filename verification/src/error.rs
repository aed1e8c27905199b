//! The service layer's error type.
use vstd::prelude::*;

verus! {

/// Failure categories reported by the service rules, each with a user-facing message.
#[derive(Debug, Clone, PartialEq, Eq)]
pub enum AppError {
    Validation(String),
    Conflict(String),
    NotFound(String),
    PermissionDenied(String),
    Authorization(String),
    Authentication(String),
    Config(String),
    Internal(String),
    ServiceUnavailable(String),
    Database(String),
    PayloadTooLarge(String),
}

pub type AppResult<T> = Result<T, AppError>;

impl AppError {
    /// Returns the user-facing message.
    pub fn message(&self) -> (r: &String)
        ensures
            r@ == self.spec_message(),
    {
        match self {
            AppError::Validation(m) => m,
            AppError::Conflict(m) => m,
            AppError::NotFound(m) => m,
            AppError::PermissionDenied(m) => m,
            AppError::Authorization(m) => m,
            AppError::Authentication(m) => m,
            AppError::Config(m) => m,
            AppError::Internal(m) => m,
            AppError::ServiceUnavailable(m) => m,
            AppError::Database(m) => m,
            AppError::PayloadTooLarge(m) => m,
        }
    }

    pub open spec fn spec_message(self) -> Seq<char> {
        match self {
            AppError::Validation(m) => m@,
            AppError::Conflict(m) => m@,
            AppError::NotFound(m) => m@,
            AppError::PermissionDenied(m) => m@,
            AppError::Authorization(m) => m@,
            AppError::Authentication(m) => m@,
            AppError::Config(m) => m@,
            AppError::Internal(m) => m@,
            AppError::ServiceUnavailable(m) => m@,
            AppError::Database(m) => m@,
            AppError::PayloadTooLarge(m) => m@,
        }
    }
}

/// Builds an `AppError::Validation` carrying `m`.
pub fn validation(m: String) -> (e: AppError)
    ensures
        e == AppError::Validation(m),
{
    AppError::Validation(m)
}

/// Builds an `AppError::Conflict` carrying `m`.
pub fn conflict(m: String) -> (e: AppError)
    ensures
        e == AppError::Conflict(m),
{
    AppError::Conflict(m)
}

/// Builds an `AppError::NotFound` carrying `m`.
pub fn not_found(m: String) -> (e: AppError)
    ensures
        e == AppError::NotFound(m),
{
    AppError::NotFound(m)
}

/// Builds an `AppError::PermissionDenied` carrying `m`.
pub fn permission_denied(m: String) -> (e: AppError)
    ensures
        e == AppError::PermissionDenied(m),
{
    AppError::PermissionDenied(m)
}

/// Builds an `AppError::Authorization` carrying `m`.
pub fn authorization(m: String) -> (e: AppError)
    ensures
        e == AppError::Authorization(m),
{
    AppError::Authorization(m)
}

/// Builds an `AppError::Authentication` carrying `m`.
pub fn authentication(m: String) -> (e: AppError)
    ensures
        e == AppError::Authentication(m),
{
    AppError::Authentication(m)
}

/// Builds an `AppError::Config` carrying `m`.
pub fn config(m: String) -> (e: AppError)
    ensures
        e == AppError::Config(m),
{
    AppError::Config(m)
}

/// Builds an `AppError::Internal` carrying `m`.
pub fn internal(m: String) -> (e: AppError)
    ensures
        e == AppError::Internal(m),
{
    AppError::Internal(m)
}

/// Builds an `AppError::ServiceUnavailable` carrying `m`.
pub fn service_unavailable(m: String) -> (e: AppError)
    ensures
        e == AppError::ServiceUnavailable(m),
{
    AppError::ServiceUnavailable(m)
}

/// Builds an `AppError::PayloadTooLarge` carrying `m`.
pub fn payload_too_large(m: String) -> (e: AppError)
    ensures
        e == AppError::PayloadTooLarge(m),
{
    AppError::PayloadTooLarge(m)
}

/// A database failure, reported with the driver's message.
pub fn database_error(message: String) -> (e: AppError)
    ensures
        e == AppError::Database(message),
{
    AppError::Database(message)
}

} // verus!
