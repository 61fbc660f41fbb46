//! The error values returned by the library's operations.

use vstd::prelude::*;
use crate::text::{push_all, signed_decimal, signed_decimal_chars};

verus! {

/// Application errors, each carrying what the UI shows.
#[derive(Clone, Debug, PartialEq, Eq)]
pub enum AppError {
    /// A field failed validation; `message` is the text shown to the user.
    Validation { field: String, message: String },
    /// The request conflicts with the current data.
    Conflict { reason: String },
    /// An entity does not exist (or is soft-deleted).
    NotFound { entity: String, id: i64 },
    /// Optimistic locking: the stored version differs from the expected one.
    OptimisticLockMismatch { entity: String, id: i64, expected: i64, actual: i64 },
    /// Authentication failed or is not allowed.
    Unauthorized,
    /// An outside service is not reachable.
    ServiceUnavailable { service: String },
    /// A registration request is waiting for an administrator.
    RegistrationPending { request_id: i64 },
    /// The account is blocked; `pending` tells whether a restore request is open.
    AccessBlocked { pending: bool, rejection_reason: Option<String> },
    /// An internal failure, with its cause.
    Internal { source_chain: String },
}

/// A validation error for `field` with `message`.
pub fn validation(field: &str, message: &str) -> (e: AppError)
    ensures
        e matches AppError::Validation { field: f, message: m } && f@ == field@ && m@ == message@,
{
    AppError::Validation { field: field.to_owned(), message: message.to_owned() }
}

/// A validation error whose field and message are already owned.
pub fn validation_owned(field: String, message: String) -> (e: AppError)
    ensures
        e matches AppError::Validation { field: f, message: m } && f@ == field@ && m@ == message@,
{
    AppError::Validation { field, message }
}

/// A conflict error with `reason`.
pub fn conflict(reason: String) -> (e: AppError)
    ensures
        e matches AppError::Conflict { reason: r } && r@ == reason@,
{
    AppError::Conflict { reason }
}

/// `e` is a validation error on `field` with `message`.
pub open spec fn is_validation(e: AppError, field: Seq<char>, message: Seq<char>) -> bool {
    e matches AppError::Validation { field: f, message: m } && f@ == field && m@ == message
}

/// `e` is a conflict with `reason`.
pub open spec fn is_conflict(e: AppError, reason: Seq<char>) -> bool {
    e matches AppError::Conflict { reason: r } && r@ == reason
}

/// The text an error is reported with where only a line of text fits.
pub open spec fn error_text_spec(e: AppError) -> Seq<char> {
    match e {
        AppError::Validation { field, message } => field@ + ": "@ + message@,
        AppError::Conflict { reason } => reason@,
        AppError::NotFound { entity, id } => entity@ + " "@ + signed_decimal(id as int) + " не найден"@,
        AppError::OptimisticLockMismatch { entity, id, expected, actual } => "optimistic lock: "@ + entity@ + " "@
            + signed_decimal(id as int) + " expected "@ + signed_decimal(expected as int) + ", actual "@
            + signed_decimal(actual as int),
        AppError::Unauthorized => "unauthorized"@,
        AppError::ServiceUnavailable { service } => "service unavailable: "@ + service@,
        AppError::RegistrationPending { request_id } => "registration pending: "@ + signed_decimal(request_id as int),
        AppError::AccessBlocked { .. } => "access blocked"@,
        AppError::Internal { source_chain } => source_chain@,
    }
}

/// One line of text for an error.
pub fn error_text(e: &AppError) -> (s: String)
    ensures
        s@ == error_text_spec(*e),
{
    let mut s = String::new();
    match e {
        AppError::Validation { field, message } => {
            s.append(field.as_str());
            s.append(": ");
            s.append(message.as_str());
        },
        AppError::Conflict { reason } => s.append(reason.as_str()),
        AppError::NotFound { entity, id } => {
            s.append(entity.as_str());
            s.append(" ");
            push_all(&mut s, &signed_decimal_chars(*id));
            s.append(" не найден");
        },
        AppError::OptimisticLockMismatch { entity, id, expected, actual } => {
            s.append("optimistic lock: ");
            s.append(entity.as_str());
            s.append(" ");
            push_all(&mut s, &signed_decimal_chars(*id));
            s.append(" expected ");
            push_all(&mut s, &signed_decimal_chars(*expected));
            s.append(", actual ");
            push_all(&mut s, &signed_decimal_chars(*actual));
        },
        AppError::Unauthorized => s.append("unauthorized"),
        AppError::ServiceUnavailable { service } => {
            s.append("service unavailable: ");
            s.append(service.as_str());
        },
        AppError::RegistrationPending { request_id } => {
            s.append("registration pending: ");
            push_all(&mut s, &signed_decimal_chars(*request_id));
        },
        AppError::AccessBlocked { .. } => s.append("access blocked"),
        AppError::Internal { source_chain } => s.append(source_chain.as_str()),
    }
    s
}

} // verus!
