//! Authorization for the conversation model.
//!
//! Reachability is always the same question: is the caller a member of the
//! workspace this row ultimately hangs off? A row the caller cannot reach is
//! not found, never forbidden: whether a session exists is itself information.
use vstd::prelude::*;
use crate::error::{AppError, ErrorModel};

verus! {

/// Why a query gave no row.
#[derive(Debug, Clone, Copy, PartialEq, Eq, Structural)]
pub enum RowError {
    NotFound,
    /// The row's key is taken.
    UniqueViolation,
    /// The database itself failed.
    Failed,
}

/// A missing row is not found; a real failure stays one.
pub fn scope_error(error: RowError, context: &str) -> (r: AppError)
    ensures
        r@ == if error == RowError::NotFound {
            ErrorModel::NotFound
        } else {
            ErrorModel::Database(context@)
        },
{
    match error {
        RowError::NotFound => AppError::NotFound,
        _ => AppError::Database(context.to_owned()),
    }
}

/// Every user has exactly one personal workspace, so its absence is a failure
/// of the database's own invariant and not a missing row.
pub fn personal_workspace_error(error: RowError) -> (r: AppError)
    ensures
        r@ == if error == RowError::NotFound {
            ErrorModel::Internal
        } else {
            ErrorModel::Database("access.personal_workspace"@)
        },
{
    match error {
        RowError::NotFound => AppError::Internal,
        _ => AppError::Database("access.personal_workspace".to_owned()),
    }
}

/// What a failed insert is answered with: the given text where the key is
/// taken.
pub fn insert_error(error: RowError, taken: AppError, context: &str) -> (r: AppError)
    ensures
        r@ == if error == RowError::UniqueViolation {
            taken@
        } else {
            ErrorModel::Database(context@)
        },
{
    match error {
        RowError::UniqueViolation => taken,
        _ => AppError::Database(context.to_owned()),
    }
}

/// What a failed update is answered with.
pub fn update_error(error: RowError, taken: &str, context: &str) -> (r: AppError)
    ensures
        r@ == match error {
            RowError::NotFound => ErrorModel::NotFound,
            RowError::UniqueViolation => ErrorModel::BadRequest(taken@),
            RowError::Failed => ErrorModel::Database(context@),
        },
{
    match error {
        RowError::NotFound => AppError::NotFound,
        RowError::UniqueViolation => AppError::BadRequest(taken.to_owned()),
        RowError::Failed => AppError::Database(context.to_owned()),
    }
}

/// Whether a deletion or an ending touched anything.
pub fn touched(rows: usize) -> (r: Result<(), AppError>)
    ensures
        crate::error::refusal(r) == if rows == 0 {
            Some(ErrorModel::NotFound)
        } else {
            None
        },
{
    if rows == 0 {
        Err(AppError::NotFound)
    } else {
        Ok(())
    }
}

} // verus!
