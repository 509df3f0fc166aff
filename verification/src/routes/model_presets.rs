//! Browsing the read-only preset catalog.
use vstd::prelude::*;
use crate::error::{refusal, AppError, ErrorModel};
use crate::routes::{clamp_limit, limit_for};

verus! {

/// Checks that the catalog was loaded at boot. One whose fetch failed leaves
/// every other route served.
pub fn catalog(loaded: bool) -> (r: Result<(), AppError>)
    ensures
        refusal(r) == if loaded {
            None
        } else {
            Some(
                ErrorModel::ServiceUnavailable(
                    "the model preset catalog is unavailable; the service could not load it at boot"@,
                ),
            )
        },
{
    if loaded {
        Ok(())
    } else {
        Err(
            AppError::ServiceUnavailable(
                "the model preset catalog is unavailable; the service could not load it at boot".to_owned(),
            ),
        )
    }
}

/// A page of the catalog: the rows `from..to` of those a filter left. `total`
/// is their count, so a client can page without guessing.
#[derive(Debug, Clone, Copy, PartialEq, Eq, Structural)]
pub struct Page {
    pub total: usize,
    pub limit: usize,
    pub offset: usize,
    pub from: usize,
    pub to: usize,
}

/// The rows a request skips.
pub open spec fn offset_for(requested: Option<i64>) -> int {
    match requested {
        Some(n) => if n < 0 {
            0
        } else {
            n as int
        },
        None => 0,
    }
}

pub open spec fn at_most(a: int, b: int) -> int {
    if a < b {
        a
    } else {
        b
    }
}

/// The page of `total` rows that a request asks for.
pub fn list(total: usize, limit: Option<i64>, offset: Option<i64>) -> (r: Page)
    requires
        offset_for(offset) <= usize::MAX,
    ensures
        r.total == total,
        r.limit == limit_for(limit),
        r.offset == offset_for(offset),
        r.from == at_most(r.offset as int, total as int),
        r.to == at_most(r.offset + r.limit, total as int),
{
    let rows: usize = clamp_limit(limit) as usize;
    let skipped: usize = match offset {
        Some(n) => if n < 0 {
            0
        } else {
            n as usize
        },
        None => 0,
    };
    let from: usize = if skipped < total {
        skipped
    } else {
        total
    };
    let to: usize = if total - from > rows {
        from + rows
    } else {
        total
    };
    Page { total, limit: rows, offset: skipped, from, to }
}

/// A request skips what it asks to skip, and nothing where it asks for less than
/// nothing or does not ask; and pages that follow each other leave no row out.
pub proof fn pages_follow_each_other(offset: i64, limit: int, total: int)
    requires
        limit > 0,
        total >= 0,
    ensures
        offset >= 0 ==> offset_for(Some(offset)) == offset,
        offset < 0 ==> offset_for(Some(offset)) == 0,
        offset_for(None) == 0,
        at_most(offset + limit, total) <= total,
        offset + limit <= total ==> at_most(offset + limit, total) == offset + limit,
        offset + limit > total ==> at_most(offset + limit, total) == total,
{
}

} // verus!
