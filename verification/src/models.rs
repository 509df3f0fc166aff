//! Rows, as the rest of the library reads them.
//!
//! Row ids are the 128 bits of a UUID. The conversation tables count epoch
//! seconds; the machine tables count epoch microseconds.
use vstd::prelude::*;

pub mod catalog;
pub mod host;
pub mod model_config;
pub mod model_preset;
pub mod model_provider;
pub mod session;
pub mod thinking;

verus! {

/// Current time as epoch seconds: the single source for the tables that count
/// them.
///
/// Calls `chrono::Utc::now` and `timestamp` on what it returns. The clock
/// decides; only that the time is not before the epoch is stated.
#[verifier::external_body]
pub fn now_epoch() -> (r: i64)
    ensures
        r >= 0,
{
    chrono::Utc::now().timestamp()
}

} // verus!
