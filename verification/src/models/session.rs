//! Sessions and their threads.
use vstd::prelude::*;

verus! {

#[derive(Debug)]
pub struct Session {
    pub id: u128,
    pub workspace_id: u128,
    pub title: Option<String>,
    pub created_at: i64,
    pub closed_at: Option<i64>,
    /// Alias of the model the next message goes to. `None` until something
    /// picks one.
    pub model_alias: Option<String>,
    /// The thinking knob as the user left it, in its stored form. `None` means
    /// never picked, which is not the same as picked-and-turned-off.
    pub thinking_effort: Option<String>,
}

/// A change to a session. `Some(None)` clears a column; `None` leaves it
/// alone.
#[derive(Debug)]
pub struct UpdateSession {
    pub title: Option<Option<String>>,
    /// `Some(None)` reopens a closed session.
    pub closed_at: Option<Option<i64>>,
    pub model_alias: Option<Option<String>>,
    /// `Some(None)` clears the selection back to the model's own default,
    /// which is a different state from having picked "off".
    pub thinking_effort: Option<Option<String>>,
}

/// One line of history in a session.
#[derive(Debug, Clone, Copy, PartialEq, Eq, Structural)]
pub struct Thread {
    pub id: u128,
    pub session_id: u128,
    pub parent_id: Option<u128>,
    pub forked_at_seq: Option<i32>,
    /// The position the next exchange takes.
    pub next_seq: i32,
    pub created_at: i64,
}

/// One environment a session may address, by the label the user tagged it
/// with.
///
/// Append-only: `removed_at` tombstones a binding and nothing deletes the row,
/// because the label stays claimed.
#[derive(Debug)]
pub struct SessionEnvironment {
    pub session_id: u128,
    pub label: String,
    pub host_id: u128,
    /// `None` means the host itself, in direct exec mode.
    pub container_id: Option<u128>,
    pub added_at: i64,
    pub removed_at: Option<i64>,
}

} // verus!
