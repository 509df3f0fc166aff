//! What a session can be told to reach, and what it currently reaches.
//!
//! There is nothing here that a model can reach: binding is the user's.
use vstd::prelude::*;
use crate::environments::Candidate;
use crate::models::session::SessionEnvironment;

verus! {

/// One name the caller could tag, and enough about it to choose between two
/// that look alike.
#[derive(Debug)]
pub struct CandidateResponse {
    pub label: String,
    pub kind: &'static str,
    pub host_id: u128,
    pub host_name: String,
    pub container_id: Option<u128>,
    pub root_path: String,
    /// Shown rather than filtered: a name that is missing from the picker looks
    /// like a name that does not exist.
    pub disabled: bool,
}

impl CandidateResponse {
    /// Whether this shows a candidate.
    pub open spec fn shows(&self, candidate: Candidate) -> bool {
        &&& self.label@ == candidate.label@
        &&& self.kind@ == candidate.kind@
        &&& self.host_id == candidate.host_id
        &&& self.host_name@ == candidate.host_name@
        &&& self.container_id == candidate.container_id
        &&& self.root_path@ == candidate.root_path@
        &&& self.disabled == candidate.disabled
    }
}

/// Everything that can be tagged, in order.
pub fn list_candidates(found: &Vec<Candidate>) -> (r: Vec<CandidateResponse>)
    ensures
        r@.len() == found@.len(),
        forall|i: int| 0 <= i < r@.len() ==> (#[trigger] r@[i]).shows(found@[i]),
{
    let mut responses: Vec<CandidateResponse> = Vec::new();
    let mut i: usize = 0;
    while i < found.len()
        invariant
            i <= found@.len(),
            responses@.len() == i,
            forall|k: int| 0 <= k < i ==> (#[trigger] responses@[k]).shows(found@[k]),
        decreases found@.len() - i,
    {
        let candidate = &found[i];
        responses.push(
            CandidateResponse {
                label: candidate.label.clone(),
                kind: candidate.kind,
                host_id: candidate.host_id,
                host_name: candidate.host_name.clone(),
                container_id: candidate.container_id,
                root_path: candidate.root_path.clone(),
                disabled: candidate.disabled,
            },
        );
        i += 1;
    }
    responses
}

/// A binding as the client sees it.
#[derive(Debug)]
pub struct BoundResponse {
    pub label: String,
    pub host_id: u128,
    pub container_id: Option<u128>,
    pub added_at: i64,
    /// Set once the label has been unbound. The row stays, and so does the
    /// claim on the name.
    pub removed_at: Option<i64>,
}

pub fn bound_response(row: &SessionEnvironment) -> (r: BoundResponse)
    ensures
        r.label@ == row.label@,
        r.host_id == row.host_id,
        r.container_id == row.container_id,
        r.added_at == row.added_at,
        r.removed_at == row.removed_at,
{
    BoundResponse {
        label: row.label.clone(),
        host_id: row.host_id,
        container_id: row.container_id,
        added_at: row.added_at,
        removed_at: row.removed_at,
    }
}

/// A candidate is shown as it is: each field under its own name.
pub proof fn a_candidate_is_shown_as_it_is(response: CandidateResponse, candidate: Candidate)
    requires
        response.shows(candidate),
    ensures
        response.label@ == candidate.label@,
        response.kind@ == candidate.kind@,
        response.host_id == candidate.host_id,
        response.host_name@ == candidate.host_name@,
        response.container_id == candidate.container_id,
        response.root_path@ == candidate.root_path@,
        response.disabled == candidate.disabled,
{
}

} // verus!
