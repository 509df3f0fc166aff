//! What every target publishes, and how paths are taken under it.
//!
//! Three families of verb are absent by decision: no health verb, since the
//! authoritative answer is the call; no lifecycle verb, since an agent that can
//! restart its own container can destroy the state a user is inspecting; and no
//! bind verb, since enumeration reaches bound labels only.
use vstd::prelude::*;
use crate::environment::path::{path_denial, Root, RootedPath};
use crate::error::{faulted, Capability, Denial, DenialModel, Fault, FaultModel};

verus! {

/// How far a target reaches on its machine.
#[derive(Debug, Clone, Copy, PartialEq, Eq, Structural)]
pub enum Scope {
    Workspace,
    Machine,
}

/// Whether a target reaches a network. Nothing probed it, and asserting either
/// way gets believed.
#[derive(Debug, Clone, Copy, PartialEq, Eq, Structural)]
pub enum Reachability {
    Unknown,
    Reachable,
    Unreachable,
}

/// What stands behind a target's root.
#[derive(Debug, Clone, Copy, PartialEq, Eq, Structural)]
pub enum Posture {
    /// This library refuses escape and nothing under it does.
    Conventional,
    /// Something underneath enforces the boundary.
    Enforced,
}

/// What a target publishes when it is bound, frozen for the life of the
/// binding.
#[derive(Debug)]
pub struct Manifest {
    pub label: String,
    pub os: String,
    pub arch: String,
    pub shell: String,
    pub root: Root,
    pub tools: Vec<(String, String)>,
    pub capabilities: Vec<Capability>,
    pub scope: Scope,
    pub network: Reachability,
    pub posture: Posture,
    /// So that start-up files can see an agent is driving.
    pub agent_env: Vec<(String, String)>,
    pub login_shell_sourced: bool,
    /// Nanoseconds of the epoch.
    pub probed_at: u64,
}

/// Why a target refuses a call it is not capable of.
pub open spec fn capability_fault(held: Seq<Capability>, capability: Capability) -> Option<
    FaultModel,
> {
    if held.contains(capability) {
        None
    } else {
        Some(FaultModel::Denied(DenialModel::MissingCapability(capability)))
    }
}

impl Manifest {
    /// A missing capability is denied by name.
    pub fn require(&self, capability: Capability) -> (r: Result<(), Fault>)
        ensures
            faulted(r) == capability_fault(self.capabilities@, capability),
    {
        let mut i: usize = 0;
        while i < self.capabilities.len()
            invariant
                i <= self.capabilities@.len(),
                forall|k: int| 0 <= k < i ==> self.capabilities@[k] != capability,
            decreases self.capabilities@.len() - i,
        {
            if self.capabilities[i] == capability {
                return Ok(());
            }
            i += 1;
        }
        Err(Fault::Denied(Denial::MissingCapability(capability)))
    }
}

/// A bound target. The same transcript, replayed against a different target of
/// the same capabilities, makes the same calls.
pub trait Target {
    /// What the target publishes.
    spec fn published(&self) -> Manifest;

    /// Whether the target can be asked anything.
    spec fn bound(&self) -> bool;

    /// Published at bind, frozen for the life of the binding.
    fn manifest(&self) -> (r: &Manifest)
        requires
            self.bound(),
        ensures
            *r == self.published(),
            r.root.wf(),
    ;

    /// Resolves an agent-supplied path against this target's root. Escape
    /// refusal is identical in every mode.
    fn path(&self, path: &str) -> (r: Result<RootedPath, Fault>)
        ensures
            match r {
                Ok(rooted) => path_denial(path@) is None && rooted@ == path@ && rooted.wf(),
                Err(fault) => path_denial(path@) is Some && fault@ == FaultModel::Denied(
                    path_denial(path@)->0,
                ),
            },
    {
        match RootedPath::new(path) {
            Ok(rooted) => Ok(rooted),
            Err(denial) => Err(Fault::Denied(denial)),
        }
    }

    /// This target's root, the directory a command runs in by default.
    fn root(&self) -> (r: RootedPath)
        requires
            self.bound(),
        ensures
            r@ == self.published().root@,
            r.wf(),
    {
        RootedPath::root_of(&self.manifest().root)
    }
}

/// A target is asked for just what it holds; what it does not hold is denied by
/// its own name.
pub proof fn a_target_does_what_it_holds(held: Seq<Capability>, capability: Capability, i: int)
    ensures
        0 <= i < held.len() && held[i] == capability ==> capability_fault(held, capability) is None,
        (forall|k: int| 0 <= k < held.len() ==> #[trigger] held[k] != capability)
            ==> capability_fault(held, capability) == Some(
            FaultModel::Denied(DenialModel::MissingCapability(capability)),
        ),
{
}

} // verus!
