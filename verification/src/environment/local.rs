//! Direct execution on this machine.
//!
//! The mode where the root boundary is load-bearing and unbacked: nothing
//! underneath enforces the root, so escape is refused here or not at all. A
//! path is refused lexically first, and checked again once links are followed,
//! which is what catches a link inside the root pointing out of it.
use vstd::prelude::*;
use crate::environment::confine::{inside, lies_in, peel, peeled, rebuild, rebuilt, Unresolved};
use crate::environment::exec::{Outcome, Run};
use crate::environment::machine::EntryKind;
use crate::environment::path::{Root, RootedPath};
use crate::environment::target::{Manifest, Posture, Reachability, Scope};
use crate::error::{faulted, Capability, Denial, DenialModel, Fault, FaultModel};
use crate::text::{chars_of, pairs, string_of, texts};

verus! {

/// The shell commands are run with.
pub const SHELL: &'static str = "/bin/sh";

/// What a probe found on a machine.
#[derive(Debug)]
pub struct Probed {
    pub os: String,
    pub arch: String,
    pub tools: Vec<(String, String)>,
}

/// Direct execution on this machine.
pub struct LocalTarget;

impl LocalTarget {
    /// What a local target publishes.
    ///
    /// No pty: background stdin is a pipe, so a program that opens a terminal
    /// will not prompt into it, and advertising one would hand the agent a
    /// capability it can only disprove by a write that goes nowhere.
    pub fn bind(label: String, root: Root, probed: Probed, probed_at: u64) -> (r: Manifest)
        ensures
            r.label@ == label@,
            r.os@ == probed.os@,
            r.arch@ == probed.arch@,
            r.shell@ == SHELL@,
            r.root == root,
            r.tools == probed.tools,
            r.capabilities@ == seq![
                Capability::Exec,
                Capability::Background,
                Capability::Stdin,
                Capability::Read,
                Capability::Write,
                Capability::Edit,
                Capability::Patch,
                Capability::List,
            ],
            r.scope == Scope::Workspace,
            r.network == Reachability::Unknown,
            r.posture == Posture::Conventional,
            pairs(r.agent_env@) == seq![
                ("FABER_AGENT"@, "1"@),
                ("FABER_TARGET"@, label@),
            ],
            !r.login_shell_sourced,
            r.probed_at == probed_at,
    {
        let agent_env = vec![
            ("FABER_AGENT".to_owned(), "1".to_owned()),
            ("FABER_TARGET".to_owned(), label.clone()),
        ];
        assert(pairs(agent_env@) =~= seq![
            ("FABER_AGENT"@, "1"@),
            ("FABER_TARGET"@, label@),
        ]);
        let capabilities = vec![
            Capability::Exec,
            Capability::Background,
            Capability::Stdin,
            Capability::Read,
            Capability::Write,
            Capability::Edit,
            Capability::Patch,
            Capability::List,
        ];
        assert(capabilities@ =~= seq![
            Capability::Exec,
            Capability::Background,
            Capability::Stdin,
            Capability::Read,
            Capability::Write,
            Capability::Edit,
            Capability::Patch,
            Capability::List,
        ]);
        Manifest {
            label,
            os: probed.os,
            arch: probed.arch,
            shell: SHELL.to_owned(),
            root,
            tools: probed.tools,
            capabilities,
            scope: Scope::Workspace,
            network: Reachability::Unknown,
            posture: Posture::Conventional,
            agent_env,
            login_shell_sourced: false,
            probed_at,
        }
    }
}

/// Why a command is not spawned on this machine.
pub open spec fn spawn_fault(run: Run) -> Option<FaultModel> {
    if run.pty {
        Some(FaultModel::Denied(DenialModel::MissingCapability(Capability::Pty)))
    } else if run.argv@.len() == 0 {
        Some(
            FaultModel::Denied(
                DenialModel::Malformed {
                    what: "command"@,
                    reason: "an empty argv names no program"@,
                },
            ),
        )
    } else {
        None
    }
}

/// Processes started on this machine.
pub struct LocalSpawn;

impl LocalSpawn {
    /// Whether a command can be spawned: it names a program, and wants no
    /// terminal.
    pub fn spawn(run: &Run) -> (r: Result<(), Fault>)
        ensures
            faulted(r) == spawn_fault(*run),
    {
        if run.pty {
            return Err(Fault::Denied(Denial::MissingCapability(Capability::Pty)));
        }
        if run.argv.len() == 0 {
            return Err(
                Fault::Denied(
                    Denial::Malformed {
                        what: "command".to_owned(),
                        reason: "an empty argv names no program".to_owned(),
                    },
                ),
            );
        }
        Ok(())
    }
}

/// What is known of a process on this machine.
#[derive(Debug, Clone, Copy, PartialEq, Eq, Structural)]
pub struct LocalProc {
    /// Whether its handle is still held.
    pub held: bool,
    pub pid: Option<u32>,
    pub outcome: Option<Outcome>,
}

/// What a spent handle is answered with.
pub open spec fn spent() -> FaultModel {
    FaultModel::Unreachable("the process handle is spent"@)
}

impl LocalProc {
    /// The outcome of a wait, where it is known without one.
    pub fn wait(&self) -> (r: Result<Option<Outcome>, Fault>)
        ensures
            match self.outcome {
                Some(outcome) => r == Ok::<Option<Outcome>, Fault>(Some(outcome)),
                None => if self.held {
                    r == Ok::<Option<Outcome>, Fault>(None)
                } else {
                    faulted(r) == Some(spent())
                },
            },
    {
        match self.outcome {
            Some(outcome) => Ok(Some(outcome)),
            None => {
                if self.held {
                    Ok(None)
                } else {
                    Err(Fault::Unreachable("the process handle is spent".to_owned()))
                }
            },
        }
    }

    /// Records a reaped process and releases the handle.
    pub fn reaped(&mut self, outcome: Outcome) -> (r: Outcome)
        ensures
            r == outcome,
            *final(self) == (LocalProc { held: false, outcome: Some(outcome), ..*old(self) }),
    {
        self.outcome = Some(outcome);
        self.held = false;
        outcome
    }

    /// The pid to signal. A reaped process has none left: its number may
    /// already be somebody else's.
    pub fn signal(&self) -> (r: Result<u32, Fault>)
        ensures
            if self.outcome is Some || !self.held {
                faulted(r) == Some(spent())
            } else {
                match self.pid {
                    Some(pid) => r == Ok::<u32, Fault>(pid),
                    None => faulted(r) == Some(FaultModel::Unreachable("the process has no pid"@)),
                }
            },
    {
        if self.outcome.is_some() || !self.held {
            return Err(Fault::Unreachable("the process handle is spent".to_owned()));
        }
        match self.pid {
            Some(pid) => Ok(pid),
            None => Err(Fault::Unreachable("the process has no pid".to_owned())),
        }
    }
}

/// A path without the separators and dots that name nothing at its end.
pub open spec fn settled(path: Seq<char>) -> Seq<char>
    decreases path.len(),
{
    if path.len() > 1 && path.last() == '/' {
        settled(path.drop_last())
    } else if path.len() > 1 && path.last() == '.' && path[path.len() - 2] == '/' {
        settled(path.drop_last())
    } else {
        path
    }
}

fn settle(path: &str) -> (r: String)
    ensures
        r@ == settled(path@),
{
    let chars = chars_of(path);
    let mut end: usize = chars.len();
    assert(path@.take(end as int) =~= path@);
    while end > 1 && (chars[end - 1] == '/' || (chars[end - 1] == '.' && chars[end - 2] == '/'))
        invariant
            end <= chars@.len(),
            chars@ == path@,
            settled(path@) == settled(path@.take(end as int)),
        decreases end,
    {
        assert(path@.take(end as int).drop_last() =~= path@.take(end - 1));
        end -= 1;
    }
    let kept = string_of(chars.as_slice(), 0, end);
    assert(kept@ =~= path@.take(end as int));
    kept
}

/// This machine's own filesystem.
#[derive(Debug)]
pub struct LocalFiles {
    /// The root with every link followed.
    pub real_root: String,
}

/// A path that leaves the root.
pub open spec fn escape_fault(path: Seq<char>, reason: Seq<char>) -> FaultModel {
    FaultModel::Denied(DenialModel::PathEscape { path, reason })
}

pub fn escape(path: &RootedPath, reason: &str) -> (r: Fault)
    ensures
        r@ == escape_fault(path@, reason@),
{
    Fault::Denied(
        Denial::PathEscape { path: path.as_str().to_owned(), reason: reason.to_owned() },
    )
}

/// A path that could not be read: a missing one is a denial naming the path,
/// and anything else is the transport's problem rather than the request's.
pub fn missing(path: &RootedPath, not_found: bool, error: String) -> (r: Fault)
    ensures
        r@ == if not_found {
            FaultModel::Denied(DenialModel::NotFound { path: path@ })
        } else {
            FaultModel::Unreachable(error@)
        },
{
    if not_found {
        Fault::Denied(Denial::NotFound { path: path.as_str().to_owned() })
    } else {
        Fault::Unreachable(error)
    }
}

impl LocalFiles {
    /// Starts resolving a path: all of it is still to be resolved.
    pub fn begin(path: &RootedPath) -> (r: Unresolved)
        ensures
            r.existing@ == path@,
            r.trailing@.len() == 0,
    {
        Unresolved { existing: path.as_str().to_owned(), trailing: Vec::new() }
    }

    /// Takes the last name off what could not be resolved.
    pub fn climb(state: Unresolved, path: &RootedPath) -> (r: Result<Unresolved, Fault>)
        ensures
            match peeled(settled(state.existing@)) {
                Some(halves) => r matches Ok(next) && next.existing@ == halves.0 && texts(
                    next.trailing@,
                ) == texts(state.trailing@).push(halves.1),
                None => faulted(r) == Some(
                    escape_fault(path@, "path does not resolve inside the target's root"@),
                ),
            },
    {
        match peel(settle(state.existing.as_str()).as_str()) {
            Some((parent, name)) => {
                let mut trailing = state.trailing;
                let ghost before = texts(trailing@);
                trailing.push(name);
                assert(texts(trailing@) =~= before.push(name@));
                Ok(Unresolved { existing: parent, trailing })
            },
            None => Err(escape(path, "path does not resolve inside the target's root")),
        }
    }

    /// The real path, once an ancestor was resolved to `ancestor`, and whether all
    /// of it exists. Anything that leaves the root is refused.
    pub fn resolve(&self, state: &Unresolved, ancestor: &str, path: &RootedPath) -> (r: Result<
        (String, bool),
        Fault,
    >)
        ensures
            ({
                let full = rebuilt(ancestor@, texts(state.trailing@));
                if inside(self.real_root@, full) {
                    r matches Ok(found) && found.0@ == full && found.1 == (
                    state.trailing@.len() == 0)
                } else {
                    faulted(r) == Some(
                        escape_fault(path@, "resolves outside the target's root via a symlink"@),
                    )
                }
            }),
    {
        let full = rebuild(ancestor, &state.trailing);
        if lies_in(self.real_root.as_str(), full.as_str()) {
            Ok((full, state.trailing.len() == 0))
        } else {
            Err(escape(path, "resolves outside the target's root via a symlink"))
        }
    }
}

/// What an entry is, by what its metadata says of it.
pub fn kind_of(is_dir: bool, is_file: bool, is_symlink: bool) -> (r: EntryKind)
    ensures
        r == if is_dir {
            EntryKind::Dir
        } else if is_file {
            EntryKind::File
        } else if is_symlink {
            EntryKind::Symlink
        } else {
            EntryKind::Other
        },
{
    if is_dir {
        EntryKind::Dir
    } else if is_file {
        EntryKind::File
    } else if is_symlink {
        EntryKind::Symlink
    } else {
        EntryKind::Other
    }
}

/// What names nothing at a path's end is taken off, however much of it there is,
/// and a path that ends in a name is left as it is.
pub proof fn what_names_nothing_is_taken_off(path: Seq<char>)
    requires
        path.len() > 0,
    ensures
        settled(path.push('/')) == settled(path),
        settled(path.push('/').push('.')) == settled(path),
        path.last() != '/' && path.last() != '.' ==> settled(path) == path,
        path.len() > 1 && path.last() == '.' && path[path.len() - 2] != '/' ==> settled(path)
            == path,
        settled(seq!['/']) == seq!['/'],
{
    assert(path.push('/').drop_last() =~= path);
    assert(path.push('/').push('.').drop_last() =~= path.push('/'));
    assert(path.push('/').push('.')[path.len() as int] == '/');
}

/// A command is spawned just where it names a program and wants no terminal.
pub proof fn a_command_names_a_program(run: Run)
    ensures
        spawn_fault(run) is None <==> !run.pty && run.argv@.len() > 0,
        run.pty ==> spawn_fault(run) == Some(
            FaultModel::Denied(DenialModel::MissingCapability(Capability::Pty)),
        ),
{
}

/// A path that leaves the root is refused by its own name and with the reason.
pub proof fn an_escape_names_its_path(path: Seq<char>, reason: Seq<char>)
    ensures
        escape_fault(path, reason) == FaultModel::Denied(DenialModel::PathEscape { path, reason }),
        escape_fault(path, reason).sentence() == "`"@ + path + "` "@ + reason,
{
}

} // verus!
