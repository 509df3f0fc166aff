//! Everything a target does that does not depend on how it is reached.
//!
//! An agent is promised that path shape, failure classes, exec semantics,
//! truncation and working directories are identical whatever it is talking to.
//! With the behaviour here and only the plumbing elsewhere, there is nothing
//! left to disagree about.
use vstd::prelude::*;
use crate::environment::edit::{
    a_shown_window_splits_back, lemma_lines_hold_no_newline, lines_joined, lines_of, lossy,
    lossy_text, window_end, window_fault, window_of, Excerpt, Window,
};
use crate::environment::exec::{Cursor, Exec, Outcome, Run};
use crate::environment::glob::{glob_fault, glob_fits, glob_matches, validate_glob};
use crate::environment::path::{joined_path, path_denial, RootedPath};
use crate::environment::target::{capability_fault, Manifest, Target};
use crate::error::{faulted, Capability, Denial, DenialModel, Fault, FaultModel};
use crate::text::{
    decimal, decimal_of, hex, hex_of, is_before, join4, opt_str, pairs, precedes, split_on, texts,
};

verus! {

/// Bytes of one stream that are kept. Past this the capture is flagged
/// truncated and the whole of it goes to a spill file.
pub const CAPTURE_CAP: usize = 262144;

/// Output this size or larger also lands at a path inside the target, because
/// a span cannot be searched there and a path can.
pub const SPILL_THRESHOLD: usize = 65536;

/// Where spill files go, relative to the root.
pub const SPILL_DIR: &'static str = "/.faber/logs";

/// A bound target.
#[derive(Debug)]
pub struct Machine {
    manifest: Manifest,
    processes: std::collections::HashMap<u64, Background>,
    next_id: u64,
    /// Distinguishes this binding's spill files from an earlier binding's over
    /// the same root: a path recorded in an old transcript must not later
    /// resolve to different bytes.
    bind_nonce: u64,
}

/// What is known of a background process.
#[derive(Debug, Clone, Copy, PartialEq, Eq, Structural)]
pub struct Background {
    pub stdin_open: bool,
    pub outcome: Option<Outcome>,
}

/// What a path is on the far side.
#[derive(Debug, Clone, Copy, PartialEq, Eq, Structural)]
pub enum EntryKind {
    File,
    Dir,
    Symlink,
    Other,
}

/// A path as it is confined under the root, and what is there.
#[derive(Debug)]
pub struct Confined {
    pub path: String,
    pub kind: Option<EntryKind>,
}

impl Machine {
    /// The processes that were started and not forgotten.
    pub closed spec fn running(&self) -> Map<u64, Background> {
        self.processes@
    }

    /// The id the next call gets.
    pub closed spec fn next(&self) -> int {
        self.next_id as int
    }

    /// What this binding's spill files are told apart by.
    pub closed spec fn nonce(&self) -> u64 {
        self.bind_nonce
    }

    /// No process has an id that is still to be handed out.
    pub closed spec fn wf(&self) -> bool {
        &&& self.manifest.root.wf()
        &&& forall|id: u64| #[trigger] self.processes@.dom().contains(id) ==> id < self.next_id
    }

    /// Assembles a bound target.
    pub fn new(manifest: Manifest) -> (r: Machine)
        requires
            manifest.root.wf(),
        ensures
            r.wf(),
            r.published() == manifest,
            r.running() == Map::<u64, Background>::empty(),
            r.next() == 1,
            r.nonce() == manifest.probed_at,
    {
        broadcast use vstd::std_specs::hash::group_hash_axioms;

        let bind_nonce: u64 = manifest.probed_at;
        Machine {
            manifest,
            processes: std::collections::HashMap::new(),
            next_id: 1,
            bind_nonce,
        }
    }

    /// Hands out the next id.
    pub fn allocate(&mut self) -> (r: u64)
        requires
            old(self).wf(),
            old(self).next() < u64::MAX,
        ensures
            final(self).wf(),
            r == old(self).next(),
            final(self).next() == old(self).next() + 1,
            final(self).running() == old(self).running(),
            final(self).published() == old(self).published(),
            final(self).nonce() == old(self).nonce(),
    {
        let id: u64 = self.next_id;
        self.next_id = id + 1;
        id
    }
}

impl Target for Machine {
    closed spec fn published(&self) -> Manifest {
        self.manifest
    }

    closed spec fn bound(&self) -> bool {
        self.wf()
    }

    fn manifest(&self) -> (r: &Manifest) {
        &self.manifest
    }
}

// ---------------------------------------------------------------------------
// Running commands
// ---------------------------------------------------------------------------

impl Machine {
    /// What a command needs of its target.
    pub open spec fn needed(background: bool) -> Capability {
        if background {
            Capability::Background
        } else {
            Capability::Exec
        }
    }

    /// The directory for a call, where the target runs commands of its kind at
    /// all: the request's, or the root. Per call, never carried to the next.
    pub fn prepare(&self, req: &Exec, background: bool) -> (r: Result<RootedPath, Fault>)
        requires
            self.wf(),
        ensures
            faulted(r) == capability_fault(
                self.published().capabilities@,
                Machine::needed(background),
            ),
            r matches Ok(cwd) ==> cwd@ == match req.cwd {
                Some(path) => path@,
                None => self.published().root@,
            },
    {
        let needed = if background {
            Capability::Background
        } else {
            Capability::Exec
        };
        if let Err(fault) = self.manifest.require(needed) {
            return Err(fault);
        }
        match &req.cwd {
            Some(path) => Ok(path.copy()),
            None => Ok(RootedPath::root_of(&self.manifest.root)),
        }
    }

    /// The argv and environment for a request. The shell comes from the
    /// manifest, never from the call; the request's environment overlays the
    /// manifest's, last.
    pub fn run(&self, req: &Exec, cwd: String) -> (r: Run)
        ensures
            texts(r.argv@) == seq![self.published().shell@, "-c"@, req.command@],
            r.cwd@ == cwd@,
            pairs(r.env@) == pairs(
                self.published().agent_env@,
            ) + pairs(req.env@),
            !r.pty,
    {
        let argv = vec![self.manifest.shell.clone(), "-c".to_owned(), req.command.clone()];
        assert(texts(argv@) =~= seq![self.manifest.shell@, "-c"@, req.command@]);
        let mut env: Vec<(String, String)> = Vec::new();
        append_pairs(&mut env, &self.manifest.agent_env);
        append_pairs(&mut env, &req.env);
        assert(pairs(env@) =~= pairs(
            self.manifest.agent_env@,
        ) + pairs(req.env@));
        Run { argv, cwd, env, pty: false }
    }
}

fn append_pairs(into: &mut Vec<(String, String)>, from: &Vec<(String, String)>)
    ensures
        pairs(final(into)@) == pairs(old(into)@)
            + pairs(from@),
{
    let ghost start = pairs(into@);
    let ghost all = pairs(from@);
    let mut i: usize = 0;
    assert(start + all.take(0) =~= start);
    while i < from.len()
        invariant
            i <= from@.len(),
            all == pairs(from@),
            pairs(into@) == start + all.take(i as int),
        decreases from@.len() - i,
    {
        let ghost before = pairs(into@);
        into.push((from[i].0.clone(), from[i].1.clone()));
        assert(pairs(into@) =~= before.push(all[i as int]));
        assert(start + all.take(i + 1) =~= before.push(all[i as int]));
        i += 1;
    }
    assert(all.take(i as int) =~= all);
}

/// The directory a command runs in, once it was confined: a directory, or the
/// call is denied.
pub fn resolve_cwd(cwd: RootedPath, confined: Confined) -> (r: Result<(RootedPath, String), Fault>)
    ensures
        if confined.kind == Some(EntryKind::Dir) {
            r matches Ok(found) && found.0@ == cwd@ && found.1@ == confined.path@
        } else {
            faulted(r) == Some(FaultModel::Denied(DenialModel::NotFound { path: cwd@ }))
        },
{
    let directory = match confined.kind {
        Some(kind) => kind == EntryKind::Dir,
        None => false,
    };
    if directory {
        Ok((cwd, confined.path))
    } else {
        Err(Fault::Denied(Denial::NotFound { path: cwd.as_str().to_owned() }))
    }
}

/// What is kept of a stream.
#[derive(Debug)]
pub struct Captured {
    pub bytes: Vec<u8>,
    pub truncated: bool,
    /// Whether the whole of it also goes to a spill file.
    pub spills: bool,
}

/// The first bytes of `bytes`, as many as are kept.
pub open spec fn kept(bytes: Seq<u8>) -> Seq<u8> {
    if bytes.len() <= CAPTURE_CAP {
        bytes
    } else {
        bytes.take(CAPTURE_CAP as int)
    }
}

fn copy_range(bytes: &[u8], from: usize, to: usize) -> (r: Vec<u8>)
    requires
        from <= to <= bytes@.len(),
    ensures
        r@ == bytes@.subrange(from as int, to as int),
{
    let mut out: Vec<u8> = Vec::new();
    let mut i: usize = from;
    while i < to
        invariant
            from <= i <= to <= bytes@.len(),
            out@ == bytes@.subrange(from as int, i as int),
        decreases to - i,
    {
        out.push(bytes[i]);
        i += 1;
        assert(out@ =~= bytes@.subrange(from as int, i as int));
    }
    out
}

/// What is kept of captured bytes. A capture that was capped says so, and is
/// then large enough to spill.
pub fn capture(bytes: &[u8]) -> (r: Captured)
    ensures
        r.bytes@ == kept(bytes@),
        r.truncated == (kept(bytes@).len() < bytes@.len()),
        r.spills == (bytes@.len() >= SPILL_THRESHOLD),
{
    let full: usize = bytes.len();
    let end: usize = if full <= CAPTURE_CAP {
        full
    } else {
        CAPTURE_CAP
    };
    let out = copy_range(bytes, 0, end);
    assert(out@ =~= kept(bytes@));
    Captured { bytes: out, truncated: end < full, spills: full >= SPILL_THRESHOLD }
}

/// No byte is lost in silence: a capture is flagged exactly where something
/// was cut, and whatever is cut is in the spill file.
pub proof fn what_is_cut_is_spilled(bytes: Seq<u8>)
    ensures
        kept(bytes).len() < bytes.len() ==> bytes.len() >= SPILL_THRESHOLD,
        kept(bytes).is_prefix_of(bytes),
        kept(bytes).len() <= CAPTURE_CAP,
{
    if bytes.len() <= CAPTURE_CAP {
        assert(bytes =~= bytes.subrange(0, bytes.len() as int));
    } else {
        assert(bytes.take(CAPTURE_CAP as int) =~= bytes.subrange(0, CAPTURE_CAP as int));
    }
}

/// Where a call's stream is spilled.
pub open spec fn spill_name(nonce: u64, id: u64, stream: Seq<char>) -> Seq<char> {
    SPILL_DIR@ + "/"@ + hex(nonce as nat) + "-"@ + (decimal(id as nat) + "."@ + stream)
}

impl Machine {
    /// The path a call's stream is spilled to, where it is one a target takes.
    pub fn spill_path(&self, stream: &str, id: u64) -> (r: Option<RootedPath>)
        ensures
            match r {
                Some(path) => path_denial(spill_name(self.nonce(), id, stream@)) is None && path@
                    == spill_name(self.nonce(), id, stream@) && path.wf(),
                None => path_denial(spill_name(self.nonce(), id, stream@)) is Some,
            },
    {
        let tail = crate::text::join3(decimal_of(id).as_str(), ".", stream);
        let head = join4(SPILL_DIR, "/", hex_of(self.bind_nonce).as_str(), "-");
        let text = crate::text::join2(head.as_str(), tail.as_str());
        match RootedPath::new(text.as_str()) {
            Ok(path) => Some(path),
            Err(_) => None,
        }
    }
}

/// A read of a background stream, and the cursor to resume at.
#[derive(Debug)]
pub struct Slice {
    pub bytes: Vec<u8>,
    pub truncated: bool,
    pub next: u64,
}

/// Where a read from `from` starts and ends in a buffer.
pub open spec fn slice_bounds(len: int, from: int) -> (int, int) {
    let start = if from < len {
        from
    } else {
        len
    };
    let end = if start + CAPTURE_CAP < len {
        start + CAPTURE_CAP
    } else {
        len
    };
    (start, end)
}

/// The bytes accumulated past `from`, plus the cursor to resume at.
pub fn slice(buffer: &[u8], from: u64) -> (r: Slice)
    ensures
        ({
            let (start, end) = slice_bounds(buffer@.len() as int, from as int);
            &&& r.bytes@ == buffer@.subrange(start, end)
            &&& r.truncated == (end < buffer@.len())
            &&& r.next == end
        }),
{
    let len: usize = buffer.len();
    let start: usize = if from < len as u64 {
        from as usize
    } else {
        len
    };
    let end: usize = if len - start > CAPTURE_CAP {
        start + CAPTURE_CAP
    } else {
        len
    };
    Slice { bytes: copy_range(buffer, start, end), truncated: end < len, next: end as u64 }
}

/// Reading forward from a cursor misses nothing and repeats nothing: a read
/// takes up where the one before it ended, also when more arrived in between.
pub proof fn reads_follow_each_other(earlier: Seq<u8>, later: Seq<u8>, from: int)
    requires
        earlier.is_prefix_of(later),
        0 <= from <= earlier.len(),
    ensures
        ({
            let (start, end) = slice_bounds(earlier.len() as int, from);
            let (start2, end2) = slice_bounds(later.len() as int, end);
            &&& start == from
            &&& start2 == end
            &&& earlier.subrange(start, end) + later.subrange(start2, end2) == later.subrange(
                start,
                end2,
            )
        }),
{
    let (start, end) = slice_bounds(earlier.len() as int, from);
    let (start2, end2) = slice_bounds(later.len() as int, end);
    assert(earlier =~= later.subrange(0, earlier.len() as int));
    assert(earlier.subrange(start, end) + later.subrange(start2, end2) =~= later.subrange(
        start,
        end2,
    ));
}

/// How a command ended, given what a wait for it came back with: nothing where
/// it did not stop in time. The command ran; it just did not stop, and that is
/// an outcome rather than a fault.
pub fn exec_outcome(waited: Option<Result<Outcome, Fault>>) -> (r: Result<Outcome, Fault>)
    ensures
        match waited {
            Some(Ok(outcome)) => r == Ok::<Outcome, Fault>(outcome),
            Some(Err(fault)) => r matches Err(f) && f@ == fault@,
            None => r == Ok::<Outcome, Fault>(Outcome::TimedOut),
        },
{
    match waited {
        Some(Ok(outcome)) => Ok(outcome),
        Some(Err(fault)) => Err(fault),
        None => Ok(Outcome::TimedOut),
    }
}

/// What a command left behind.
#[derive(Debug)]
pub struct Exit {
    pub target: String,
    pub cwd: RootedPath,
    pub outcome: Outcome,
    pub stdout: Captured,
    pub stderr: Captured,
    pub wall_ms: u64,
}

impl Machine {
    /// What a command left behind. The exit names the target it ran on and the
    /// directory it was asked to run in.
    pub fn exec(
        &self,
        cwd: RootedPath,
        outcome: Outcome,
        stdout: &[u8],
        stderr: &[u8],
        wall_ms: u64,
    ) -> (r: Exit)
        ensures
            r.target@ == self.published().label@,
            r.cwd@ == cwd@,
            r.outcome == outcome,
            r.stdout.bytes@ == kept(stdout@),
            r.stdout.truncated == (kept(stdout@).len() < stdout@.len()),
            r.stdout.spills == (stdout@.len() >= SPILL_THRESHOLD),
            r.stderr.bytes@ == kept(stderr@),
            r.stderr.truncated == (kept(stderr@).len() < stderr@.len()),
            r.stderr.spills == (stderr@.len() >= SPILL_THRESHOLD),
            r.wall_ms == wall_ms,
    {
        Exit {
            target: self.manifest.label.clone(),
            cwd,
            outcome,
            stdout: capture(stdout),
            stderr: capture(stderr),
            wall_ms,
        }
    }
}

// ---------------------------------------------------------------------------
// Background processes
// ---------------------------------------------------------------------------

/// What a background process produced since a cursor.
#[derive(Debug)]
pub struct Chunk {
    pub target: String,
    pub stdout: Slice,
    pub stderr: Slice,
    pub next: Cursor,
    /// How the process ended. `None` is what tells the reader to come back.
    pub outcome: Option<Outcome>,
}

impl Machine {
    /// What a background process produced since `from`, and the cursor to
    /// resume at.
    pub fn chunk(&self, stdout: &[u8], stderr: &[u8], from: Cursor, outcome: Option<Outcome>) -> (r:
        Chunk)
        ensures
            ({
                let out = slice_bounds(stdout@.len() as int, from.stdout as int);
                let err = slice_bounds(stderr@.len() as int, from.stderr as int);
                &&& r.target@ == self.published().label@
                &&& r.stdout.bytes@ == stdout@.subrange(out.0, out.1)
                &&& r.stdout.truncated == (out.1 < stdout@.len())
                &&& r.stderr.bytes@ == stderr@.subrange(err.0, err.1)
                &&& r.stderr.truncated == (err.1 < stderr@.len())
                &&& r.next.stdout == out.1
                &&& r.next.stderr == err.1
                &&& r.outcome == outcome
            }),
    {
        let out = slice(stdout, from.stdout);
        let err = slice(stderr, from.stderr);
        let next = Cursor { stdout: out.next, stderr: err.next };
        Chunk { target: self.manifest.label.clone(), stdout: out, stderr: err, next, outcome }
    }
}

/// What is said of a handle that leads nowhere.
pub open spec fn no_such_process(id: u64) -> FaultModel {
    FaultModel::Denied(DenialModel::NoSuchProcess(id))
}

impl Machine {
    /// Takes a started process in, and says by which handle it is known.
    pub fn start(&mut self, stdin_open: bool) -> (r: u64)
        requires
            old(self).wf(),
            old(self).next() < u64::MAX,
        ensures
            final(self).wf(),
            r == old(self).next(),
            !old(self).running().dom().contains(r),
            final(self).running() == old(self).running().insert(
                r,
                Background { stdin_open, outcome: None },
            ),
            final(self).next() == old(self).next() + 1,
            final(self).published() == old(self).published(),
            final(self).nonce() == old(self).nonce(),
    {
        broadcast use vstd::std_specs::hash::group_hash_axioms;

        let id: u64 = self.allocate();
        self.processes.insert(id, Background { stdin_open, outcome: None });
        id
    }

    /// Whether a process still has to be asked whether it ended: it is known,
    /// and no outcome of it is.
    pub fn output(&self, id: u64) -> (r: Result<Option<Outcome>, Fault>)
        ensures
            if self.running().dom().contains(id) {
                r == Ok::<Option<Outcome>, Fault>(self.running()[id].outcome)
            } else {
                faulted(r) == Some(no_such_process(id))
            },
    {
        broadcast use vstd::std_specs::hash::group_hash_axioms;

        match self.processes.get(&id) {
            Some(process) => Ok(process.outcome),
            None => Err(Fault::Denied(Denial::NoSuchProcess(id))),
        }
    }

    /// Notes how a process ended. What is known already stays.
    pub fn reap(&mut self, id: u64, outcome: Outcome)
        requires
            old(self).wf(),
        ensures
            final(self).wf(),
            final(self).running() == if old(self).running().dom().contains(id) && old(
                self,
            ).running()[id].outcome is None {
                old(self).running().insert(
                    id,
                    Background { outcome: Some(outcome), ..old(self).running()[id] },
                )
            } else {
                old(self).running()
            },
            final(self).next() == old(self).next(),
            final(self).published() == old(self).published(),
            final(self).nonce() == old(self).nonce(),
    {
        broadcast use vstd::std_specs::hash::group_hash_axioms;

        let found = match self.processes.get(&id) {
            Some(process) => *process,
            None => {
                return;
            },
        };
        if found.outcome.is_none() {
            let ended = Background { stdin_open: found.stdin_open, outcome: Some(outcome) };
            self.processes.insert(id, ended);
        }
    }

    /// Whether a process's stdin can be written to.
    pub fn stdin(&self, id: u64) -> (r: Result<(), Fault>)
        ensures
            faulted(r) == if capability_fault(
                self.published().capabilities@,
                Capability::Stdin,
            ) is Some {
                capability_fault(self.published().capabilities@, Capability::Stdin)
            } else if !self.running().dom().contains(id) {
                Some(no_such_process(id))
            } else if !self.running()[id].stdin_open {
                Some(
                    FaultModel::Denied(
                        DenialModel::Malformed {
                            what: "stdin"@,
                            reason: "this process's stdin is already closed"@,
                        },
                    ),
                )
            } else {
                None
            },
    {
        broadcast use vstd::std_specs::hash::group_hash_axioms;

        if let Err(fault) = self.manifest.require(Capability::Stdin) {
            return Err(fault);
        }
        match self.processes.get(&id) {
            None => Err(Fault::Denied(Denial::NoSuchProcess(id))),
            Some(process) => {
                if process.stdin_open {
                    Ok(())
                } else {
                    Err(
                        Fault::Denied(
                            Denial::Malformed {
                                what: "stdin".to_owned(),
                                reason: "this process's stdin is already closed".to_owned(),
                            },
                        ),
                    )
                }
            },
        }
    }

    /// Whether a process can be signalled. A reaped handle is spent, and its
    /// pid is free for the machine to hand to someone else: there is nothing
    /// left to signal.
    pub fn signal(&self, id: u64) -> (r: Result<(), Fault>)
        ensures
            faulted(r) == if self.running().dom().contains(id) && self.running()[id].outcome
                is None {
                None
            } else {
                Some(no_such_process(id))
            },
    {
        broadcast use vstd::std_specs::hash::group_hash_axioms;

        match self.processes.get(&id) {
            Some(process) => {
                if process.outcome.is_some() {
                    Err(Fault::Denied(Denial::NoSuchProcess(id)))
                } else {
                    Ok(())
                }
            },
            None => Err(Fault::Denied(Denial::NoSuchProcess(id))),
        }
    }
}

// ---------------------------------------------------------------------------
// Files
// ---------------------------------------------------------------------------

/// A whole file, up to what is kept of it.
pub fn read_whole(bytes: &[u8]) -> (r: Excerpt)
    ensures
        r.bytes@ == kept(bytes@),
        r.truncated == (kept(bytes@).len() < bytes@.len()),
{
    let captured = capture(bytes);
    Excerpt { bytes: captured.bytes, truncated: captured.truncated }
}

/// Why a file, or a window of it, cannot be read.
pub open spec fn read_fault(
    held: Seq<Capability>,
    bytes: Seq<u8>,
    path: Seq<char>,
    window: Option<Window>,
) -> Option<FaultModel> {
    if capability_fault(held, Capability::Read) is Some {
        capability_fault(held, Capability::Read)
    } else {
        match window {
            Some(window) => window_fault(path, window, lines_of(lossy_text(bytes)).len() as int),
            None => None,
        }
    }
}

/// What is read of a file, or of a window of it, and whether there is more.
pub open spec fn excerpt_of(bytes: Seq<u8>, window: Option<Window>) -> (Seq<u8>, bool) {
    match window {
        None => (kept(bytes), kept(bytes).len() < bytes.len()),
        Some(window) => {
            let all = lines_of(lossy_text(bytes));
            let end = window_end(window, all.len() as int);
            let shown = lines_joined(all.subrange(window.offset as int, end));
            (vstd::utf8::encode_utf8(shown), end < all.len())
        },
    }
}

impl Machine {
    /// A file, or a line window of one. A missing path, a window past the end,
    /// and an empty file are three results and never share a representation.
    pub fn read(&self, bytes: &[u8], path: &RootedPath, window: Option<Window>) -> (r: Result<
        Excerpt,
        Fault,
    >)
        ensures
            faulted(r) == read_fault(self.published().capabilities@, bytes@, path@, window),
            r matches Ok(excerpt) ==> (excerpt.bytes@, excerpt.truncated) == excerpt_of(
                bytes@,
                window,
            ),
    {
        if let Err(fault) = self.manifest.require(Capability::Read) {
            return Err(fault);
        }
        match window {
            None => Ok(read_whole(bytes)),
            Some(window) => window_of(lossy(bytes).as_str(), path.as_str(), window),
        }
    }
}

/// One step of a patch.
#[derive(Debug)]
pub enum PatchOp {
    Add { path: RootedPath, body: Vec<u8> },
    Update(crate::environment::edit::Replace),
    Delete { path: RootedPath },
    Move { from: RootedPath, to: RootedPath },
}

impl Machine {
    /// Whether an edit can be made at all: one replacement and a whole patch
    /// are capabilities of their own.
    pub fn edit(&self, patch: bool) -> (r: Result<(), Fault>)
        ensures
            faulted(r) == capability_fault(
                self.published().capabilities@,
                if patch {
                    Capability::Patch
                } else {
                    Capability::Edit
                },
            ),
    {
        if patch {
            self.manifest.require(Capability::Patch)
        } else {
            self.manifest.require(Capability::Edit)
        }
    }
}

/// What a written file is, once it is written.
#[derive(Debug)]
pub struct Stat {
    pub path: String,
    pub size: u64,
    pub modified: Option<u64>,
}

/// What is known of a step that was applied.
#[derive(Debug)]
pub enum Applied {
    /// It left this file behind.
    Wrote(Stat),
    /// It took one away.
    Deleted,
}

/// How far a patch got: the steps `ops[..applied.len()]` were applied, each
/// with its mark, and the one behind them was not where there is a fault.
#[derive(Debug)]
pub struct Patching {
    pub ops: Vec<PatchOp>,
    pub applied: Vec<Applied>,
    pub fault: Option<Fault>,
}

/// What a [`Patching`] says.
pub struct PatchModel {
    pub ops: Seq<PatchOp>,
    pub applied: Seq<Applied>,
    pub fault: Option<Fault>,
}

impl View for Patching {
    type V = PatchModel;

    open spec fn view(&self) -> PatchModel {
        PatchModel { ops: self.ops@, applied: self.applied@, fault: self.fault }
    }
}

/// The mark that a step leaves.
pub open spec fn mark_of(stat: Option<Stat>) -> Applied {
    match stat {
        Some(stat) => Applied::Wrote(stat),
        None => Applied::Deleted,
    }
}

impl PatchModel {
    /// Which step is attempted next: none once one has failed, or all are
    /// applied.
    pub open spec fn pending(self) -> Option<int> {
        if self.fault is None && self.applied.len() < self.ops.len() {
            Some(self.applied.len() as int)
        } else {
            None
        }
    }

    /// How far a patch got once the step that was attempted came out.
    pub open spec fn after(self, outcome: Result<Option<Stat>, Fault>) -> PatchModel {
        if self.pending() is None {
            self
        } else {
            match outcome {
                Ok(stat) => PatchModel { applied: self.applied.push(mark_of(stat)), ..self },
                Err(fault) => PatchModel { fault: Some(fault), ..self },
            }
        }
    }
}

impl Patching {
    /// A patch of which nothing was attempted yet.
    pub fn new(ops: Vec<PatchOp>) -> (r: Patching)
        ensures
            r@ == (PatchModel { ops: ops@, applied: Seq::empty(), fault: None }),
    {
        let applied: Vec<Applied> = Vec::new();
        assert(applied@ =~= Seq::empty());
        Patching { ops, applied, fault: None }
    }

    /// The step to attempt next.
    pub fn next(&self) -> (r: Option<&PatchOp>)
        ensures
            match r {
                Some(op) => self@.pending() is Some && *op == self@.ops[self@.pending()->0],
                None => self@.pending() is None,
            },
    {
        if self.fault.is_none() && self.applied.len() < self.ops.len() {
            Some(&self.ops[self.applied.len()])
        } else {
            None
        }
    }
}

/// Notes how the step that was attempted came out. A patch is applied step by
/// step, without atomicity: a failing step leaves the earlier ones applied, the
/// marks say exactly which those were, and nothing behind it is attempted.
pub fn apply_patch(patching: &mut Patching, outcome: Result<Option<Stat>, Fault>)
    ensures
        final(patching)@ == old(patching)@.after(outcome),
{
    if patching.fault.is_none() && patching.applied.len() < patching.ops.len() {
        match outcome {
            Ok(Some(stat)) => {
                patching.applied.push(Applied::Wrote(stat));
            },
            Ok(None) => {
                patching.applied.push(Applied::Deleted);
            },
            Err(fault) => {
                patching.fault = Some(fault);
            },
        }
    }
}

/// How far a patch got after some outcomes.
pub open spec fn patched(ops: Seq<PatchOp>, outcomes: Seq<Result<Option<Stat>, Fault>>) -> PatchModel
    decreases outcomes.len(),
{
    if outcomes.len() == 0 {
        PatchModel { ops, applied: Seq::empty(), fault: None }
    } else {
        patched(ops, outcomes.drop_last()).after(outcomes.last())
    }
}

/// While every step succeeds, each is attempted in its turn and marked.
pub proof fn a_patch_is_applied_in_order(
    ops: Seq<PatchOp>,
    outcomes: Seq<Result<Option<Stat>, Fault>>,
)
    requires
        outcomes.len() <= ops.len(),
        forall|i: int| 0 <= i < outcomes.len() ==> (#[trigger] outcomes[i]) is Ok,
    ensures
        patched(ops, outcomes).ops == ops,
        patched(ops, outcomes).fault is None,
        patched(ops, outcomes).applied == Seq::new(
            outcomes.len(),
            |i: int| mark_of(outcomes[i]->Ok_0),
        ),
        patched(ops, outcomes).pending() == if outcomes.len() < ops.len() {
            Some(outcomes.len() as int)
        } else {
            None
        },
    decreases outcomes.len(),
{
    let marks = Seq::new(outcomes.len(), |i: int| mark_of(outcomes[i]->Ok_0));
    if outcomes.len() > 0 {
        let before = outcomes.drop_last();
        assert forall|i: int| 0 <= i < before.len() implies (#[trigger] before[i]) is Ok by {
            assert(outcomes[i] is Ok);
        }
        a_patch_is_applied_in_order(ops, before);
        assert(outcomes[outcomes.len() - 1] is Ok);
        assert(patched(ops, outcomes).applied =~= marks);
    } else {
        assert(patched(ops, outcomes).applied =~= marks);
    }
}

/// A step that fails ends its patch: the steps before it stay applied and are
/// the ones that are marked, and whatever comes after, none behind it is
/// attempted.
pub proof fn a_failing_step_ends_a_patch(
    ops: Seq<PatchOp>,
    outcomes: Seq<Result<Option<Stat>, Fault>>,
    k: int,
)
    requires
        0 <= k < ops.len(),
        k < outcomes.len(),
        forall|i: int| 0 <= i < k ==> (#[trigger] outcomes[i]) is Ok,
        outcomes[k] is Err,
    ensures
        patched(ops, outcomes.take(k)).pending() == Some(k),
        patched(ops, outcomes).applied == Seq::new(
            k as nat,
            |i: int| mark_of(outcomes[i]->Ok_0),
        ),
        patched(ops, outcomes).fault == Some(outcomes[k]->Err_0),
        patched(ops, outcomes).pending() is None,
    decreases outcomes.len(),
{
    let before = outcomes.take(k);
    assert forall|i: int| 0 <= i < before.len() implies (#[trigger] before[i]) is Ok by {
        assert(outcomes[i] is Ok);
    }
    a_patch_is_applied_in_order(ops, before);
    assert(Seq::new(before.len(), |i: int| mark_of(before[i]->Ok_0)) =~= Seq::new(
        k as nat,
        |i: int| mark_of(outcomes[i]->Ok_0),
    ));
    if k == outcomes.len() - 1 {
        assert(outcomes.drop_last() =~= before);
    } else {
        let shorter = outcomes.drop_last();
        assert forall|i: int| 0 <= i < k implies (#[trigger] shorter[i]) is Ok by {
            assert(outcomes[i] is Ok);
        }
        a_failing_step_ends_a_patch(ops, shorter, k);
        assert(Seq::new(k as nat, |i: int| mark_of(shorter[i]->Ok_0)) =~= Seq::new(
            k as nat,
            |i: int| mark_of(outcomes[i]->Ok_0),
        ));
    }
}

/// What a directory holds, as a transport reports it.
#[derive(Debug)]
pub struct DirEntry {
    pub name: String,
    pub kind: EntryKind,
    pub size: Option<u64>,
}

/// One listed entry.
#[derive(Debug)]
pub struct Entry {
    pub path: RootedPath,
    pub kind: EntryKind,
    pub size: Option<u64>,
}

/// What an [`Entry`] says.
pub struct EntryModel {
    pub path: Seq<char>,
    pub kind: EntryKind,
    pub size: Option<u64>,
}

impl View for Entry {
    type V = EntryModel;

    open spec fn view(&self) -> EntryModel {
        EntryModel { path: self.path@, kind: self.kind, size: self.size }
    }
}

/// The models of a list of entries.
pub open spec fn entry_models(entries: Seq<Entry>) -> Seq<EntryModel> {
    Seq::new(entries.len(), |i: int| entries[i]@)
}

/// A directory's entries, and whether there are more.
#[derive(Debug)]
pub struct Listing {
    pub entries: Vec<Entry>,
    pub truncated: bool,
}

/// Whether a name passes a glob, where there is one.
pub open spec fn passes(glob: Option<Seq<char>>, name: Seq<char>) -> bool {
    match glob {
        Some(pattern) => glob_fits(pattern, name),
        None => true,
    }
}

/// The entries whose names pass a glob, in order.
pub open spec fn passing(found: Seq<DirEntry>, glob: Option<Seq<char>>) -> Seq<DirEntry>
    decreases found.len(),
{
    if found.len() == 0 {
        Seq::empty()
    } else {
        let before = passing(found.drop_last(), glob);
        if passes(glob, found.last().name@) {
            before.push(found.last())
        } else {
            before
        }
    }
}

/// An entry under `dir`.
pub open spec fn entry_under(dir: Seq<char>, found: DirEntry) -> EntryModel {
    EntryModel { path: joined_path(dir, found.name@), kind: found.kind, size: found.size }
}

/// `entries` with one more, behind every one that does not come after it.
pub open spec fn inserted(entries: Seq<EntryModel>, entry: EntryModel) -> Seq<EntryModel>
    decreases entries.len(),
{
    if entries.len() == 0 || !precedes(entry.path, entries.last().path) {
        entries.push(entry)
    } else {
        inserted(entries.drop_last(), entry).push(entries.last())
    }
}

/// The entries in the order of their paths; those of equal paths stay in the
/// order they came in.
pub open spec fn by_path(entries: Seq<EntryModel>) -> Seq<EntryModel>
    decreases entries.len(),
{
    if entries.len() == 0 {
        Seq::empty()
    } else {
        inserted(by_path(entries.drop_last()), entries.last())
    }
}

proof fn lemma_inserted_len(entries: Seq<EntryModel>, entry: EntryModel)
    ensures
        inserted(entries, entry).len() == entries.len() + 1,
        inserted(entries, entry).to_multiset() == entries.to_multiset().insert(entry),
    decreases entries.len(),
{
    broadcast use vstd::seq_lib::group_to_multiset_ensures;

    if !(entries.len() == 0 || !precedes(entry.path, entries.last().path)) {
        lemma_inserted_len(entries.drop_last(), entry);
        assert(entries =~= entries.drop_last().push(entries.last()));
    }
}

/// Whether paths never go backwards.
pub open spec fn ordered(entries: Seq<EntryModel>) -> bool {
    forall|i: int, j: int|
        0 <= i < j < entries.len() ==> !precedes(
            (#[trigger] entries[j]).path,
            (#[trigger] entries[i]).path,
        )
}

proof fn lemma_inserted_ordered(entries: Seq<EntryModel>, entry: EntryModel)
    requires
        ordered(entries),
    ensures
        ordered(inserted(entries, entry)),
        forall|k: int|
            0 <= k < inserted(entries, entry).len() ==> #[trigger] inserted(entries, entry)[k]
                == entry || entries.contains(inserted(entries, entry)[k]),
    decreases entries.len(),
{
    let now = inserted(entries, entry);
    if entries.len() == 0 || !precedes(entry.path, entries.last().path) {
        assert forall|i: int, j: int| 0 <= i < j < now.len() implies !precedes(
            (#[trigger] now[j]).path,
            (#[trigger] now[i]).path,
        ) by {
            if j == entries.len() && i < entries.len() - 1 {
                let last = entries[entries.len() - 1].path;
                assert(!precedes(last, entries[i].path));
                if precedes(entry.path, entries[i].path) {
                    crate::text::lemma_precedes_total(last, entries[i].path);
                    if last != entries[i].path {
                        crate::text::lemma_precedes_transitive(entry.path, entries[i].path, last);
                    }
                }
            }
        }
        assert forall|k: int| 0 <= k < now.len() implies #[trigger] now[k] == entry
            || entries.contains(now[k]) by {
            if k < entries.len() {
                assert(entries[k] == now[k]);
            }
        }
    } else {
        let shorter = entries.drop_last();
        let last = entries.last();
        assert forall|i: int, j: int| 0 <= i < j < shorter.len() implies !precedes(
            (#[trigger] shorter[j]).path,
            (#[trigger] shorter[i]).path,
        ) by {
            assert(!precedes(entries[j].path, entries[i].path));
        }
        lemma_inserted_ordered(shorter, entry);
        lemma_inserted_len(shorter, entry);
        let inner = inserted(shorter, entry);
        assert forall|i: int, j: int| 0 <= i < j < now.len() implies !precedes(
            (#[trigger] now[j]).path,
            (#[trigger] now[i]).path,
        ) by {
            if j == inner.len() {
                assert(now[j] == last);
                assert(now[i] == inner[i]);
                if inner[i] == entry {
                    if precedes(last.path, entry.path) {
                        crate::text::lemma_precedes_transitive(entry.path, last.path, entry.path);
                        lemma_not_before_itself(entry.path);
                    }
                } else {
                    let k = choose|k: int| 0 <= k < shorter.len() && shorter[k] == inner[i];
                    assert(!precedes(entries[entries.len() - 1].path, entries[k].path));
                }
            } else {
                assert(now[i] == inner[i] && now[j] == inner[j]);
            }
        }
        assert forall|k: int| 0 <= k < now.len() implies #[trigger] now[k] == entry
            || entries.contains(now[k]) by {
            if k < inner.len() {
                assert(now[k] == inner[k]);
                if inner[k] != entry {
                    let m = choose|m: int| 0 <= m < shorter.len() && shorter[m] == inner[k];
                    assert(entries[m] == now[k]);
                }
            } else {
                assert(entries[entries.len() - 1] == now[k]);
            }
        }
    }
}

proof fn lemma_not_before_itself(path: Seq<char>)
    ensures
        !precedes(path, path),
    decreases path.len(),
{
    if path.len() > 0 {
        lemma_not_before_itself(path.drop_first());
    }
}

/// A listing is sorted by path, and loses and invents nothing.
pub proof fn a_listing_is_sorted(entries: Seq<EntryModel>)
    ensures
        ordered(by_path(entries)),
        by_path(entries).len() == entries.len(),
        by_path(entries).to_multiset() == entries.to_multiset(),
    decreases entries.len(),
{
    broadcast use vstd::seq_lib::group_to_multiset_ensures;

    if entries.len() > 0 {
        let shorter = entries.drop_last();
        a_listing_is_sorted(shorter);
        lemma_inserted_ordered(by_path(shorter), entries.last());
        lemma_inserted_len(by_path(shorter), entries.last());
        assert(entries =~= shorter.push(entries.last()));
    } else {
        assert(entries =~= by_path(entries));
    }
}

fn insert_entry(entries: &mut Vec<Entry>, entry: Entry)
    ensures
        entry_models(final(entries)@) == inserted(entry_models(old(entries)@), entry@),
{
    let ghost before = entry_models(entries@);
    let mut at: usize = entries.len();
    assert(before.take(at as int) =~= before);
    assert(before.skip(at as int) =~= Seq::empty());
    assert(inserted(before.take(at as int), entry@) + before.skip(at as int) =~= inserted(
        before,
        entry@,
    ));
    while at > 0 && is_before(entry.path.as_str(), entries[at - 1].path.as_str())
        invariant
            at <= entries@.len(),
            before == entry_models(entries@),
            inserted(before, entry@) == inserted(before.take(at as int), entry@) + before.skip(
                at as int,
            ),
        decreases at,
    {
        let ghost here = before.take(at as int);
        assert(here.last() == entries@[at - 1]@);
        assert(here.drop_last() =~= before.take(at - 1));
        assert(inserted(before.take(at - 1), entry@).push(here.last()) + before.skip(at as int)
            =~= inserted(before.take(at - 1), entry@) + before.skip(at - 1));
        at -= 1;
    }
    proof {
        let here = before.take(at as int);
        if at > 0 {
            assert(here.last() == entries@[at - 1]@);
        }
        assert(inserted(here, entry@) == here.push(entry@));
    }
    let ghost model = entry@;
    entries.insert(at, entry);
    assert(entry_models(entries@) =~= before.take(at as int).push(model) + before.skip(at as int));
}

/// The entries that are listed: those that pass, up to the cap.
pub open spec fn listed(found: Seq<DirEntry>, glob: Option<Seq<char>>, cap: int) -> Seq<DirEntry> {
    let all = passing(found, glob);
    if all.len() <= cap {
        all
    } else {
        all.take(cap)
    }
}

/// The first of the listed names that no path can be made of.
pub open spec fn first_denial(dir: Seq<char>, found: Seq<DirEntry>) -> Option<DenialModel>
    decreases found.len(),
{
    if found.len() == 0 {
        None
    } else {
        match first_denial(dir, found.drop_last()) {
            Some(denial) => Some(denial),
            None => path_denial(joined_path(dir, found.last().name@)),
        }
    }
}

/// The listed entries under `dir`.
pub open spec fn entries_under(dir: Seq<char>, found: Seq<DirEntry>) -> Seq<EntryModel> {
    Seq::new(found.len(), |i: int| entry_under(dir, found[i]))
}

proof fn lemma_passing_grows(found: Seq<DirEntry>, glob: Option<Seq<char>>, n: int)
    requires
        0 <= n <= found.len(),
    ensures
        passing(found.take(n), glob).is_prefix_of(passing(found, glob)),
    decreases found.len(),
{
    let whole = passing(found, glob);
    if n == found.len() {
        assert(found.take(n) =~= found);
        assert(whole =~= whole.subrange(0, whole.len() as int));
    } else {
        lemma_passing_grows(found.drop_last(), glob, n);
        assert(found.drop_last().take(n) =~= found.take(n));
        let before = passing(found.drop_last(), glob);
        let short = passing(found.take(n), glob);
        assert(short =~= whole.subrange(0, short.len() as int));
    }
}

proof fn lemma_first_denial_grows(dir: Seq<char>, found: Seq<DirEntry>, n: int)
    requires
        0 <= n <= found.len(),
        first_denial(dir, found.take(n)) is Some,
    ensures
        first_denial(dir, found) == first_denial(dir, found.take(n)),
    decreases found.len(),
{
    if n == found.len() {
        assert(found.take(n) =~= found);
    } else {
        assert(found.drop_last().take(n) =~= found.take(n));
        lemma_first_denial_grows(dir, found.drop_last(), n);
    }
}

/// Lists a directory: the entries that pass the glob, up to `cap` of them, in
/// the order of their paths. A listing that was capped says so: one the model
/// reads as complete ends the search.
pub fn list(dir: &RootedPath, found: &Vec<DirEntry>, glob: Option<&str>, cap: usize) -> (r: Result<
    Listing,
    Fault,
>)
    ensures
        ({
            let pattern = opt_str(glob);
            let chosen = listed(found@, pattern, cap as int);
            match first_denial(dir@, chosen) {
                Some(denial) => faulted(r) == Some(FaultModel::Denied(denial)),
                None => r matches Ok(listing) && entry_models(listing.entries@) == by_path(
                    entries_under(dir@, chosen),
                ) && listing.truncated == (passing(found@, pattern).len() > cap),
            }
        }),
{
    let ghost pattern = opt_str(glob);
    let ghost whole = passing(found@, pattern);
    let mut entries: Vec<Entry> = Vec::new();
    let mut count: usize = 0;
    let mut i: usize = 0;
    assert(found@.take(0) =~= Seq::empty());
    assert(entry_models(entries@) =~= by_path(entries_under(dir@, Seq::empty()))) by {
        assert(entries_under(dir@, Seq::empty()) =~= Seq::empty());
    }
    while i < found.len()
        invariant
            i <= found@.len(),
            count <= i,
            count <= cap,
            pattern == opt_str(glob),
            whole == passing(found@, pattern),
            count == passing(found@.take(i as int), pattern).len(),
            first_denial(dir@, passing(found@.take(i as int), pattern)) is None,
            entry_models(entries@) == by_path(
                entries_under(dir@, passing(found@.take(i as int), pattern)),
            ),
        decreases found@.len() - i,
    {
        let entry = &found[i];
        let ghost so_far = passing(found@.take(i as int), pattern);
        proof {
            assert(found@.take(i + 1).drop_last() =~= found@.take(i as int));
            assert(found@.take(i + 1).last() == *entry);
            lemma_passing_grows(found@, pattern, i as int);
            lemma_passing_grows(found@, pattern, i + 1);
        }
        let keep = match glob {
            Some(text) => glob_matches(text, entry.name.as_str()),
            None => true,
        };
        if keep {
            let ghost now = so_far.push(*entry);
            assert(passing(found@.take(i + 1), pattern) == now);
            if count >= cap {
                proof {
                    assert(whole.len() > cap);
                    assert(whole.take(cap as int) =~= so_far);
                }
                return Ok(Listing { entries, truncated: true });
            }
            proof {
                assert(now.drop_last() =~= so_far);
                assert(entries_under(dir@, now) =~= entries_under(dir@, so_far).push(
                    entry_under(dir@, *entry),
                ));
                assert(entries_under(dir@, now).drop_last() =~= entries_under(dir@, so_far));
            }
            match dir.join(entry.name.as_str()) {
                Ok(path) => {
                    insert_entry(&mut entries, Entry { path, kind: entry.kind, size: entry.size });
                },
                Err(denial) => {
                    proof {
                        let chosen = listed(found@, pattern, cap as int);
                        assert(chosen.take(now.len() as int) =~= now);
                        lemma_first_denial_grows(dir@, chosen, now.len() as int);
                    }
                    return Err(Fault::Denied(denial));
                },
            }
            count += 1;
        }
        i += 1;
    }
    assert(found@.take(i as int) =~= found@);
    Ok(Listing { entries, truncated: false })
}

impl Machine {
    /// Whether a directory can be listed at all. A rejected pattern is never
    /// reported as an empty result.
    pub fn check_list(&self, glob: Option<&str>) -> (r: Result<(), Fault>)
        ensures
            faulted(r) == if capability_fault(
                self.published().capabilities@,
                Capability::List,
            ) is Some {
                capability_fault(self.published().capabilities@, Capability::List)
            } else {
                match glob {
                    Some(pattern) => glob_fault(pattern@),
                    None => None,
                }
            },
    {
        if let Err(fault) = self.manifest.require(Capability::List) {
            return Err(fault);
        }
        match glob {
            Some(pattern) => validate_glob(pattern),
            None => Ok(()),
        }
    }
}

/// What is kept of captured bytes is all of them up to a quarter of a mebibyte,
/// and the first of them beyond that; from a quarter of that on, the whole of
/// it is to be found in a file.
pub proof fn as_much_is_kept_as_fits(bytes: Seq<u8>)
    ensures
        bytes.len() <= 256 * 1024 ==> kept(bytes) == bytes,
        bytes.len() > 256 * 1024 ==> kept(bytes).len() == 256 * 1024 && kept(bytes).is_prefix_of(
            bytes,
        ),
        SPILL_THRESHOLD == 64 * 1024,
{
    what_is_cut_is_spilled(bytes);
}

/// A read from a cursor gives everything behind it up to what fits, and is told
/// to go on just while there is more; a cursor past the end gives nothing.
pub proof fn a_read_gives_what_is_behind_the_cursor(len: int, from: int)
    requires
        0 <= len,
        0 <= from,
    ensures
        ({
            let (start, end) = slice_bounds(len, from);
            &&& from >= len ==> start == len && end == len
            &&& from < len ==> start == from && end - start == if len - from <= 256 * 1024 {
                len - from
            } else {
                256 * 1024int
            }
        }),
{
}

/// No two streams of one binding are spilled to the same file.
pub proof fn spilled_streams_are_kept_apart(
    nonce: u64,
    id: u64,
    stream: Seq<char>,
    other_id: u64,
    other: Seq<char>,
)
    requires
        id != other_id || stream != other,
    ensures
        spill_name(nonce, id, stream) != spill_name(nonce, other_id, other),
{
    reveal_strlit(".");
    let head = SPILL_DIR@ + "/"@ + hex(nonce as nat) + "-"@;
    let one = decimal(id as nat) + "."@ + stream;
    let two = decimal(other_id as nat) + "."@ + other;
    assert(spill_name(nonce, id, stream) =~= head + one);
    assert(spill_name(nonce, other_id, other) =~= head + two);
    if head + one == head + two {
        assert((head + one).skip(head.len() as int) =~= one);
        assert((head + two).skip(head.len() as int) =~= two);
        let (a, b) = (decimal(id as nat), decimal(other_id as nat));
        crate::text::a_number_reads_back(id as nat);
        crate::text::a_number_reads_back(other_id as nat);
        if a.len() < b.len() {
            assert(one[a.len() as int] == '.');
            assert(two[a.len() as int] == b[a.len() as int]);
        } else if b.len() < a.len() {
            assert(two[b.len() as int] == '.');
            assert(one[b.len() as int] == a[b.len() as int]);
        }
        assert(one.take(a.len() as int) =~= a);
        assert(two.take(b.len() as int) =~= b);
        assert(one.skip(a.len() as int + 1) =~= stream);
        assert(two.skip(b.len() as int + 1) =~= other);
    }
}

/// A window of a file shows the lines it names: each at its own place, as many
/// as it asks for and the file has, and it says so just where there are more.
pub proof fn a_window_shows_the_lines_it_names(bytes: Seq<u8>, path: Seq<char>, window: Window, k: int)
    requires
        window.offset < lines_of(lossy_text(bytes)).len(),
        window.limit > 0,
    ensures
        ({
            let all = lines_of(lossy_text(bytes));
            let (shown, more) = excerpt_of(bytes, Some(window));
            let lines = split_on(vstd::utf8::decode_utf8(shown), '\n');
            let left = all.len() - window.offset;
            &&& window_fault(path, window, all.len() as int) is None
            &&& lines.len() == if window.limit < left {
                window.limit as int
            } else {
                left
            }
            &&& 0 <= k < lines.len() ==> lines[k] == all[window.offset + k]
            &&& more == (window.limit < left)
        }),
{
    let all = lines_of(lossy_text(bytes));
    let end = window_end(window, all.len() as int);
    let part = all.subrange(window.offset as int, end);
    lemma_lines_hold_no_newline(lossy_text(bytes));
    assert forall|i: int| 0 <= i < part.len() implies !(#[trigger] part[i]).contains('\n') by {
        assert(part[i] == all[window.offset + i]);
    }
    a_shown_window_splits_back(part);
    vstd::utf8::encode_utf8_decode_utf8(lines_joined(part));
}

/// A window past the end is denied, by where it starts and by how long the file
/// is; only the top of an empty file is not past its end.
pub proof fn a_window_past_the_end_is_denied(path: Seq<char>, window: Window, len: int)
    requires
        0 <= len <= u64::MAX,
    ensures
        window_fault(path, window, len) is Some <==> window.offset >= len && window.offset > 0,
        window_fault(path, window, len) matches Some(fault) ==> fault == FaultModel::Denied(
            DenialModel::OutOfRange { path, offset: window.offset, len: len as u64 },
        ),
{
}

/// A file that is read without a window is shown from its first byte.
pub proof fn a_whole_read_is_kept(bytes: Seq<u8>)
    ensures
        excerpt_of(bytes, None).0 == kept(bytes),
        excerpt_of(bytes, None).1 <==> bytes.len() > 256 * 1024,
{
}

/// An entry is listed just where the directory holds it and its name passes the
/// glob, in the directory it was found in and with what is known of it; the
/// entries that pass keep their order until they are sorted.
pub proof fn a_listing_keeps_what_passes(found: Seq<DirEntry>, glob: Option<Seq<char>>)
    ensures
        passing(found, glob) == found.filter(
            |entry: DirEntry|
                match glob {
                    Some(pattern) => glob_fits(pattern, entry.name@),
                    None => true,
                },
        ),
    decreases found.len(),
{
    reveal(Seq::filter);
    let fits = |entry: DirEntry|
        match glob {
            Some(pattern) => glob_fits(pattern, entry.name@),
            None => true,
        };
    if found.len() > 0 {
        a_listing_keeps_what_passes(found.drop_last(), glob);
    }
    assert(passing(found, glob) =~= found.filter(fits));
}

/// A listing under its cap is whole; over it, it holds the first that passed,
/// as many as the cap.
pub proof fn a_listing_is_whole_or_capped(
    dir: Seq<char>,
    found: Seq<DirEntry>,
    glob: Option<Seq<char>>,
    cap: int,
    i: int,
)
    requires
        0 <= cap,
        0 <= i < listed(found, glob, cap).len(),
    ensures
        ({
            let chosen = listed(found, glob, cap);
            let entry = entries_under(dir, chosen)[i];
            &&& chosen.len() == if passing(found, glob).len() <= cap {
                passing(found, glob).len() as int
            } else {
                cap
            }
            &&& chosen[i] == passing(found, glob)[i]
            &&& entry.path == joined_path(dir, chosen[i].name@)
            &&& entry.kind == chosen[i].kind
            &&& entry.size == chosen[i].size
        }),
{
}

/// A command needs the capability of its kind, and a file is read just where the
/// target can read and the window that is asked for starts inside it.
pub proof fn a_call_needs_its_own_capability(
    held: Seq<Capability>,
    bytes: Seq<u8>,
    path: Seq<char>,
    window: Option<Window>,
)
    ensures
        Machine::needed(true) == Capability::Background,
        Machine::needed(false) == Capability::Exec,
        !held.contains(Capability::Read) ==> read_fault(held, bytes, path, window) == Some(
            FaultModel::Denied(DenialModel::MissingCapability(Capability::Read)),
        ),
        held.contains(Capability::Read) && window is None ==> read_fault(
            held,
            bytes,
            path,
            window,
        ) is None,
        held.contains(Capability::Read) && window is Some ==> read_fault(held, bytes, path, window)
            == window_fault(path, window->0, lines_of(lossy_text(bytes)).len() as int),
{
}

/// A listing is denied for the first of its names that no path can be made of,
/// whatever stands behind it.
pub proof fn the_first_denied_name_counts(
    dir: Seq<char>,
    ahead: Seq<DirEntry>,
    entry: DirEntry,
    behind: Seq<DirEntry>,
)
    requires
        forall|i: int|
            0 <= i < ahead.len() ==> path_denial(
                joined_path(dir, (#[trigger] ahead[i]).name@),
            ) is None,
    ensures
        first_denial(dir, ahead) is None,
        path_denial(joined_path(dir, entry.name@)) is Some ==> first_denial(
            dir,
            ahead + seq![entry] + behind,
        ) == path_denial(joined_path(dir, entry.name@)),
    decreases ahead.len() + behind.len(),
{
    let found = ahead + seq![entry] + behind;
    if behind.len() > 0 {
        let fewer = behind.drop_last();
        the_first_denied_name_counts(dir, ahead, entry, fewer);
        assert(found.drop_last() =~= ahead + seq![entry] + fewer);
    } else {
        if ahead.len() > 0 {
            let fewer = ahead.drop_last();
            assert forall|i: int| 0 <= i < fewer.len() implies path_denial(
                joined_path(dir, (#[trigger] fewer[i]).name@),
            ) is None by {
                assert(path_denial(joined_path(dir, ahead[i].name@)) is None);
            }
            the_first_denied_name_counts(dir, fewer, entry, behind);
            assert(path_denial(joined_path(dir, ahead[ahead.len() - 1].name@)) is None);
        }
        assert(found.drop_last() =~= ahead);
        assert(found.last() == entry);
    }
}

/// An entry is listed under its directory, as what it is and with its size; and
/// what is told of it is what it holds.
pub proof fn an_entry_is_listed_as_it_is(dir: Seq<char>, found: Seq<DirEntry>, listed: Seq<Entry>, i: int)
    ensures
        entries_under(dir, found).len() == found.len(),
        entry_models(listed).len() == listed.len(),
        0 <= i < found.len() ==> {
            &&& entries_under(dir, found)[i].path == joined_path(dir, found[i].name@)
            &&& entries_under(dir, found)[i].kind == found[i].kind
            &&& entries_under(dir, found)[i].size == found[i].size
        },
        0 <= i < listed.len() ==> {
            &&& entry_models(listed)[i].path == listed[i].path@
            &&& entry_models(listed)[i].kind == listed[i].kind
            &&& entry_models(listed)[i].size == listed[i].size
        },
{
}

} // verus!
