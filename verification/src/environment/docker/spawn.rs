//! Running a command inside a container.
//!
//! **Output arrives multiplexed.** Stdout and stderr come down one connection,
//! each payload behind an eight-byte header naming which stream it belongs to.
//!
//! **There is no signal endpoint.** Killing the *container* to interrupt one
//! command would destroy state a user may be inspecting. So the command
//! records its own pid on the way in, and a signal is a second command that
//! runs `kill`.
use vstd::prelude::*;
use crate::environment::docker::engine::ExecState;
use crate::environment::edit::{lossy, lossy_text};
use crate::environment::exec::{Outcome, Run, Signal};
use crate::error::{faulted, Denial, DenialModel, Fault, FaultModel};
use crate::text::{
    a_number_reads_back, chars_of, decimal, decimal_of, hex, hex_of, join3, join4, join5, last_index,
    lemma_last_index, number_value, parse_number, rfind, signed_decimal, signed_decimal_of,
    string_of, texts, trim, trimmed, without_trailing,
};

verus! {

/// How many milliseconds a wait sleeps between asking whether an exec has
/// ended.
pub const POLL: u64 = 50;

/// Where a command's pid is left so a later signal can find it.
pub const PROC_DIR: &'static str = ".faber/proc";

/// The directory a path is in.
pub open spec fn parent(path: Seq<char>) -> Seq<char> {
    let at = last_index(path, '/');
    if at <= 0 {
        "/"@
    } else {
        path.take(at)
    }
}

pub fn parent_of(path: &str) -> (r: String)
    ensures
        r@ == parent(path@),
{
    let chars = chars_of(path);
    proof {
        assert(chars@.skip(0) =~= chars@);
        lemma_last_index(path@, '/');
    }
    match rfind(&chars, 0, '/') {
        Some(at) => {
            if at == 0 {
                "/".to_owned()
            } else {
                let r = string_of(chars.as_slice(), 0, at);
                assert(r@ =~= path@.take(at as int));
                r
            }
        },
        None => "/".to_owned(),
    }
}

/// A text without the `c`s at its end.
pub(crate) fn strip_trailing(text: &str, c: char) -> (r: String)
    ensures
        r@ == without_trailing(text@, c),
{
    let chars = chars_of(text);
    let mut end: usize = chars.len();
    assert(text@.take(end as int) =~= text@);
    while end > 0 && chars[end - 1] == c
        invariant
            end <= chars@.len(),
            chars@ == text@,
            without_trailing(text@, c) == without_trailing(text@.take(end as int), c),
        decreases end,
    {
        assert(text@.take(end as int).drop_last() =~= text@.take(end - 1));
        end -= 1;
    }
    let kept = string_of(chars.as_slice(), 0, end);
    assert(kept@ =~= text@.take(end as int));
    kept
}

/// Processes started inside a container.
#[derive(Debug)]
pub struct DockerSpawn {
    container: String,
    /// The container-side root, so pid files land somewhere known.
    root: String,
    nonce: u64,
    next: u64,
}

/// Where a command's pid is left.
pub open spec fn pid_file(root: Seq<char>, nonce: u64, id: u64) -> Seq<char> {
    without_trailing(root, '/') + "/"@ + PROC_DIR@ + "/"@ + (hex(nonce as nat) + "-"@ + decimal(
        id as nat,
    ))
}

/// What a command is started with, so that its pid is recorded. `exec "$0"
/// "$@"` runs the command as this same process, so the pid just recorded is
/// the command's own; and the command is passed as arguments rather than
/// interpolated, so nothing here has to be quoted correctly to be safe.
pub open spec fn preamble(pid_path: Seq<char>) -> Seq<char> {
    "mkdir -p '"@ + parent(pid_path) + "' 2>/dev/null; printf %s $$ > '"@ + pid_path
        + "' 2>/dev/null; exec \"$0\" \"$@\""@
}

impl DockerSpawn {
    pub closed spec fn spec_container(&self) -> Seq<char> {
        self.container@
    }

    pub closed spec fn spec_root(&self) -> Seq<char> {
        self.root@
    }

    pub closed spec fn spec_nonce(&self) -> u64 {
        self.nonce
    }

    pub closed spec fn spec_next(&self) -> u64 {
        self.next
    }

    /// `nonce` tells this binding's pid files from another's.
    pub fn new(container: &str, root: &str, nonce: u64) -> (r: DockerSpawn)
        ensures
            r.spec_container() == container@,
            r.spec_root() == root@,
            r.spec_nonce() == nonce,
            r.spec_next() == 1,
    {
        DockerSpawn { container: container.to_owned(), root: root.to_owned(), nonce, next: 1 }
    }

    pub fn container(&self) -> (r: &str)
        ensures
            r@ == self.spec_container(),
    {
        self.container.as_str()
    }

    /// Where the next command's pid is left.
    pub fn pid_path(&mut self) -> (r: String)
        requires
            old(self).spec_next() < u64::MAX,
        ensures
            r@ == pid_file(old(self).spec_root(), old(self).spec_nonce(), old(self).spec_next()),
            final(self).spec_next() == old(self).spec_next() + 1,
            final(self).spec_container() == old(self).spec_container(),
            final(self).spec_root() == old(self).spec_root(),
            final(self).spec_nonce() == old(self).spec_nonce(),
    {
        let id: u64 = self.next;
        self.next = id + 1;
        let root = strip_trailing(self.root.as_str(), '/');
        let name = join3(hex_of(self.nonce).as_str(), "-", decimal_of(id).as_str());
        join5(root.as_str(), "/", PROC_DIR, "/", name.as_str())
    }
}

/// A pid file lies in its root's own directory of pid files, and a root that
/// ends in a separator does not double it.
pub proof fn a_pid_file_lies_under_its_root(root: Seq<char>, nonce: u64, id: u64)
    ensures
        parent(pid_file(root, nonce, id)) == without_trailing(root, '/') + "/"@ + PROC_DIR@,
        pid_file(root + seq!['/'], nonce, id) == pid_file(root, nonce, id),
{
    reveal_strlit("/");
    reveal_strlit("-");
    reveal_strlit(".faber/proc");
    let head = without_trailing(root, '/') + "/"@ + PROC_DIR@;
    let name = hex(nonce as nat) + "-"@ + decimal(id as nat);
    let path = pid_file(root, nonce, id);
    lemma_hex_plain(nonce as nat);
    lemma_decimal_plain(id as nat);
    assert forall|k: int| 0 <= k < name.len() implies name[k] != '/' by {
        let h = hex(nonce as nat);
        if k < h.len() {
            assert(name[k] == h[k]);
        } else if k > h.len() {
            assert(name[k] == decimal(id as nat)[k - h.len() - 1]);
        }
    }
    assert(path =~= head + "/"@ + name);
    lemma_last_slash(head, name);
    assert(path.take(head.len() as int) =~= head);
    assert(head.len() > 0);
    assert((root + seq!['/']).drop_last() =~= root);
}

proof fn lemma_last_slash(head: Seq<char>, name: Seq<char>)
    requires
        forall|k: int| 0 <= k < name.len() ==> #[trigger] name[k] != '/',
    ensures
        last_index(head + "/"@ + name, '/') == head.len(),
    decreases name.len(),
{
    reveal_strlit("/");
    let path = head + "/"@ + name;
    if name.len() == 0 {
        assert(path.last() == '/');
        assert(path.len() == head.len() + 1);
    } else {
        assert(path.last() == name[name.len() - 1]);
        assert(path.drop_last() =~= head + "/"@ + name.drop_last());
        assert forall|k: int| 0 <= k < name.drop_last().len() implies
            #[trigger] name.drop_last()[k] != '/' by {
            assert(name[k] != '/');
        }
        lemma_last_slash(head, name.drop_last());
    }
}

proof fn lemma_hex_plain(n: nat)
    ensures
        forall|k: int| 0 <= k < hex(n).len() ==> #[trigger] hex(n)[k] != '/',
    decreases n,
{
    if n >= 16 {
        lemma_hex_plain(n / 16);
        let before = hex(n / 16);
        assert forall|k: int| 0 <= k < hex(n).len() implies #[trigger] hex(n)[k] != '/' by {
            if k < before.len() {
                assert(hex(n)[k] == before[k]);
            }
        }
    }
}

proof fn lemma_decimal_plain(n: nat)
    ensures
        forall|k: int| 0 <= k < decimal(n).len() ==> #[trigger] decimal(n)[k] != '/',
    decreases n,
{
    if n >= 10 {
        lemma_decimal_plain(n / 10);
        let before = decimal(n / 10);
        assert forall|k: int| 0 <= k < decimal(n).len() implies #[trigger] decimal(n)[k] != '/' by {
            if k < before.len() {
                assert(decimal(n)[k] == before[k]);
            }
        }
    }
}

fn strings(list: &Vec<String>, out: &mut Vec<String>)
    ensures
        texts(final(out)@) == texts(old(out)@) + texts(list@),
{
    let ghost start = texts(out@);
    let ghost all = texts(list@);
    let mut i: usize = 0;
    assert(start + all.take(0) =~= start);
    while i < list.len()
        invariant
            i <= list@.len(),
            all == texts(list@),
            texts(out@) == start + all.take(i as int),
        decreases list@.len() - i,
    {
        let ghost before = texts(out@);
        out.push(list[i].clone());
        assert(texts(out@) =~= before.push(all[i as int]));
        assert(start + all.take(i + 1) =~= before.push(all[i as int]));
        i += 1;
    }
    assert(all.take(i as int) =~= all);
}

/// What the daemon is asked to run for a command whose pid is left at
/// `pid_path`.
pub fn spawn(run: &Run, pid_path: &str) -> (r: Result<Vec<String>, Fault>)
    ensures
        if run.argv@.len() == 0 {
            faulted(r) == Some(
                FaultModel::Denied(
                    DenialModel::Malformed {
                        what: "command"@,
                        reason: "an empty argv names no program"@,
                    },
                ),
            )
        } else {
            r matches Ok(cmd) && texts(cmd@) == seq!["/bin/sh"@, "-c"@, preamble(pid_path@)]
                + texts(run.argv@)
        },
{
    if run.argv.len() == 0 {
        return Err(
            Fault::Denied(
                Denial::Malformed {
                    what: "command".to_owned(),
                    reason: "an empty argv names no program".to_owned(),
                },
            ),
        );
    }
    let script = join5(
        "mkdir -p '",
        parent_of(pid_path).as_str(),
        "' 2>/dev/null; printf %s $$ > '",
        pid_path,
        "' 2>/dev/null; exec \"$0\" \"$@\"",
    );
    let mut cmd = vec!["/bin/sh".to_owned(), "-c".to_owned(), script];
    assert(texts(cmd@) =~= seq!["/bin/sh"@, "-c"@, preamble(pid_path@)]);
    strings(&run.argv, &mut cmd);
    Ok(cmd)
}

// ---------------------------------------------------------------------------
// Output
// ---------------------------------------------------------------------------

/// The size that a frame's header gives its payload.
pub open spec fn frame_size(bytes: Seq<u8>) -> int {
    bytes[4] as int * 0x1000000 + bytes[5] as int * 0x10000 + bytes[6] as int * 0x100
        + bytes[7] as int
}

/// Whether a whole frame stands at the head of the bytes.
pub open spec fn has_frame(bytes: Seq<u8>) -> bool {
    bytes.len() >= 8 && bytes.len() >= 8 + frame_size(bytes)
}

/// What a stream of frames carries: the bytes of stdout, those of stderr, and
/// what is left over for the next frame.
pub struct Streams {
    pub stdout: Seq<u8>,
    pub stderr: Seq<u8>,
    pub rest: Seq<u8>,
}

/// What a stream of frames carries. 1 is stdout and 2 is stderr; anything else
/// is input echoed back, which a reader of output never wants.
pub open spec fn demultiplexed(bytes: Seq<u8>) -> Streams
    decreases bytes.len(),
{
    if !has_frame(bytes) {
        Streams { stdout: Seq::empty(), stderr: Seq::empty(), rest: bytes }
    } else {
        let size = frame_size(bytes);
        let payload = bytes.subrange(8, 8 + size);
        let after = demultiplexed(bytes.skip(8 + size));
        if bytes[0] == 1 {
            Streams { stdout: payload + after.stdout, ..after }
        } else if bytes[0] == 2 {
            Streams { stderr: payload + after.stderr, ..after }
        } else {
            after
        }
    }
}

/// Splits what the daemon sends into the two streams.
#[derive(Debug)]
pub struct Demultiplexer {
    tty: bool,
    pending: Vec<u8>,
}

impl Demultiplexer {
    /// Whether the streams were merged by a terminal.
    pub closed spec fn merged(&self) -> bool {
        self.tty
    }

    /// What was received of a frame that is not whole yet.
    pub closed spec fn waiting(&self) -> Seq<u8> {
        self.pending@
    }

    pub fn new(tty: bool) -> (r: Demultiplexer)
        ensures
            r.merged() == tty,
            r.waiting() == Seq::<u8>::empty(),
    {
        Demultiplexer { tty, pending: Vec::new() }
    }

    /// Takes the next bytes in, and hands out what they complete of stdout and
    /// of stderr. A terminal already merged the two, so all of its output is
    /// stdout.
    pub fn demultiplex(&mut self, chunk: &[u8]) -> (r: (Vec<u8>, Vec<u8>))
        ensures
            final(self).merged() == old(self).merged(),
            if old(self).merged() {
                &&& r.0@ == chunk@
                &&& r.1@.len() == 0
                &&& final(self).waiting() == old(self).waiting()
            } else {
                let streams = demultiplexed(old(self).waiting() + chunk@);
                &&& r.0@ == streams.stdout
                &&& r.1@ == streams.stderr
                &&& final(self).waiting() == streams.rest
            },
    {
        if self.tty {
            return (vstd::slice::slice_to_vec(chunk), Vec::new());
        }
        let mut bytes: Vec<u8> = Vec::new();
        append(&mut bytes, self.pending.as_slice(), 0, self.pending.len());
        append(&mut bytes, chunk, 0, chunk.len());
        let ghost all = self.pending@ + chunk@;
        assert(bytes@ =~= all);
        let mut stdout: Vec<u8> = Vec::new();
        let mut stderr: Vec<u8> = Vec::new();
        let mut at: usize = 0;
        proof {
            assert(all.skip(0) =~= all);
            assert(stdout@ + demultiplexed(all).stdout =~= demultiplexed(all).stdout);
            assert(stderr@ + demultiplexed(all).stderr =~= demultiplexed(all).stderr);
        }
        while bytes.len() - at >= 8 && ((bytes.len() - at - 8) as u64) >= size_at(&bytes, at)
            invariant
                at <= bytes@.len(),
                bytes@ == all,
                demultiplexed(all).stdout == stdout@ + demultiplexed(all.skip(at as int)).stdout,
                demultiplexed(all).stderr == stderr@ + demultiplexed(all.skip(at as int)).stderr,
                demultiplexed(all).rest == demultiplexed(all.skip(at as int)).rest,
            decreases bytes@.len() - at,
        {
            let ghost here = all.skip(at as int);
            let ghost out = stdout@;
            let ghost err = stderr@;
            let size: usize = size_at(&bytes, at) as usize;
            let end: usize = at + 8 + size;
            proof {
                assert(here[0] == all[at as int]);
                assert(has_frame(here));
                assert(here.skip(8 + size) =~= all.skip(end as int));
                assert(here.subrange(8, 8 + size) =~= all.subrange(at + 8, end as int));
            }
            let kind = bytes[at];
            if kind == 1 {
                append(&mut stdout, bytes.as_slice(), at + 8, end);
                assert(out + (all.subrange(at + 8, end as int) + demultiplexed(
                    all.skip(end as int),
                ).stdout) =~= stdout@ + demultiplexed(all.skip(end as int)).stdout);
            } else if kind == 2 {
                append(&mut stderr, bytes.as_slice(), at + 8, end);
                assert(err + (all.subrange(at + 8, end as int) + demultiplexed(
                    all.skip(end as int),
                ).stderr) =~= stderr@ + demultiplexed(all.skip(end as int)).stderr);
            }
            at = end;
        }
        proof {
            let here = all.skip(at as int);
            assert(!has_frame(here)) by {
                if here.len() >= 8 {
                    assert(here[4] == all[at + 4] && here[5] == all[at + 5] && here[6] == all[at
                        + 6] && here[7] == all[at + 7]);
                }
            }
            assert(stdout@ + Seq::<u8>::empty() =~= stdout@);
            assert(stderr@ + Seq::<u8>::empty() =~= stderr@);
        }
        let mut rest: Vec<u8> = Vec::new();
        append(&mut rest, bytes.as_slice(), at, bytes.len());
        assert(rest@ =~= all.skip(at as int));
        self.pending = rest;
        (stdout, stderr)
    }
}

fn append(into: &mut Vec<u8>, from: &[u8], start: usize, end: usize)
    requires
        start <= end <= from@.len(),
    ensures
        final(into)@ == old(into)@ + from@.subrange(start as int, end as int),
{
    let ghost before = into@;
    let mut i: usize = start;
    assert(into@ =~= before + from@.subrange(start as int, start as int));
    while i < end
        invariant
            start <= i <= end <= from@.len(),
            into@ == before + from@.subrange(start as int, i as int),
        decreases end - i,
    {
        into.push(from[i]);
        i += 1;
        assert(into@ =~= before + from@.subrange(start as int, i as int));
    }
}

fn size_at(bytes: &Vec<u8>, at: usize) -> (r: u64)
    requires
        at + 8 <= bytes.len(),
    ensures
        r == frame_size(bytes@.skip(at as int)),
{
    bytes[at + 4] as u64 * 0x1000000 + bytes[at + 5] as u64 * 0x10000 + bytes[at + 6] as u64
        * 0x100 + bytes[at + 7] as u64
}

/// How the bytes are cut on their way makes no difference to what the streams
/// carry.
pub proof fn cuts_do_not_matter(first: Seq<u8>, second: Seq<u8>)
    ensures
        ({
            let whole = demultiplexed(first + second);
            let one = demultiplexed(first);
            let two = demultiplexed(one.rest + second);
            &&& whole.stdout == one.stdout + two.stdout
            &&& whole.stderr == one.stderr + two.stderr
            &&& whole.rest == two.rest
        }),
    decreases first.len(),
{
    let all = first + second;
    if !has_frame(first) {
        let two = demultiplexed(all);
        assert(Seq::<u8>::empty() + two.stdout =~= two.stdout);
        assert(Seq::<u8>::empty() + two.stderr =~= two.stderr);
    } else {
        let size = frame_size(first);
        assert(all[0] == first[0] && all[4] == first[4] && all[5] == first[5] && all[6]
            == first[6] && all[7] == first[7]);
        assert(has_frame(all));
        assert(all.subrange(8, 8 + size) =~= first.subrange(8, 8 + size));
        assert(all.skip(8 + size) =~= first.skip(8 + size) + second);
        cuts_do_not_matter(first.skip(8 + size), second);
        let payload = first.subrange(8, 8 + size);
        let one = demultiplexed(first.skip(8 + size));
        let two = demultiplexed(one.rest + second);
        assert(payload + (one.stdout + two.stdout) =~= payload + one.stdout + two.stdout);
        assert(payload + (one.stderr + two.stderr) =~= payload + one.stderr + two.stderr);
    }
}

/// A number in as many bytes, the most significant one first: each is what is
/// left of the number once those behind it are taken away.
pub open spec fn big_endian(n: nat, width: nat) -> Seq<u8>
    decreases width,
{
    if width == 0 {
        Seq::empty()
    } else {
        big_endian(n / 256, (width - 1) as nat).push((n % 256) as u8)
    }
}

/// A frame as a daemon writes it: which stream it is of, three bytes of
/// nothing, how long its payload is, and the payload.
pub open spec fn frame(kind: u8, payload: Seq<u8>) -> Seq<u8> {
    seq![kind, 0, 0, 0] + big_endian(payload.len(), 4) + payload
}

proof fn lemma_big_endian(n: nat)
    requires
        n < 0x1_0000_0000,
    ensures
        big_endian(n, 4).len() == 4,
        big_endian(n, 4)[0] as int * 0x1000000 + big_endian(n, 4)[1] as int * 0x10000
            + big_endian(n, 4)[2] as int * 0x100 + big_endian(n, 4)[3] as int == n,
{
    reveal_with_fuel(big_endian, 5);
    let a = n / 256;
    let b = a / 256;
    let c = b / 256;
    assert(c < 256);
    assert(c % 256 == c);
    assert(n == a * 256 + n % 256);
    assert(a == b * 256 + a % 256);
    assert(b == c * 256 + b % 256);
    let bytes = big_endian(n, 4);
    assert(bytes[3] == (n % 256) as u8);
    assert(bytes[2] == (a % 256) as u8);
    assert(bytes[1] == (b % 256) as u8);
    assert(bytes[0] == (c % 256) as u8);
}

proof fn lemma_frame(kind: u8, payload: Seq<u8>, rest: Seq<u8>)
    requires
        payload.len() < 0x1_0000_0000,
    ensures
        has_frame(frame(kind, payload) + rest),
        frame_size(frame(kind, payload) + rest) == payload.len(),
        (frame(kind, payload) + rest)[0] == kind,
        (frame(kind, payload) + rest).subrange(8, 8 + payload.len() as int) == payload,
        (frame(kind, payload) + rest).skip(8 + payload.len() as int) == rest,
{
    lemma_big_endian(payload.len());
    let size = big_endian(payload.len(), 4);
    let bytes = frame(kind, payload) + rest;
    assert(bytes[4] == size[0] && bytes[5] == size[1] && bytes[6] == size[2] && bytes[7]
        == size[3]);
    assert(bytes.subrange(8, 8 + payload.len() as int) =~= payload);
    assert(bytes.skip(8 + payload.len() as int) =~= rest);
}

/// A frame that is written comes out again, on the stream it is of and ahead of
/// what follows it. One of no output stream is left out.
pub proof fn a_written_frame_comes_out(kind: u8, payload: Seq<u8>, rest: Seq<u8>)
    requires
        payload.len() < 0x1_0000_0000,
    ensures
        ({
            let whole = demultiplexed(frame(kind, payload) + rest);
            let after = demultiplexed(rest);
            &&& whole.stdout == if kind == 1 {
                payload + after.stdout
            } else {
                after.stdout
            }
            &&& whole.stderr == if kind == 2 {
                payload + after.stderr
            } else {
                after.stderr
            }
            &&& whole.rest == after.rest
        }),
{
    lemma_frame(kind, payload, rest);
}

/// A frame of which something is still missing waits, whole: nothing of it is
/// handed out early, and nothing is lost.
pub proof fn a_cut_frame_waits(kind: u8, payload: Seq<u8>, n: int)
    requires
        payload.len() < 0x1_0000_0000,
        0 <= n < frame(kind, payload).len(),
    ensures
        demultiplexed(frame(kind, payload).take(n)) == (Streams {
            stdout: Seq::empty(),
            stderr: Seq::empty(),
            rest: frame(kind, payload).take(n),
        }),
{
    lemma_big_endian(payload.len());
    let size = big_endian(payload.len(), 4);
    let whole = frame(kind, payload);
    let part = whole.take(n);
    if n >= 8 {
        assert(part[4] == size[0] && part[5] == size[1] && part[6] == size[2] && part[7]
            == size[3]);
    }
}

/// The bytes that a list of frames is written as.
pub open spec fn written(frames: Seq<(u8, Seq<u8>)>) -> Seq<u8>
    decreases frames.len(),
{
    if frames.len() == 0 {
        Seq::empty()
    } else {
        frame(frames[0].0, frames[0].1) + written(frames.drop_first())
    }
}

/// The payloads of one stream's frames, one after another.
pub open spec fn sent_on(frames: Seq<(u8, Seq<u8>)>, kind: u8) -> Seq<u8>
    decreases frames.len(),
{
    if frames.len() == 0 {
        Seq::empty()
    } else if frames[0].0 == kind {
        frames[0].1 + sent_on(frames.drop_first(), kind)
    } else {
        sent_on(frames.drop_first(), kind)
    }
}

/// Whatever is written in frames is read back stream by stream, in order, and
/// nothing is left waiting.
pub proof fn written_frames_are_read_back(frames: Seq<(u8, Seq<u8>)>)
    requires
        forall|i: int| 0 <= i < frames.len() ==> (#[trigger] frames[i]).1.len() < 0x1_0000_0000,
    ensures
        demultiplexed(written(frames)).stdout == sent_on(frames, 1),
        demultiplexed(written(frames)).stderr == sent_on(frames, 2),
        demultiplexed(written(frames)).rest == Seq::<u8>::empty(),
    decreases frames.len(),
{
    if frames.len() > 0 {
        let later = frames.drop_first();
        assert forall|i: int| 0 <= i < later.len() implies (#[trigger] later[i]).1.len()
            < 0x1_0000_0000 by {
            assert(later[i] == frames[i + 1]);
        }
        written_frames_are_read_back(later);
        a_written_frame_comes_out(frames[0].0, frames[0].1, written(later));
    }
}

// ---------------------------------------------------------------------------
// The process
// ---------------------------------------------------------------------------

/// What is known of a process in a container.
#[derive(Debug, Clone, Copy, PartialEq, Eq, Structural)]
pub struct DockerProc {
    pub outcome: Option<Outcome>,
}

impl DockerProc {
    /// Turns a finished exec's state into an outcome.
    ///
    /// A process that a signal killed still surfaces as an exit code here,
    /// because the daemon does not distinguish them.
    #[verifier::truncate]
    pub fn ended(&mut self, state: ExecState) -> (r: Outcome)
        ensures
            r == (Outcome::Completed {
                code: (match state.exit_code {
                    Some(code) => code,
                    None => -1i64,
                }) as i32,
            }),
            final(self).outcome == Some(r),
    {
        let code: i64 = match state.exit_code {
            Some(code) => code,
            None => -1,
        };
        let outcome = Outcome::Completed { code: code as i32 };
        self.outcome = Some(outcome);
        outcome
    }

    /// What a poll makes of an exec's state: an outcome, once it has ended.
    pub fn polled(&mut self, state: ExecState) -> (r: Option<Outcome>)
        ensures
            r is None <==> state.running,
            r matches Some(outcome) ==> outcome == (Outcome::Completed {
                code: (match state.exit_code {
                    Some(code) => code,
                    None => -1i64,
                }) as i32,
            }),
            final(self).outcome == if state.running {
                old(self).outcome
            } else {
                r
            },
    {
        if state.running {
            None
        } else {
            Some(self.ended(state))
        }
    }
}

/// The pid that a text spells, white space around it aside.
pub open spec fn pid_value(text: Seq<char>) -> Option<nat> {
    number_value(trimmed(text), u32::MAX as nat)
}

/// The pid that a text spells.
pub fn pid_in(text: &str) -> (r: Option<u32>)
    ensures
        match r {
            Some(pid) => pid_value(text@) == Some(pid as nat),
            None => pid_value(text@) is None,
        },
{
    let chars = chars_of(trim(text));
    assert(chars@.skip(0) =~= chars@);
    parse_number(&chars, 0, u32::MAX)
}

/// The pid a command recorded for itself, inside the container.
pub fn recorded_pid(recorded: &[u8]) -> (r: Option<u32>)
    ensures
        match r {
            Some(pid) => pid_value(lossy_text(recorded@)) == Some(pid as nat),
            None => pid_value(lossy_text(recorded@)) is None,
        },
{
    pid_in(lossy(recorded).as_str())
}

/// The command that signals a process in a container. `kill` is a shell
/// builtin, so this does not depend on the image carrying one.
pub fn signal(pid: Option<u32>, sent: Signal) -> (r: Result<Vec<String>, Fault>)
    ensures
        match pid {
            Some(pid) => r matches Ok(cmd) && texts(cmd@) == seq![
                "/bin/sh"@,
                "-c"@,
                "kill -"@ + signed_decimal(sent.code()) + " "@ + decimal(pid as nat),
            ],
            None => faulted(r) == Some(
                FaultModel::Unreachable(
                    "this command did not record a pid, so it cannot be signalled"@,
                ),
            ),
        },
{
    match pid {
        Some(pid) => {
            let script = join4(
                "kill -",
                signed_decimal_of(sent.number() as i64).as_str(),
                " ",
                decimal_of(pid as u64).as_str(),
            );
            let cmd = vec!["/bin/sh".to_owned(), "-c".to_owned(), script];
            assert(texts(cmd@) =~= seq!["/bin/sh"@, "-c"@, script@]);
            Ok(cmd)
        },
        None => Err(
            Fault::Unreachable(
                "this command did not record a pid, so it cannot be signalled".to_owned(),
            ),
        ),
    }
}

/// No two pid files of one spawn are alike.
pub proof fn pid_files_are_distinct(root: Seq<char>, nonce: u64, id: u64, other: u64)
    requires
        id != other,
    ensures
        pid_file(root, nonce, id) != pid_file(root, nonce, other),
{
    let head = without_trailing(root, '/') + "/"@ + PROC_DIR@ + "/"@ + (hex(nonce as nat) + "-"@);
    let one = decimal(id as nat);
    let two = decimal(other as nat);
    assert(pid_file(root, nonce, id) =~= head + one);
    assert(pid_file(root, nonce, other) =~= head + two);
    a_number_reads_back(id as nat);
    a_number_reads_back(other as nat);
    if pid_file(root, nonce, id) == pid_file(root, nonce, other) {
        assert((head + one).skip(head.len() as int) =~= one);
        assert((head + two).skip(head.len() as int) =~= two);
    }
}

/// A name's directory is what stands ahead of the last separator; what is at
/// the top, or has none, is in the top directory.
pub proof fn a_name_lies_in_its_directory(dir: Seq<char>, name: Seq<char>)
    requires
        !name.contains('/'),
    ensures
        dir.len() > 0 ==> parent(dir + seq!['/'] + name) == dir,
        parent(seq!['/'] + name) == seq!['/'],
        parent(name) == seq!['/'],
{
    reveal_strlit("/");
    assert("/"@ =~= seq!['/']);
    assert forall|k: int| 0 <= k < name.len() implies #[trigger] name[k] != '/' by {
        assert(name.contains(name[k]));
    }
    lemma_last_slash(dir, name);
    lemma_last_slash(Seq::empty(), name);
    assert(dir + "/"@ + name =~= dir + seq!['/'] + name);
    assert(Seq::<char>::empty() + "/"@ + name =~= seq!['/'] + name);
    assert((dir + seq!['/'] + name).take(dir.len() as int) =~= dir);
    lemma_last_index(name, '/');
}

/// A pid that was left as its digits is read back, with white space around it
/// or without, up to the largest there is.
pub proof fn a_left_pid_is_read_back(pid: nat, before: Seq<char>, after: Seq<char>)
    requires
        crate::text::all_white(before),
        crate::text::all_white(after),
    ensures
        pid_value(before + decimal(pid) + after) == if pid <= u32::MAX {
            Some(pid)
        } else {
            None
        },
{
    a_number_reads_back(pid);
    let digits = decimal(pid);
    assert('0' <= digits[0] <= '9');
    assert('0' <= digits[digits.len() - 1] <= '9');
    crate::text::trimming_leaves_the_core(before, digits, after);
    crate::text::a_number_is_read_up_to_its_limit(pid, u32::MAX as nat);
}

/// A command's pid file is made in its own directory and written by the command
/// itself, which then runs as that process: the script names the file and its
/// directory and nothing else.
pub proof fn a_preamble_names_its_file(dir: Seq<char>, name: Seq<char>)
    requires
        !name.contains('/'),
        dir.len() > 0,
    ensures
        preamble(dir + seq!['/'] + name) == "mkdir -p '"@ + dir
            + "' 2>/dev/null; printf %s $$ > '"@ + (dir + seq!['/'] + name)
            + "' 2>/dev/null; exec \"$0\" \"$@\""@,
{
    a_name_lies_in_its_directory(dir, name);
}

} // verus!
