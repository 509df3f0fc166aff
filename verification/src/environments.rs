//! Reaching a user's machine from a request.
//!
//! What to dial is always configuration passed in, never the process's own,
//! and it is assembled here from the caller's own rows. Faber runs as a
//! multi-user service, so whatever the process's environment says describes
//! the operator and would send one user's work out under another's identity.
use vstd::prelude::*;
use crate::environment::path::{root_denial, Root};
use crate::error::{bad_request, refusal, AppError, Denial, DenialModel, ErrorModel, Fault, FaultModel};
use crate::message::{joined, text_message, texts_in, Message, MessageModel, Role};
use crate::models::host::{ExecMode, Host, HostContainer, Transport};
use crate::text::{
    alphanumeric, chars_of, is_alphanumeric, join3, join5, lists, opt, pairs, same, starts_with,
    string_of, strip_prefixes, texts, without_prefixes, without_trailing,
};

verus! {

/// Where a container daemon listens when nobody said otherwise.
pub const DOCKER_SOCKET: &'static str = "/var/run/docker.sock";

// ---------------------------------------------------------------------------
// Reaching a daemon
// ---------------------------------------------------------------------------

/// The connection a daemon is reached over.
#[derive(Debug)]
pub enum DaemonRoute {
    /// A session faber dials; the socket is on its far side.
    Ssh,
    /// A session the host's own daemon dialed; the socket is on its far side.
    Agent,
    /// A socket or address on this machine.
    Local { endpoint: String },
}

/// Why a host's daemon is not reached for, whatever the connection.
pub open spec fn daemon_refusal(host: Host) -> Option<ErrorModel> {
    if !host.runs(ExecMode::Docker) {
        Some(
            ErrorModel::BadRequest(
                "this host's exec_mode is not 'docker', so it runs no container daemon"@,
            ),
        )
    } else if host.disabled_at is Some {
        Some(ErrorModel::BadRequest("this host is disabled"@))
    } else if host.reached_by(Transport::Ssh) || host.reached_by(Transport::Agent) {
        None
    } else if host.docker_endpoint is None {
        Some(
            ErrorModel::BadRequest(
                "this host has no docker_endpoint; a daemon faber was not told about is one it should not be talking to"@,
            ),
        )
    } else {
        None
    }
}

/// Which connection a host's container daemon is reached over.
///
/// Refuses a host that is not in docker mode: `exec_mode` is the user's
/// statement of what faber does once it has reached the machine, and treating
/// a `direct` host as a docker one because it happens to have an endpoint set
/// would override that statement with a guess.
pub fn reach_daemon(host: &Host) -> (r: Result<DaemonRoute, AppError>)
    ensures
        refusal(r) == daemon_refusal(*host),
        r matches Ok(route) ==> match route {
            DaemonRoute::Ssh => host.reached_by(Transport::Ssh),
            DaemonRoute::Agent => host.reached_by(Transport::Agent) && !host.reached_by(
                Transport::Ssh,
            ),
            DaemonRoute::Local { endpoint } => !host.reached_by(Transport::Ssh)
                && !host.reached_by(Transport::Agent) && opt(host.docker_endpoint) == Some(
                endpoint@,
            ),
        },
{
    if !host.is_running(ExecMode::Docker) {
        return Err(
            bad_request("this host's exec_mode is not 'docker', so it runs no container daemon"),
        );
    }
    if host.disabled_at.is_some() {
        return Err(bad_request("this host is disabled"));
    }
    if host.is_by(Transport::Ssh) {
        return Ok(DaemonRoute::Ssh);
    }
    if host.is_by(Transport::Agent) {
        return Ok(DaemonRoute::Agent);
    }
    match &host.docker_endpoint {
        Some(endpoint) => Ok(DaemonRoute::Local { endpoint: endpoint.clone() }),
        None => Err(
            bad_request(
                "this host has no docker_endpoint; a daemon faber was not told about is one it should not be talking to",
            ),
        ),
    }
}

/// The socket a far-side daemon is dialed at, or the error for an endpoint
/// that is not a socket path over there.
pub open spec fn far_socket_of(endpoint: Option<Seq<char>>, over: Seq<char>) -> Result<
    Seq<char>,
    ErrorModel,
> {
    match endpoint {
        None => Ok(DOCKER_SOCKET@),
        Some(text) => if "unix://"@.is_prefix_of(text) {
            Ok(without_prefixes(text, "unix://"@))
        } else if "/"@.is_prefix_of(text) {
            Ok(text)
        } else {
            Err(
                ErrorModel::BadRequest(
                    "`"@ + text + "` cannot be reached over "@ + over
                        + "; name the daemon's socket path on the far side"@,
                ),
            )
        },
    }
}

/// The socket a far-side daemon is dialed at. The path is on the *far* side,
/// so a `tcp://` endpoint is not a thing the forward can dial.
///
/// `over` names the connection: `ssh`, or `the agent connection`.
pub fn far_socket(host: &Host, over: &str) -> (r: Result<String, AppError>)
    ensures
        match far_socket_of(opt(host.docker_endpoint), over@) {
            Ok(socket) => r matches Ok(s) && s@ == socket,
            Err(error) => r matches Err(e) && e@ == error,
        },
{
    match &host.docker_endpoint {
        None => Ok(DOCKER_SOCKET.to_owned()),
        Some(endpoint) => {
            if starts_with(endpoint.as_str(), "unix://") {
                proof {
                    reveal_strlit("unix://");
                }
                Ok(strip_prefixes(endpoint.as_str(), "unix://"))
            } else if starts_with(endpoint.as_str(), "/") {
                Ok(endpoint.clone())
            } else {
                Err(
                    AppError::BadRequest(
                        join5(
                            "`",
                            endpoint.as_str(),
                            "` cannot be reached over ",
                            over,
                            "; name the daemon's socket path on the far side",
                        ),
                    ),
                )
            }
        },
    }
}

/// The error for an agent host whose daemon is not connected. There is no dial
/// and nothing to retry: this is the whole of what unreachable means for that
/// transport.
pub fn no_agent(host: &Host) -> (r: AppError)
    ensures
        r@ == ErrorModel::ServiceUnavailable(
            "no agent daemon is connected for '"@ + host.name@ + "'"@,
        ),
{
    fault(
        Fault::Unreachable(join3("no agent daemon is connected for '", host.name.as_str(), "'")),
    )
}

/// The key to store after a first connection: the one that was seen, while the
/// host is known by none. Never on a mismatch, which is what keeps this from
/// being a trust-on-every-use.
pub fn record_host_key(host: &Host, fingerprint: &str) -> (r: Option<String>)
    ensures
        opt(r) == if host.ssh_host_key is Some || fingerprint@.len() == 0 {
            None
        } else {
            Some(fingerprint@)
        },
{
    if host.ssh_host_key.is_some() || fingerprint.is_empty() {
        None
    } else {
        Some(fingerprint.to_owned())
    }
}

/// How a fault is answered.
pub open spec fn fault_answer(fault: FaultModel) -> ErrorModel {
    match fault {
        FaultModel::Denied(DenialModel::NotFound { path }) => ErrorModel::BadRequest(
            "`"@ + path + "` was not found on that machine"@,
        ),
        FaultModel::Denied(denial) => ErrorModel::BadRequest(denial.sentence()),
        FaultModel::Unreachable(reason) => ErrorModel::ServiceUnavailable(reason),
    }
}

/// Carries a [`Fault`] across as the answer that matches its class.
///
/// The two classes are the whole point of the type: a denial is about the
/// request and the caller repairs it, and an unreachable machine is about the
/// world and the caller retries.
pub fn fault(cause: Fault) -> (r: AppError)
    ensures
        r@ == fault_answer(cause@),
{
    match cause {
        Fault::Denied(denial) => match denial {
            Denial::NotFound { path } => AppError::BadRequest(
                join3("`", path.as_str(), "` was not found on that machine"),
            ),
            other => AppError::BadRequest(other.describe()),
        },
        Fault::Unreachable(reason) => AppError::ServiceUnavailable(reason),
    }
}

/// A denial is always the caller's to repair and an unreachable machine always
/// the caller's to retry; no fault is answered as faber's own failure.
pub proof fn faults_keep_their_class(fault: FaultModel)
    ensures
        fault is Denied <==> fault_answer(fault) is BadRequest,
        fault is Unreachable <==> fault_answer(fault) is ServiceUnavailable,
{
}

// ---------------------------------------------------------------------------
// What a session can be told to reach
// ---------------------------------------------------------------------------

/// One environment a user could tag, and the name they would tag it by.
///
/// A container, or a host used directly with a root registered. Both appear
/// under one namespace, because what the user types is a name and not a kind.
#[derive(Debug)]
pub struct Candidate {
    /// What follows the `@`.
    pub label: String,
    pub kind: &'static str,
    pub host_id: u128,
    pub host_name: String,
    pub container_id: Option<u128>,
    pub root_path: String,
    /// Operator intent, carried so a picker can show it rather than offering a
    /// name that will refuse at bind.
    pub disabled: bool,
}

/// What a [`Candidate`] says.
pub struct CandidateModel {
    pub label: Seq<char>,
    pub kind: Seq<char>,
    pub host_id: u128,
    pub host_name: Seq<char>,
    pub container_id: Option<u128>,
    pub root_path: Seq<char>,
    pub disabled: bool,
}

impl View for Candidate {
    type V = CandidateModel;

    open spec fn view(&self) -> CandidateModel {
        CandidateModel {
            label: self.label@,
            kind: self.kind@,
            host_id: self.host_id,
            host_name: self.host_name@,
            container_id: self.container_id,
            root_path: self.root_path@,
            disabled: self.disabled,
        }
    }
}

/// The models of a list of candidates.
pub open spec fn candidate_models(list: Seq<Candidate>) -> Seq<CandidateModel> {
    Seq::new(list.len(), |i: int| list[i]@)
}

/// The hosts that can be used directly: in direct mode, with a root. A host
/// with no root is not a place.
pub open spec fn direct_candidates(hosts: Seq<Host>) -> Seq<CandidateModel>
    decreases hosts.len(),
{
    if hosts.len() == 0 {
        Seq::empty()
    } else {
        let before = direct_candidates(hosts.drop_last());
        let host = hosts.last();
        if host.root_path is Some && host.runs(ExecMode::Direct) {
            before.push(
                CandidateModel {
                    label: host.name@,
                    kind: "host"@,
                    host_id: host.id,
                    host_name: host.name@,
                    container_id: None,
                    root_path: host.root_path->0@,
                    disabled: host.disabled_at is Some,
                },
            )
        } else {
            before
        }
    }
}

/// Where the host with `id` stands, or the list's length where it does not.
pub open spec fn host_at(hosts: Seq<Host>, id: u128) -> int
    decreases hosts.len(),
{
    if hosts.len() == 0 {
        0
    } else if hosts[0].id == id {
        0
    } else {
        1 + host_at(hosts.drop_first(), id)
    }
}

/// The containers whose host is among `hosts`.
pub open spec fn container_candidates(
    hosts: Seq<Host>,
    containers: Seq<HostContainer>,
) -> Seq<CandidateModel>
    decreases containers.len(),
{
    if containers.len() == 0 {
        Seq::empty()
    } else {
        let before = container_candidates(hosts, containers.drop_last());
        let container = containers.last();
        let at = host_at(hosts, container.host_id);
        if at < hosts.len() {
            before.push(
                CandidateModel {
                    label: match container.name {
                        Some(name) => name@,
                        None => container.container_ref@,
                    },
                    kind: "container"@,
                    host_id: hosts[at].id,
                    host_name: hosts[at].name@,
                    container_id: Some(container.id),
                    root_path: container.root_path@,
                    disabled: hosts[at].disabled_at is Some,
                },
            )
        } else {
            before
        }
    }
}

/// How many candidates go by `label`.
pub open spec fn label_count(found: Seq<CandidateModel>, label: Seq<char>) -> nat
    decreases found.len(),
{
    if found.len() == 0 {
        0
    } else {
        label_count(found.drop_last(), label) + if found.last().label == label {
            1nat
        } else {
            0nat
        }
    }
}

/// A candidate's final name: its own where no other goes by it, else the one
/// that its host qualifies.
pub open spec fn qualified(found: Seq<CandidateModel>, candidate: CandidateModel) -> Seq<char> {
    if label_count(found, candidate.label) > 1 {
        candidate.host_name + "/"@ + candidate.label
    } else {
        candidate.label
    }
}

/// Everything that can be tagged, under its final name.
pub open spec fn all_candidates(hosts: Seq<Host>, containers: Seq<HostContainer>) -> Seq<
    CandidateModel,
> {
    let found = direct_candidates(hosts) + container_candidates(hosts, containers);
    Seq::new(
        found.len(),
        |i: int| CandidateModel { label: qualified(found, found[i]), ..found[i] },
    )
}

fn find_host(hosts: &Vec<Host>, id: u128) -> (r: usize)
    ensures
        r == host_at(hosts@, id),
        r <= hosts@.len(),
{
    let mut i: usize = 0;
    assert(hosts@.skip(0) =~= hosts@);
    while i < hosts.len()
        invariant
            i <= hosts@.len(),
            host_at(hosts@, id) == i + host_at(hosts@.skip(i as int), id),
        decreases hosts@.len() - i,
    {
        if hosts[i].id == id {
            return i;
        }
        assert(hosts@.skip(i as int).drop_first() =~= hosts@.skip(i + 1));
        i += 1;
    }
    i
}

fn count_label(found: &Vec<Candidate>, label: &str) -> (r: usize)
    ensures
        r == label_count(candidate_models(found@), label@),
{
    let ghost all = candidate_models(found@);
    let mut count: usize = 0;
    let mut i: usize = 0;
    assert(all.take(0) =~= Seq::empty());
    while i < found.len()
        invariant
            i <= found@.len(),
            all == candidate_models(found@),
            count <= i,
            count == label_count(all.take(i as int), label@),
        decreases found@.len() - i,
    {
        assert(all.take(i + 1).drop_last() =~= all.take(i as int));
        if same(found[i].label.as_str(), label) {
            count += 1;
        }
        i += 1;
    }
    assert(all.take(i as int) =~= all);
    count
}

/// Everything the caller could tag, with the names to tag them by.
///
/// Names are short where they can be and qualified where they must be.
/// Qualifying only on collision is the difference between a name a user will
/// type and one they will copy.
pub fn candidates(hosts: &Vec<Host>, containers: &Vec<HostContainer>) -> (r: Vec<Candidate>)
    ensures
        candidate_models(r@) == all_candidates(hosts@, containers@),
{
    let mut found: Vec<Candidate> = Vec::new();
    let mut i: usize = 0;
    assert(candidate_models(found@) =~= direct_candidates(hosts@.take(0)));
    while i < hosts.len()
        invariant
            i <= hosts@.len(),
            candidate_models(found@) == direct_candidates(hosts@.take(i as int)),
        decreases hosts@.len() - i,
    {
        let host = &hosts[i];
        let ghost before = candidate_models(found@);
        assert(hosts@.take(i + 1).drop_last() =~= hosts@.take(i as int));
        if let Some(root_path) = &host.root_path {
            if host.is_running(ExecMode::Direct) {
                let candidate = Candidate {
                    label: host.name.clone(),
                    kind: "host",
                    host_id: host.id,
                    host_name: host.name.clone(),
                    container_id: None,
                    root_path: root_path.clone(),
                    disabled: host.disabled_at.is_some(),
                };
                found.push(candidate);
                assert(candidate_models(found@) =~= before.push(candidate@));
            }
        }
        i += 1;
    }
    assert(hosts@.take(i as int) =~= hosts@);
    let ghost direct = direct_candidates(hosts@);
    let mut j: usize = 0;
    assert(candidate_models(found@) =~= direct + container_candidates(
        hosts@,
        containers@.take(0),
    ));
    while j < containers.len()
        invariant
            j <= containers@.len(),
            candidate_models(found@) == direct + container_candidates(
                hosts@,
                containers@.take(j as int),
            ),
        decreases containers@.len() - j,
    {
        let container = &containers[j];
        let ghost before = candidate_models(found@);
        assert(containers@.take(j + 1).drop_last() =~= containers@.take(j as int));
        let at: usize = find_host(hosts, container.host_id);
        if at < hosts.len() {
            let host = &hosts[at];
            let candidate = Candidate {
                label: match &container.name {
                    Some(name) => name.clone(),
                    None => container.container_ref.clone(),
                },
                kind: "container",
                host_id: host.id,
                host_name: host.name.clone(),
                container_id: Some(container.id),
                root_path: container.root_path.clone(),
                disabled: host.disabled_at.is_some(),
            };
            found.push(candidate);
            assert(candidate_models(found@) =~= before.push(candidate@));
            assert(containers@.take(j + 1).last() == *container);
            assert(container_candidates(hosts@, containers@.take(j + 1)) == container_candidates(
                hosts@,
                containers@.take(j as int),
            ).push(candidate@));
        }
        j += 1;
    }
    assert(containers@.take(j as int) =~= containers@);
    let ghost all = candidate_models(found@);
    let mut named: Vec<Candidate> = Vec::new();
    let mut k: usize = 0;
    while k < found.len()
        invariant
            k <= found@.len(),
            all == candidate_models(found@),
            named@.len() == k,
            forall|m: int|
                0 <= m < k ==> (#[trigger] named@[m])@ == (CandidateModel {
                    label: qualified(all, all[m]),
                    ..all[m]
                }),
        decreases found@.len() - k,
    {
        let candidate = &found[k];
        let label = if count_label(&found, candidate.label.as_str()) > 1 {
            join3(candidate.host_name.as_str(), "/", candidate.label.as_str())
        } else {
            candidate.label.clone()
        };
        named.push(
            Candidate {
                label,
                kind: candidate.kind,
                host_id: candidate.host_id,
                host_name: candidate.host_name.clone(),
                container_id: candidate.container_id,
                root_path: candidate.root_path.clone(),
                disabled: candidate.disabled,
            },
        );
        k += 1;
    }
    assert(candidate_models(named@) =~= all_candidates(hosts@, containers@));
    named
}

/// A name is qualified exactly where two candidates would otherwise share it,
/// and then every one that shares it is.
pub proof fn names_are_qualified_only_on_collision(
    hosts: Seq<Host>,
    containers: Seq<HostContainer>,
    i: int,
    j: int,
)
    requires
        0 <= i < j < all_candidates(hosts, containers).len(),
    ensures
        ({
            let found = direct_candidates(hosts) + container_candidates(hosts, containers);
            let named = all_candidates(hosts, containers);
            found[i].label == found[j].label ==> named[i].label == found[i].host_name + "/"@
                + found[i].label && named[j].label == found[j].host_name + "/"@ + found[j].label
        }),
        ({
            let found = direct_candidates(hosts) + container_candidates(hosts, containers);
            let named = all_candidates(hosts, containers);
            (forall|k: int| 0 <= k < found.len() && k != i ==> (#[trigger] found[k]).label
                != found[i].label) ==> named[i].label == found[i].label
        }),
{
    let found = direct_candidates(hosts) + container_candidates(hosts, containers);
    if found[i].label == found[j].label {
        lemma_count_pair(found, found[i].label, i, j);
    }
    if forall|k: int| 0 <= k < found.len() && k != i ==> (#[trigger] found[k]).label
        != found[i].label {
        lemma_count_one(found, found[i].label, i);
    }
}

proof fn lemma_count_at_least_one(found: Seq<CandidateModel>, label: Seq<char>, i: int)
    requires
        0 <= i < found.len(),
        found[i].label == label,
    ensures
        label_count(found, label) >= 1,
    decreases found.len(),
{
    if i < found.len() - 1 {
        assert(found.drop_last()[i] == found[i]);
        lemma_count_at_least_one(found.drop_last(), label, i);
    }
}

proof fn lemma_count_pair(found: Seq<CandidateModel>, label: Seq<char>, i: int, j: int)
    requires
        0 <= i < j < found.len(),
        found[i].label == label,
        found[j].label == label,
    ensures
        label_count(found, label) >= 2,
    decreases found.len(),
{
    assert(found.drop_last()[i] == found[i]);
    if j < found.len() - 1 {
        assert(found.drop_last()[j] == found[j]);
        lemma_count_pair(found.drop_last(), label, i, j);
    } else {
        lemma_count_at_least_one(found.drop_last(), label, i);
    }
}

proof fn lemma_count_none(found: Seq<CandidateModel>, label: Seq<char>)
    requires
        forall|k: int| 0 <= k < found.len() ==> (#[trigger] found[k]).label != label,
    ensures
        label_count(found, label) == 0,
    decreases found.len(),
{
    if found.len() > 0 {
        assert(found[found.len() - 1].label != label);
        assert forall|k: int| 0 <= k < found.drop_last().len() implies (
        #[trigger] found.drop_last()[k]).label != label by {
            assert(found[k].label != label);
        }
        lemma_count_none(found.drop_last(), label);
    }
}

proof fn lemma_count_one(found: Seq<CandidateModel>, label: Seq<char>, i: int)
    requires
        0 <= i < found.len(),
        forall|k: int| 0 <= k < found.len() && k != i ==> (#[trigger] found[k]).label != label,
    ensures
        label_count(found, label) <= 1,
    decreases found.len(),
{
    let shorter = found.drop_last();
    assert forall|k: int| 0 <= k < shorter.len() && k != i implies (#[trigger] shorter[k]).label
        != label by {
        assert(found[k].label != label);
    }
    if i < shorter.len() {
        assert(found[found.len() - 1].label != label);
        lemma_count_one(shorter, label, i);
    } else {
        lemma_count_none(shorter, label);
    }
}

// ---------------------------------------------------------------------------
// Tagging an environment in a message
// ---------------------------------------------------------------------------

/// Whether a character can stand in a name.
pub open spec fn name_char(c: char) -> bool {
    is_alphanumeric(c) || c == '-' || c == '_' || c == '.' || c == '/'
}

/// Where the run of name characters from `i` on ends.
pub open spec fn name_end(content: Seq<char>, i: int) -> int
    decreases content.len() - i,
{
    if 0 <= i < content.len() && name_char(content[i]) {
        name_end(content, i + 1)
    } else {
        i
    }
}

/// The name that an `@` at `i` mentions, without the full stops that end a
/// sentence. An `@` right after a name character mentions nothing: that is an
/// address, or a handle inside a word.
pub open spec fn mention_at(content: Seq<char>, i: int) -> Option<Seq<char>> {
    if content[i] != '@' || (i > 0 && name_char(content[i - 1])) {
        None
    } else {
        let name = without_trailing(content.subrange(i + 1, name_end(content, i + 1)), '.');
        if name.len() > 0 {
            Some(name)
        } else {
            None
        }
    }
}

/// The names mentioned in the first `n` characters' `@`s, each once, in the
/// order they first appear.
pub open spec fn mentioned(content: Seq<char>, n: int) -> Seq<Seq<char>>
    decreases n,
{
    if n <= 0 {
        Seq::empty()
    } else {
        let before = mentioned(content, n - 1);
        match mention_at(content, n - 1) {
            Some(name) => if before.contains(name) {
                before
            } else {
                before.push(name)
            },
            None => before,
        }
    }
}

pub fn is_name_char(character: char) -> (r: bool)
    ensures
        r == name_char(character),
{
    alphanumeric(character) || character == '-' || character == '_' || character == '.'
        || character == '/'
}

proof fn lemma_name_end(content: Seq<char>, i: int)
    requires
        0 <= i <= content.len(),
    ensures
        i <= name_end(content, i) <= content.len(),
        forall|k: int| i <= k < name_end(content, i) ==> name_char(#[trigger] content[k]),
    decreases content.len() - i,
{
    if i < content.len() && name_char(content[i]) {
        lemma_name_end(content, i + 1);
    }
}

/// Pulls `@name` mentions out of a message, in the order they appear and
/// without repeats.
///
/// A mention that resolves to nothing stays ordinary text: an unresolvable one
/// is either prose or a typo, and refusing to send the message over it would
/// be answering prose with an error.
pub fn mentions(content: &str) -> (r: Vec<String>)
    ensures
        texts(r@) == mentioned(content@, content@.len() as int),
{
    let characters = chars_of(content);
    let mut found: Vec<String> = Vec::new();
    let mut index: usize = 0;
    assert(texts(found@) =~= Seq::empty());
    while index < characters.len()
        invariant
            index <= characters@.len(),
            characters@ == content@,
            texts(found@) == mentioned(content@, index as int),
        decreases characters@.len() - index,
    {
        if characters[index] == '@' && !(index > 0 && is_name_char(characters[index - 1])) {
            let mut end: usize = index + 1;
            while end < characters.len() && is_name_char(characters[end])
                invariant
                    index < end <= characters@.len(),
                    characters@ == content@,
                    name_end(content@, index + 1) == name_end(content@, end as int),
                decreases characters@.len() - end,
            {
                end += 1;
            }
            let ghost run = content@.subrange(index + 1, end as int);
            let mut stop: usize = end;
            assert(content@.subrange(index + 1, stop as int) =~= run);
            while stop > index + 1 && characters[stop - 1] == '.'
                invariant
                    index < stop <= end <= characters@.len(),
                    characters@ == content@,
                    without_trailing(run, '.') == without_trailing(
                        content@.subrange(index + 1, stop as int),
                        '.',
                    ),
                decreases stop,
            {
                assert(content@.subrange(index + 1, stop as int).drop_last() =~= content@.subrange(
                    index + 1,
                    stop - 1,
                ));
                stop -= 1;
            }
            let name = string_of(characters.as_slice(), index + 1, stop);
            if stop > index + 1 && !lists(&found, name.as_str()) {
                let ghost before = texts(found@);
                found.push(name);
                assert(texts(found@) =~= before.push(name@));
            }
        }
        index += 1;
    }
    found
}

/// Every mention is a nonempty name of name characters that does not end in a
/// full stop, and no name is mentioned twice.
pub proof fn mentions_are_distinct_names(content: Seq<char>, n: int)
    requires
        0 <= n <= content.len(),
    ensures
        mentioned(content, n).no_duplicates(),
        forall|k: int|
            #![trigger mentioned(content, n)[k]]
            0 <= k < mentioned(content, n).len() ==> {
                let name = mentioned(content, n)[k];
                &&& name.len() > 0
                &&& name.last() != '.'
                &&& forall|m: int| 0 <= m < name.len() ==> name_char(#[trigger] name[m])
            },
    decreases n,
{
    if n > 0 {
        mentions_are_distinct_names(content, n - 1);
        let before = mentioned(content, n - 1);
        if let Some(name) = mention_at(content, n - 1) {
            let end = name_end(content, n);
            lemma_name_end(content, n);
            let run = content.subrange(n, end);
            assert forall|m: int| 0 <= m < run.len() implies name_char(#[trigger] run[m]) by {
                assert(name_char(content[n + m]));
            }
            lemma_without_trailing(run, '.');
            assert forall|m: int| 0 <= m < name.len() implies name_char(#[trigger] name[m]) by {
                assert(name[m] == run[m]);
            }
            if !before.contains(name) {
                let now = before.push(name);
                assert(mentioned(content, n) == now);
                assert forall|k: int|
                    #![trigger now[k]]
                    0 <= k < now.len() implies now[k].len() > 0 && now[k].last() != '.' && (
                forall|m: int| 0 <= m < now[k].len() ==> name_char(#[trigger] now[k][m])) by {
                    if k < before.len() {
                        assert(now[k] == before[k]);
                    }
                }
            }
        }
    }
}

proof fn lemma_without_trailing(s: Seq<char>, c: char)
    ensures
        without_trailing(s, c).len() <= s.len(),
        without_trailing(s, c) == s.take(without_trailing(s, c).len() as int),
        without_trailing(s, c).len() > 0 ==> without_trailing(s, c).last() != c,
    decreases s.len(),
{
    if s.len() > 0 && s.last() == c {
        lemma_without_trailing(s.drop_last(), c);
        let n = without_trailing(s.drop_last(), c).len() as int;
        assert(s.drop_last().take(n) =~= s.take(n));
    } else {
        assert(s =~= s.take(s.len() as int));
    }
}

/// Text in which every `@` stands inside a word, as in an address, mentions
/// nothing.
pub proof fn an_address_is_not_a_mention(content: Seq<char>, n: int)
    requires
        0 <= n <= content.len(),
        forall|i: int|
            0 <= i < content.len() && #[trigger] content[i] == '@' ==> i > 0 && name_char(
                content[i - 1],
            ),
    ensures
        mentioned(content, n).len() == 0,
    decreases n,
{
    if n > 0 {
        an_address_is_not_a_mention(content, n - 1);
        assert(mention_at(content, n - 1) is None);
    }
}

/// A run of name characters ends where something else follows.
proof fn lemma_name_end_before(a: Seq<char>, rest: Seq<char>, i: int)
    requires
        0 <= i <= a.len(),
        rest.len() > 0,
        !name_char(rest[0]),
    ensures
        name_end(a + rest, i) == name_end(a, i),
    decreases a.len() - i,
{
    if i < a.len() {
        assert((a + rest)[i] == a[i]);
        if name_char(a[i]) {
            lemma_name_end_before(a, rest, i + 1);
        }
    } else {
        assert((a + rest)[i] == rest[0]);
    }
}

proof fn lemma_name_end_behind(before: Seq<char>, b: Seq<char>, i: int)
    requires
        0 <= i <= b.len(),
    ensures
        name_end(before + b, before.len() + i) == before.len() + name_end(b, i),
    decreases b.len() - i,
{
    if i < b.len() {
        assert((before + b)[before.len() + i] == b[i]);
        if name_char(b[i]) {
            lemma_name_end_behind(before, b, i + 1);
        }
    }
}

/// What the first of two texts mentions, it mentions with the second behind a
/// space, too.
proof fn lemma_mentioned_before(a: Seq<char>, rest: Seq<char>, n: int)
    requires
        0 <= n <= a.len(),
        rest.len() > 0,
        !name_char(rest[0]),
    ensures
        mentioned(a + rest, n) == mentioned(a, n),
    decreases n,
{
    if n > 0 {
        lemma_mentioned_before(a, rest, n - 1);
        lemma_name_end_before(a, rest, n);
        lemma_name_end(a, n);
        let whole = a + rest;
        let end = name_end(a, n);
        assert(whole.subrange(n, end) =~= a.subrange(n, end));
        assert(whole[n - 1] == a[n - 1]);
        if n > 1 {
            assert(whole[n - 2] == a[n - 2]);
        }
        assert(mention_at(whole, n - 1) == mention_at(a, n - 1));
    }
}

proof fn lemma_mention_behind(before: Seq<char>, b: Seq<char>, i: int)
    requires
        0 <= i < b.len(),
        before.len() > 0,
        !name_char(before.last()),
    ensures
        mention_at(before + b, before.len() + i) == mention_at(b, i),
{
    let whole = before + b;
    let n = before.len() as int;
    lemma_name_end_behind(before, b, i + 1);
    lemma_name_end(b, i + 1);
    let end = name_end(b, i + 1);
    assert(whole.subrange(n + i + 1, n + end) =~= b.subrange(i + 1, end));
    assert(whole[n + i] == b[i]);
    if i > 0 {
        assert(whole[n + i - 1] == b[i - 1]);
    } else {
        assert(whole[n - 1] == before.last());
    }
}

proof fn lemma_filter_contains(list: Seq<Seq<char>>, kept: spec_fn(Seq<char>) -> bool, item: Seq<char>)
    ensures
        list.filter(kept).contains(item) == (list.contains(item) && kept(item)),
    decreases list.len(),
{
    reveal(Seq::filter);
    if list.len() > 0 {
        let shorter = list.drop_last();
        let last = list.last();
        lemma_filter_contains(shorter, kept, item);
        assert(list =~= shorter.push(last));
        assert(list.contains(item) == (shorter.contains(item) || item == last)) by {
            if shorter.contains(item) {
                let k = choose|k: int| 0 <= k < shorter.len() && shorter[k] == item;
                assert(list[k] == item);
            }
            if item == last {
                assert(list[list.len() - 1] == item);
            }
        }
        if kept(last) {
            let before = shorter.filter(kept);
            let now = before.push(last);
            assert(now.contains(item) == (before.contains(item) || item == last)) by {
                if before.contains(item) {
                    let k = choose|k: int| 0 <= k < before.len() && before[k] == item;
                    assert(now[k] == item);
                }
                if item == last {
                    assert(now[before.len() as int] == item);
                }
            }
        }
    }
}

/// The names among `more` that are not in `known`, in their order.
pub open spec fn unknown_among(known: Seq<Seq<char>>, more: Seq<Seq<char>>) -> Seq<Seq<char>> {
    more.filter(|name: Seq<char>| !known.contains(name))
}

proof fn lemma_mentioned_behind(before: Seq<char>, b: Seq<char>, n: int)
    requires
        0 <= n <= b.len(),
        before.len() > 0,
        !name_char(before.last()),
    ensures
        ({
            let known = mentioned(before + b, before.len() as int);
            mentioned(before + b, before.len() + n) == known + unknown_among(
                known,
                mentioned(b, n),
            )
        }),
    decreases n,
{
    let whole = before + b;
    let start = before.len() as int;
    let known = mentioned(whole, start);
    let fresh = |name: Seq<char>| !known.contains(name);
    reveal(Seq::filter);
    if n == 0 {
        assert(known + unknown_among(known, mentioned(b, 0)) =~= known);
    } else {
        lemma_mentioned_behind(before, b, n - 1);
        lemma_mention_behind(before, b, n - 1);
        let theirs = mentioned(b, n - 1);
        let told = known + theirs.filter(fresh);
        assert(mentioned(whole, start + n - 1) == told);
        if let Some(name) = mention_at(b, n - 1) {
            lemma_filter_contains(theirs, fresh, name);
            assert(told.contains(name) == (known.contains(name) || theirs.contains(name))) by {
                if known.contains(name) {
                    let k = choose|k: int| 0 <= k < known.len() && known[k] == name;
                    assert(told[k] == name);
                }
                if theirs.filter(fresh).contains(name) {
                    let k = choose|k: int|
                        0 <= k < theirs.filter(fresh).len() && theirs.filter(fresh)[k] == name;
                    assert(told[known.len() + k] == name);
                }
                if told.contains(name) {
                    let k = choose|k: int| 0 <= k < told.len() && told[k] == name;
                    if k < known.len() {
                        assert(known[k] == name);
                    } else {
                        assert(theirs.filter(fresh)[k - known.len()] == name);
                    }
                }
            }
            let now = mentioned(b, n);
            if !theirs.contains(name) {
                assert(now.drop_last() =~= theirs);
                assert(now.last() == name);
                if known.contains(name) {
                    assert(now.filter(fresh) == theirs.filter(fresh));
                } else {
                    assert(now.filter(fresh) == theirs.filter(fresh).push(name));
                    assert(told.push(name) =~= known + now.filter(fresh));
                }
            }
        }
    }
}

/// Two texts with a space between them mention what the first one mentions, and
/// then what only the second one does, each in its order.
pub proof fn mentions_of_joined_texts(a: Seq<char>, b: Seq<char>)
    ensures
        ({
            let whole = a + " "@ + b;
            let first = mentioned(a, a.len() as int);
            mentioned(whole, whole.len() as int) == first + unknown_among(
                first,
                mentioned(b, b.len() as int),
            )
        }),
{
    reveal_strlit(" ");
    let space = " "@;
    let rest = space + b;
    let before = a + space;
    let whole = before + b;
    let n = a.len() as int;
    assert(whole =~= a + rest);
    assert(rest[0] == ' ');
    assert(before.last() == ' ');
    assert(!name_char(' '));
    lemma_mentioned_before(a, rest, n);
    assert(whole[n] == ' ');
    assert(mention_at(whole, n) is None);
    assert(mentioned(whole, n + 1) == mentioned(a, n));
    lemma_mentioned_behind(before, b, b.len() as int);
}

/// Saying the same again mentions nothing more.
pub proof fn a_repeated_text_mentions_nothing_new(a: Seq<char>)
    ensures
        ({
            let whole = a + " "@ + a;
            mentioned(whole, whole.len() as int) == mentioned(a, a.len() as int)
        }),
{
    mentions_of_joined_texts(a, a);
    let first = mentioned(a, a.len() as int);
    let fresh = |name: Seq<char>| !first.contains(name);
    let more = unknown_among(first, first);
    if more.len() > 0 {
        lemma_filter_contains(first, fresh, more[0]);
        assert(more.contains(more[0]));
    }
    assert(first + more =~= first);
}

/// One environment a session is given, under the label the user tagged it by.
#[derive(Debug)]
pub struct NewSessionEnvironment {
    pub session_id: u128,
    pub label: String,
    pub host_id: u128,
    pub container_id: Option<u128>,
    pub added_at: i64,
}

/// What a [`NewSessionEnvironment`] says.
pub struct TagModel {
    pub session_id: u128,
    pub label: Seq<char>,
    pub host_id: u128,
    pub container_id: Option<u128>,
    pub added_at: i64,
}

impl View for NewSessionEnvironment {
    type V = TagModel;

    open spec fn view(&self) -> TagModel {
        TagModel {
            session_id: self.session_id,
            label: self.label@,
            host_id: self.host_id,
            container_id: self.container_id,
            added_at: self.added_at,
        }
    }
}

/// The models of a list of tags.
pub open spec fn tag_models(tags: Seq<NewSessionEnvironment>) -> Seq<TagModel> {
    Seq::new(tags.len(), |i: int| tags[i]@)
}

/// Where the candidate that goes by `label` stands, or the list's length.
pub open spec fn candidate_at(available: Seq<CandidateModel>, label: Seq<char>) -> int
    decreases available.len(),
{
    if available.len() == 0 {
        0
    } else if available[0].label == label {
        0
    } else {
        1 + candidate_at(available.drop_first(), label)
    }
}

/// The rows that the tagged labels ask for: those that are not claimed already
/// and that name something.
pub open spec fn tags_for(
    tagged: Seq<Seq<char>>,
    existing: Seq<Seq<char>>,
    available: Seq<CandidateModel>,
    session_id: u128,
    now: i64,
) -> Seq<TagModel>
    decreases tagged.len(),
{
    if tagged.len() == 0 {
        Seq::empty()
    } else {
        let before = tags_for(tagged.drop_last(), existing, available, session_id, now);
        let label = tagged.last();
        let at = candidate_at(available, label);
        if existing.contains(label) || at >= available.len() {
            before
        } else {
            before.push(
                TagModel {
                    session_id,
                    label: available[at].label,
                    host_id: available[at].host_id,
                    container_id: available[at].container_id,
                    added_at: now,
                },
            )
        }
    }
}

fn find_candidate(available: &Vec<Candidate>, label: &str) -> (r: usize)
    ensures
        r == candidate_at(candidate_models(available@), label@),
        r <= available@.len(),
{
    let ghost all = candidate_models(available@);
    let mut i: usize = 0;
    assert(all.skip(0) =~= all);
    while i < available.len()
        invariant
            i <= available@.len(),
            all == candidate_models(available@),
            candidate_at(all, label@) == i + candidate_at(all.skip(i as int), label@),
        decreases available@.len() - i,
    {
        if same(available[i].label.as_str(), label) {
            return i;
        }
        assert(all.skip(i as int).drop_first() =~= all.skip(i + 1));
        i += 1;
    }
    i
}

/// The environments a message adds to a session that does not have them yet,
/// in the order they were tagged.
///
/// Tagging an environment that is already bound changes nothing and announces
/// nothing, because it is already true. A label that was bound and then
/// removed stays claimed: a transcript recording `label:path` cannot survive a
/// label meaning a second machine.
pub fn tag_environments(
    content: &str,
    existing: &Vec<String>,
    available: &Vec<Candidate>,
    session_id: u128,
    now: i64,
) -> (r: Vec<NewSessionEnvironment>)
    ensures
        tag_models(r@) == tags_for(
            mentioned(content@, content@.len() as int),
            texts(existing@),
            candidate_models(available@),
            session_id,
            now,
        ),
{
    let tagged = mentions(content);
    let ghost labels = texts(tagged@);
    let ghost all = candidate_models(available@);
    let mut added: Vec<NewSessionEnvironment> = Vec::new();
    let mut i: usize = 0;
    assert(tag_models(added@) =~= tags_for(labels.take(0), texts(existing@), all, session_id, now));
    while i < tagged.len()
        invariant
            i <= tagged@.len(),
            labels == texts(tagged@),
            all == candidate_models(available@),
            tag_models(added@) == tags_for(
                labels.take(i as int),
                texts(existing@),
                all,
                session_id,
                now,
            ),
        decreases tagged@.len() - i,
    {
        assert(labels.take(i + 1).drop_last() =~= labels.take(i as int));
        let label = tagged[i].as_str();
        if !lists(existing, label) {
            let at: usize = find_candidate(available, label);
            if at < available.len() {
                let candidate = &available[at];
                let ghost before = tag_models(added@);
                let tag = NewSessionEnvironment {
                    session_id,
                    label: candidate.label.clone(),
                    host_id: candidate.host_id,
                    container_id: candidate.container_id,
                    added_at: now,
                };
                added.push(tag);
                assert(tag_models(added@) =~= before.push(tag@));
            }
        }
        i += 1;
    }
    assert(labels.take(i as int) =~= labels);
    added
}

/// Tagging a second time, once the session has every label that the first time
/// asked for, asks for nothing.
pub proof fn tagging_is_idempotent(
    tagged: Seq<Seq<char>>,
    existing: Seq<Seq<char>>,
    now_existing: Seq<Seq<char>>,
    available: Seq<CandidateModel>,
    session_id: u128,
    first: i64,
    second: i64,
)
    requires
        forall|label: Seq<char>| #[trigger]
            existing.contains(label) ==> now_existing.contains(label),
        forall|i: int|
            0 <= i < tags_for(tagged, existing, available, session_id, first).len()
                ==> now_existing.contains(
                (#[trigger] tags_for(tagged, existing, available, session_id, first)[i]).label,
            ),
    ensures
        tags_for(tagged, now_existing, available, session_id, second).len() == 0,
    decreases tagged.len(),
{
    if tagged.len() > 0 {
        let shorter = tags_for(tagged.drop_last(), existing, available, session_id, first);
        let whole = tags_for(tagged, existing, available, session_id, first);
        assert forall|i: int| 0 <= i < shorter.len() implies now_existing.contains(
            (#[trigger] shorter[i]).label,
        ) by {
            assert(whole[i] == shorter[i]);
        }
        tagging_is_idempotent(
            tagged.drop_last(),
            existing,
            now_existing,
            available,
            session_id,
            first,
            second,
        );
        lemma_candidate_at(available, tagged.last());
        let at = candidate_at(available, tagged.last());
        if !existing.contains(tagged.last()) && at < available.len() {
            assert(whole[whole.len() - 1].label == available[at].label);
        }
    }
}

/// A label that a session has, or ever had, is never given a second machine.
pub proof fn a_claimed_label_stays_claimed(
    tagged: Seq<Seq<char>>,
    existing: Seq<Seq<char>>,
    available: Seq<CandidateModel>,
    session_id: u128,
    now: i64,
    i: int,
)
    requires
        0 <= i < tags_for(tagged, existing, available, session_id, now).len(),
    ensures
        !existing.contains(tags_for(tagged, existing, available, session_id, now)[i].label),
    decreases tagged.len(),
{
    if tagged.len() > 0 {
        let before = tags_for(tagged.drop_last(), existing, available, session_id, now);
        lemma_candidate_at(available, tagged.last());
        if i < before.len() {
            a_claimed_label_stays_claimed(
                tagged.drop_last(),
                existing,
                available,
                session_id,
                now,
                i,
            );
        }
    }
}

proof fn lemma_candidate_at(available: Seq<CandidateModel>, label: Seq<char>)
    ensures
        0 <= candidate_at(available, label) <= available.len(),
        candidate_at(available, label) < available.len() ==> available[candidate_at(
            available,
            label,
        )].label == label,
    decreases available.len(),
{
    if available.len() > 0 && available[0].label != label {
        lemma_candidate_at(available.drop_first(), label);
    }
}

/// The labels that were newly added: those of the rows whose insert took.
pub open spec fn taken(tags: Seq<TagModel>, inserted: Seq<u64>) -> Seq<Seq<char>>
    decreases tags.len(),
{
    if tags.len() == 0 {
        Seq::empty()
    } else {
        let before = taken(tags.drop_last(), inserted.drop_last());
        if inserted.last() > 0 {
            before.push(tags.last().label)
        } else {
            before
        }
    }
}

/// The labels that were newly added. `inserted` counts, row for row, what the
/// insert of a tag wrote: a label that stayed claimed conflicts and is left
/// alone.
pub fn added_labels(tags: &Vec<NewSessionEnvironment>, inserted: &Vec<u64>) -> (r: Vec<String>)
    requires
        tags@.len() == inserted@.len(),
    ensures
        texts(r@) == taken(tag_models(tags@), inserted@),
{
    let ghost all = tag_models(tags@);
    let mut added: Vec<String> = Vec::new();
    let mut i: usize = 0;
    assert(texts(added@) =~= taken(all.take(0), inserted@.take(0)));
    while i < tags.len()
        invariant
            i <= tags@.len() == inserted@.len(),
            all == tag_models(tags@),
            texts(added@) == taken(all.take(i as int), inserted@.take(i as int)),
        decreases tags@.len() - i,
    {
        assert(all.take(i + 1).drop_last() =~= all.take(i as int));
        assert(inserted@.take(i + 1).drop_last() =~= inserted@.take(i as int));
        if inserted[i] > 0 {
            let ghost before = texts(added@);
            added.push(tags[i].label.clone());
            assert(texts(added@) =~= before.push(all[i as int].label));
        }
        i += 1;
    }
    assert(all.take(i as int) =~= all);
    assert(inserted@.take(i as int) =~= inserted@);
    added
}

/// Labels in quotes, with commas between them.
pub open spec fn quoted_list(labels: Seq<Seq<char>>) -> Seq<char>
    decreases labels.len(),
{
    if labels.len() == 0 {
        Seq::empty()
    } else if labels.len() == 1 {
        "'"@ + labels[0] + "'"@
    } else {
        quoted_list(labels.drop_last()) + ", "@ + ("'"@ + labels.last() + "'"@)
    }
}

/// What the model is told when environments are added.
pub open spec fn announcement_text(labels: Seq<Seq<char>>) -> Seq<char> {
    "<environments>User added "@ + quoted_list(labels) + " "@ + if labels.len() == 1 {
        "environment"@
    } else {
        "environments"@
    } + "</environments>"@
}

/// What the model is told when environments are added mid-conversation: a
/// message at the end, which costs nothing cached and says what actually
/// happened, in order.
///
/// **A user turn, though it is not the user speaking.** A system turn that is
/// not the leading run stays inline, where a provider accepts `user` and
/// `assistant` and refuses everything else. The tags mark it as not the user's
/// prose; the role is what the wire can carry.
pub fn announcement(added: &[String]) -> (r: Option<Message>)
    ensures
        match r {
            None => added@.len() == 0,
            Some(message) => added@.len() > 0 && message@ == text_message(
                Role::User,
                announcement_text(texts(added@)),
            ),
        },
{
    if added.len() == 0 {
        return None;
    }
    let ghost labels = texts(added@);
    let mut names = join3("'", added[0].as_str(), "'");
    let mut i: usize = 1;
    assert(labels.take(1)[0] == labels[0]);
    while i < added.len()
        invariant
            1 <= i <= added@.len(),
            labels == texts(added@),
            names@ == quoted_list(labels.take(i as int)),
        decreases added@.len() - i,
    {
        assert(labels.take(i + 1).drop_last() =~= labels.take(i as int));
        let quoted = join3("'", added[i].as_str(), "'");
        names = join3(names.as_str(), ", ", quoted.as_str());
        i += 1;
    }
    assert(labels.take(i as int) =~= labels);
    let noun = if added.len() == 1 {
        "environment"
    } else {
        "environments"
    };
    let text = join5("<environments>User added ", names.as_str(), " ", noun, "</environments>");
    Some(Message::of_text(Role::User, text))
}

/// What an announcement opens with.
pub const ANNOUNCEMENT_TAG: &'static str = "<environments>";

/// Whether a message is an announcement: its tags tell it from anything else
/// that the session notes down.
pub open spec fn announces(message: MessageModel) -> bool {
    ANNOUNCEMENT_TAG@.is_prefix_of(joined(texts_in(message.content)))
}

/// Whether a message is an announcement.
pub fn is_announcement(message: &Message) -> (r: bool)
    ensures
        r == announces(message@),
{
    starts_with(message.text().as_str(), ANNOUNCEMENT_TAG)
}

/// What a message of one text block says is that text.
pub(crate) proof fn lemma_one_text(role: Role, text: Seq<char>)
    ensures
        joined(texts_in(text_message(role, text).content)) == text,
{
    reveal_with_fuel(texts_in, 2);
    reveal_with_fuel(joined, 2);
    let content = text_message(role, text).content;
    assert(content.drop_last() =~= Seq::empty());
    assert(texts_in(content) =~= seq![text]);
    assert(seq![text].drop_last() =~= Seq::empty());
    assert(Seq::<char>::empty() + text =~= text);
}

/// What the session says of environments that were added is recognized as an
/// announcement.
pub proof fn an_announcement_is_recognized(labels: Seq<Seq<char>>)
    ensures
        announces(text_message(Role::User, announcement_text(labels))),
{
    let text = announcement_text(labels);
    lemma_one_text(Role::User, text);
    reveal_strlit("<environments>");
    reveal_strlit("<environments>User added ");
    assert(text.subrange(0, "<environments>"@.len() as int) =~= "<environments>"@);
}

// ---------------------------------------------------------------------------
// Binding a session's environments for a run
// ---------------------------------------------------------------------------

/// The labels a run can address.
#[derive(Debug)]
pub struct Registry {
    pub labels: Vec<String>,
}

/// What a run got, and what it did not.
#[derive(Debug)]
pub struct Bound {
    pub registry: Registry,
    /// Labels that are bound to the session but could not be reached this run,
    /// with why. Reported rather than swallowed: one unreachable machine is
    /// not a reason to fail a conversation, and a silently missing target is a
    /// model wondering why its own environment does not exist.
    pub unreachable: Vec<(String, String)>,
}

/// The labels of the attempts that succeeded, in order.
pub open spec fn reached(attempts: Seq<(String, Result<(), String>)>) -> Seq<Seq<char>>
    decreases attempts.len(),
{
    if attempts.len() == 0 {
        Seq::empty()
    } else {
        let before = reached(attempts.drop_last());
        match attempts.last().1 {
            Ok(_) => before.push(attempts.last().0@),
            Err(_) => before,
        }
    }
}

/// The labels of the attempts that failed, with why, in order.
pub open spec fn missed(attempts: Seq<(String, Result<(), String>)>) -> Seq<(Seq<char>, Seq<char>)>
    decreases attempts.len(),
{
    if attempts.len() == 0 {
        Seq::empty()
    } else {
        let before = missed(attempts.drop_last());
        match attempts.last().1 {
            Ok(_) => before,
            Err(reason) => before.push((attempts.last().0@, reason@)),
        }
    }
}

/// Sorts what became of each of the session's live bindings.
pub fn bind_session(attempts: Vec<(String, Result<(), String>)>) -> (r: Bound)
    ensures
        texts(r.registry.labels@) == reached(attempts@),
        pairs(r.unreachable@) == missed(attempts@),
{
    let mut labels: Vec<String> = Vec::new();
    let mut unreachable: Vec<(String, String)> = Vec::new();
    let mut i: usize = 0;
    assert(texts(labels@) =~= reached(attempts@.take(0)));
    assert(pairs(unreachable@) =~= missed(attempts@.take(0)));
    while i < attempts.len()
        invariant
            i <= attempts@.len(),
            texts(labels@) == reached(attempts@.take(i as int)),
            pairs(unreachable@) == missed(attempts@.take(i as int)),
        decreases attempts@.len() - i,
    {
        assert(attempts@.take(i + 1).drop_last() =~= attempts@.take(i as int));
        let ghost got = texts(labels@);
        let ghost lost = pairs(unreachable@);
        match &attempts[i].1 {
            Ok(_) => {
                labels.push(attempts[i].0.clone());
                assert(texts(labels@) =~= got.push(attempts@[i as int].0@));
            },
            Err(reason) => {
                unreachable.push((attempts[i].0.clone(), reason.clone()));
                assert(pairs(unreachable@) =~= lost.push((attempts@[i as int].0@, reason@)));
            },
        }
        i += 1;
    }
    assert(attempts@.take(i as int) =~= attempts@);
    Bound { registry: Registry { labels }, unreachable }
}

/// Every binding a session has is either reached or reported, never dropped.
pub proof fn no_binding_is_swallowed(attempts: Seq<(String, Result<(), String>)>)
    ensures
        reached(attempts).len() + missed(attempts).len() == attempts.len(),
    decreases attempts.len(),
{
    if attempts.len() > 0 {
        no_binding_is_swallowed(attempts.drop_last());
    }
}

proof fn lemma_reached(attempts: Seq<(String, Result<(), String>)>, label: Seq<char>)
    ensures
        reached(attempts).contains(label) == exists|i: int|
            0 <= i < attempts.len() && (#[trigger] attempts[i]).1 is Ok && attempts[i].0@ == label,
    decreases attempts.len(),
{
    if attempts.len() > 0 {
        let shorter = attempts.drop_last();
        let last = attempts.last();
        lemma_reached(shorter, label);
        let before = reached(shorter);
        let now = reached(attempts);
        if before.contains(label) {
            let k = choose|k: int| 0 <= k < before.len() && before[k] == label;
            assert(now[k] == label);
            let i = choose|i: int|
                0 <= i < shorter.len() && (#[trigger] shorter[i]).1 is Ok && shorter[i].0@ == label;
            assert(attempts[i].1 is Ok);
        }
        if last.1 is Ok && last.0@ == label {
            assert(now[before.len() as int] == label);
            assert(attempts[attempts.len() - 1].1 is Ok);
        }
        if exists|i: int|
            0 <= i < attempts.len() && (#[trigger] attempts[i]).1 is Ok && attempts[i].0@
                == label {
            let i = choose|i: int|
                0 <= i < attempts.len() && (#[trigger] attempts[i]).1 is Ok && attempts[i].0@
                    == label;
            if i < shorter.len() {
                assert(shorter[i].1 is Ok);
            }
        }
        if now.contains(label) && !before.contains(label) {
            let k = choose|k: int| 0 <= k < now.len() && now[k] == label;
            if k < before.len() {
                assert(before[k] == label);
            }
        }
    }
}

proof fn lemma_missed(
    attempts: Seq<(String, Result<(), String>)>,
    label: Seq<char>,
    reason: Seq<char>,
)
    ensures
        missed(attempts).contains((label, reason)) == exists|i: int|
            0 <= i < attempts.len() && (#[trigger] attempts[i]).1 is Err && attempts[i].0@ == label
                && attempts[i].1->Err_0@ == reason,
    decreases attempts.len(),
{
    if attempts.len() > 0 {
        let shorter = attempts.drop_last();
        let last = attempts.last();
        lemma_missed(shorter, label, reason);
        let before = missed(shorter);
        let now = missed(attempts);
        let item = (label, reason);
        if before.contains(item) {
            let k = choose|k: int| 0 <= k < before.len() && before[k] == item;
            assert(now[k] == item);
            let i = choose|i: int|
                0 <= i < shorter.len() && (#[trigger] shorter[i]).1 is Err && shorter[i].0@ == label
                    && shorter[i].1->Err_0@ == reason;
            assert(attempts[i].1 is Err);
        }
        if last.1 is Err && last.0@ == label && last.1->Err_0@ == reason {
            assert(now[before.len() as int] == item);
            assert(attempts[attempts.len() - 1].1 is Err);
        }
        if exists|i: int|
            0 <= i < attempts.len() && (#[trigger] attempts[i]).1 is Err && attempts[i].0@ == label
                && attempts[i].1->Err_0@ == reason {
            let i = choose|i: int|
                0 <= i < attempts.len() && (#[trigger] attempts[i]).1 is Err && attempts[i].0@
                    == label && attempts[i].1->Err_0@ == reason;
            if i < shorter.len() {
                assert(shorter[i].1 is Err);
            }
        }
        if now.contains(item) && !before.contains(item) {
            let k = choose|k: int| 0 <= k < now.len() && now[k] == item;
            if k < before.len() {
                assert(before[k] == item);
            }
        }
    }
}

/// By label: a binding that was made is one the run can address, and one that
/// was not is reported with why. Where no label is bound twice, none is both.
pub proof fn a_binding_is_reached_or_reported(
    attempts: Seq<(String, Result<(), String>)>,
    i: int,
)
    requires
        0 <= i < attempts.len(),
    ensures
        match attempts[i].1 {
            Ok(_) => reached(attempts).contains(attempts[i].0@),
            Err(reason) => missed(attempts).contains((attempts[i].0@, reason@)),
        },
        (forall|j: int, k: int|
            0 <= j < k < attempts.len() ==> (#[trigger] attempts[j]).0@ != (
            #[trigger] attempts[k]).0@) ==> match attempts[i].1 {
            Ok(_) => forall|reason: Seq<char>|
                !(#[trigger] missed(attempts).contains((attempts[i].0@, reason))),
            Err(_) => !reached(attempts).contains(attempts[i].0@),
        },
{
    let label = attempts[i].0@;
    lemma_reached(attempts, label);
    if let Err(reason) = attempts[i].1 {
        lemma_missed(attempts, label, reason@);
    }
    if forall|j: int, k: int|
        0 <= j < k < attempts.len() ==> (#[trigger] attempts[j]).0@ != (#[trigger] attempts[k]).0@ {
        if attempts[i].1 is Ok {
            assert forall|reason: Seq<char>|
                !(#[trigger] missed(attempts).contains((label, reason))) by {
                lemma_missed(attempts, label, reason);
                if missed(attempts).contains((label, reason)) {
                    let j = choose|j: int|
                        0 <= j < attempts.len() && (#[trigger] attempts[j]).1 is Err
                            && attempts[j].0@ == label && attempts[j].1->Err_0@ == reason;
                    if j < i {
                        assert(attempts[j].0@ != attempts[i].0@);
                    } else if i < j {
                        assert(attempts[i].0@ != attempts[j].0@);
                    }
                }
            }
        } else if reached(attempts).contains(label) {
            let j = choose|j: int|
                0 <= j < attempts.len() && (#[trigger] attempts[j]).1 is Ok && attempts[j].0@
                    == label;
            if j < i {
                assert(attempts[j].0@ != attempts[i].0@);
            } else if i < j {
                assert(attempts[i].0@ != attempts[j].0@);
            }
        }
    }
}

/// How a binding is made once its rows are read.
#[derive(Debug)]
pub enum BindPlan {
    /// In a container, through its host's daemon. Its root is opened with
    /// [`root_at`] once the daemon is reached.
    Container { route: DaemonRoute, container_ref: String, root_path: String },
    /// On the machine itself, over a session faber dials.
    Ssh { root: Root },
    /// On the machine itself, over the session its daemon dialed.
    Agent { root: Root },
    /// On this machine.
    Local { root: Root },
}

/// What the rows of a binding are.
pub enum BindRows {
    /// The host is not the caller's, or is gone.
    NoHost,
    /// The host, and the container where the binding names one: `Some(None)`
    /// is a container that is no longer registered.
    Host { host: Host, container: Option<Option<HostContainer>> },
}

/// The answer to a root that is refused.
pub open spec fn root_refusal(path: Seq<char>) -> Option<ErrorModel> {
    match root_denial(path) {
        Some(denial) => Some(fault_answer(FaultModel::Denied(denial))),
        None => None,
    }
}

/// Why a binding is not made.
pub open spec fn bind_refusal(rows: BindRows) -> Option<ErrorModel> {
    match rows {
        BindRows::NoHost => Some(ErrorModel::NotFound),
        BindRows::Host { host, container } => if host.disabled_at is Some {
            Some(ErrorModel::BadRequest("this host is disabled"@))
        } else {
            match container {
                Some(None) => Some(
                    ErrorModel::BadRequest("this environment's container is no longer registered"@),
                ),
                Some(Some(_)) => daemon_refusal(host),
                None => match host.root_path {
                    None => Some(
                        ErrorModel::BadRequest(
                            "this host has no root_path, so it cannot be used directly; set one, or bind a container on it"@,
                        ),
                    ),
                    Some(root_path) => root_refusal(root_path@),
                },
            }
        },
    }
}

/// Opens a stored root.
pub fn root_at(path: &str) -> (r: Result<Root, AppError>)
    ensures
        refusal(r) == root_refusal(path@),
        r matches Ok(root) ==> root.wf() && root@ == path@,
{
    match Root::new(path) {
        Ok(root) => Ok(root),
        Err(denial) => Err(fault(Fault::Denied(denial))),
    }
}

/// How a binding is made. Direct execution needs a root of the host's own:
/// inventing `/` would hand the agent the whole machine because a field was
/// left empty.
pub fn bind_one(rows: BindRows) -> (r: Result<BindPlan, AppError>)
    ensures
        refusal(r) == bind_refusal(rows),
        r matches Ok(plan) ==> {
            let host = rows->host;
            match rows->container {
                Some(row) => {
                    &&& plan matches BindPlan::Container { route, container_ref, root_path }
                    &&& container_ref@ == row->0.container_ref@
                    &&& root_path@ == row->0.root_path@
                    &&& match route {
                        DaemonRoute::Ssh => host.reached_by(Transport::Ssh),
                        DaemonRoute::Agent => host.reached_by(Transport::Agent)
                            && !host.reached_by(Transport::Ssh),
                        DaemonRoute::Local { endpoint } => !host.reached_by(Transport::Ssh)
                            && !host.reached_by(Transport::Agent) && opt(host.docker_endpoint)
                            == Some(endpoint@),
                    }
                },
                None => if host.reached_by(Transport::Ssh) {
                    plan matches BindPlan::Ssh { root } && root@ == host.root_path->0@ && root.wf()
                } else if host.reached_by(Transport::Agent) {
                    plan matches BindPlan::Agent { root } && root@ == host.root_path->0@
                        && root.wf()
                } else {
                    plan matches BindPlan::Local { root } && root@ == host.root_path->0@
                        && root.wf()
                },
            }
        },
{
    let (host, container) = match rows {
        BindRows::NoHost => {
            return Err(AppError::NotFound);
        },
        BindRows::Host { host, container } => (host, container),
    };
    if host.disabled_at.is_some() {
        return Err(bad_request("this host is disabled"));
    }
    match container {
        Some(None) => Err(bad_request("this environment's container is no longer registered")),
        Some(Some(container)) => {
            let route = match reach_daemon(&host) {
                Ok(route) => route,
                Err(error) => {
                    return Err(error);
                },
            };
            Ok(
                BindPlan::Container {
                    route,
                    container_ref: container.container_ref,
                    root_path: container.root_path,
                },
            )
        },
        None => {
            let root_path = match &host.root_path {
                Some(root_path) => root_path,
                None => {
                    return Err(
                        bad_request(
                            "this host has no root_path, so it cannot be used directly; set one, or bind a container on it",
                        ),
                    );
                },
            };
            let root = match root_at(root_path.as_str()) {
                Ok(root) => root,
                Err(error) => {
                    return Err(error);
                },
            };
            if host.is_by(Transport::Ssh) {
                Ok(BindPlan::Ssh { root })
            } else if host.is_by(Transport::Agent) {
                Ok(BindPlan::Agent { root })
            } else {
                Ok(BindPlan::Local { root })
            }
        },
    }
}

/// A disabled host, and a direct host without a root, are never bound,
/// whatever else their rows say.
pub proof fn some_hosts_are_never_bound(host: Host, container: Option<Option<HostContainer>>)
    requires
        host.disabled_at is Some || (container is None && host.root_path is None),
    ensures
        bind_refusal(BindRows::Host { host, container }) is Some,
{
}

/// Whether a host can be used directly.
pub open spec fn usable(host: Host) -> bool {
    host.root_path is Some && host.exec_mode@ == "direct"@
}

/// Every host that can be used directly is offered once, in its order, under
/// its own name, with its own root, and with whether it is disabled; no other
/// host is.
pub proof fn every_usable_host_is_offered(hosts: Seq<Host>, host: Host)
    ensures
        direct_candidates(Seq::empty()).len() == 0,
        usable(host) ==> direct_candidates(hosts.push(host)) == direct_candidates(hosts).push(
            CandidateModel {
                label: host.name@,
                kind: "host"@,
                host_id: host.id,
                host_name: host.name@,
                container_id: None,
                root_path: host.root_path->0@,
                disabled: host.disabled_at is Some,
            },
        ),
        !usable(host) ==> direct_candidates(hosts.push(host)) == direct_candidates(hosts),
{
    assert(hosts.push(host).drop_last() =~= hosts);
}

proof fn lemma_host_at(hosts: Seq<Host>, id: u128)
    ensures
        0 <= host_at(hosts, id) <= hosts.len(),
        host_at(hosts, id) < hosts.len() ==> hosts[host_at(hosts, id)].id == id,
        forall|k: int| 0 <= k < host_at(hosts, id) ==> (#[trigger] hosts[k]).id != id,
    decreases hosts.len(),
{
    if hosts.len() > 0 && hosts[0].id != id {
        let rest = hosts.drop_first();
        lemma_host_at(rest, id);
        assert forall|k: int| 0 <= k < host_at(hosts, id) implies (#[trigger] hosts[k]).id
            != id by {
            if k > 0 {
                assert(rest[k - 1] == hosts[k]);
            }
        }
    }
}

/// Every container of a known host is offered once, in its order, under its own
/// name, else under its reference, on the host it is registered on; one whose
/// host is not known is not.
pub proof fn every_container_is_offered_on_its_host(
    hosts: Seq<Host>,
    containers: Seq<HostContainer>,
    container: HostContainer,
    i: int,
)
    requires
        forall|j: int, k: int|
            0 <= j < k < hosts.len() ==> (#[trigger] hosts[j]).id != (#[trigger] hosts[k]).id,
    ensures
        container_candidates(hosts, Seq::empty()).len() == 0,
        0 <= i < hosts.len() && hosts[i].id == container.host_id ==> container_candidates(
            hosts,
            containers.push(container),
        ) == container_candidates(hosts, containers).push(
            CandidateModel {
                label: match container.name {
                    Some(name) => name@,
                    None => container.container_ref@,
                },
                kind: "container"@,
                host_id: container.host_id,
                host_name: hosts[i].name@,
                container_id: Some(container.id),
                root_path: container.root_path@,
                disabled: hosts[i].disabled_at is Some,
            },
        ),
        (forall|k: int| 0 <= k < hosts.len() ==> (#[trigger] hosts[k]).id != container.host_id)
            ==> container_candidates(hosts, containers.push(container)) == container_candidates(
            hosts,
            containers,
        ),
{
    assert(containers.push(container).drop_last() =~= containers);
    lemma_host_at(hosts, container.host_id);
    let at = host_at(hosts, container.host_id);
    if 0 <= i < hosts.len() && hosts[i].id == container.host_id {
        if at < i {
            assert(hosts[at].id != hosts[i].id);
        } else if at > i {
            assert(hosts[i].id != container.host_id);
        }
    }
}

/// Hosts are offered ahead of containers, and a final name changes nothing but
/// the name.
pub proof fn a_final_name_changes_only_the_name(
    hosts: Seq<Host>,
    containers: Seq<HostContainer>,
    i: int,
)
    requires
        0 <= i < all_candidates(hosts, containers).len(),
    ensures
        ({
            let named = all_candidates(hosts, containers);
            let direct = direct_candidates(hosts);
            let inner = container_candidates(hosts, containers);
            let found = if i < direct.len() {
                direct[i]
            } else {
                inner[i - direct.len()]
            };
            &&& named.len() == direct.len() + inner.len()
            &&& named[i].kind == found.kind
            &&& named[i].host_id == found.host_id
            &&& named[i].host_name == found.host_name
            &&& named[i].container_id == found.container_id
            &&& named[i].root_path == found.root_path
            &&& named[i].disabled == found.disabled
            &&& named[i].label == found.label || named[i].label == found.host_name + seq!['/']
                + found.label
        }),
{
    reveal_strlit("/");
    assert("/"@ =~= seq!['/']);
}

proof fn lemma_name_run(head: Seq<char>, name: Seq<char>, tail: Seq<char>, i: int)
    requires
        0 <= i <= name.len(),
        forall|k: int| 0 <= k < name.len() ==> name_char(#[trigger] name[k]),
        tail.len() > 0 ==> !name_char(tail[0]),
    ensures
        name_end(head + name + tail, head.len() + i) == head.len() + name.len(),
    decreases name.len() - i,
{
    let whole = head + name + tail;
    if i < name.len() {
        assert(whole[head.len() + i] == name[i]);
        lemma_name_run(head, name, tail, i + 1);
    } else if tail.len() > 0 {
        assert(whole[head.len() + i] == tail[0]);
    }
}

/// A name behind an `@` that starts a word is mentioned, whatever stands around
/// it, and without the full stops that end the sentence.
pub proof fn a_name_behind_an_at_is_mentioned(
    head: Seq<char>,
    name: Seq<char>,
    dots: Seq<char>,
    tail: Seq<char>,
)
    requires
        head.len() > 0 ==> !name_char(head.last()),
        name.len() > 0,
        name.last() != '.',
        forall|k: int| 0 <= k < name.len() ==> name_char(#[trigger] name[k]),
        forall|k: int| 0 <= k < dots.len() ==> #[trigger] dots[k] == '.',
        tail.len() > 0 ==> !name_char(tail[0]),
    ensures
        ({
            let content = head + seq!['@'] + name + dots + tail;
            mentioned(content, content.len() as int).contains(name)
        }),
{
    let content = head + seq!['@'] + name + dots + tail;
    let i = head.len() as int;
    let run = name + dots;
    let before = head + seq!['@'];
    assert forall|k: int| 0 <= k < run.len() implies name_char(#[trigger] run[k]) by {
        if k < name.len() {
            assert(run[k] == name[k]);
        } else {
            assert(run[k] == dots[k - name.len()]);
        }
    }
    assert(content =~= before + run + tail);
    lemma_name_run(before, run, tail, 0);
    assert(content.subrange(i + 1, i + 1 + run.len()) =~= run);
    lemma_dots_are_left_off(name, dots);
    assert(content[i] == '@');
    if i > 0 {
        assert(content[i - 1] == head.last());
    }
    assert(mention_at(content, i) == Some(name));
    lemma_mentioned_at(content, i, content.len() as int);
}

proof fn lemma_dots_are_left_off(name: Seq<char>, dots: Seq<char>)
    requires
        name.len() > 0,
        name.last() != '.',
        forall|k: int| 0 <= k < dots.len() ==> #[trigger] dots[k] == '.',
    ensures
        without_trailing(name + dots, '.') == name,
    decreases dots.len(),
{
    if dots.len() == 0 {
        assert(name + dots =~= name);
    } else {
        let fewer = dots.drop_last();
        assert(dots[dots.len() - 1] == '.');
        assert forall|k: int| 0 <= k < fewer.len() implies #[trigger] fewer[k] == '.' by {
            assert(dots[k] == '.');
        }
        lemma_dots_are_left_off(name, fewer);
        assert((name + dots).drop_last() =~= name + fewer);
    }
}

proof fn lemma_mentioned_at(content: Seq<char>, i: int, n: int)
    requires
        0 <= i < n <= content.len(),
        mention_at(content, i) is Some,
    ensures
        mentioned(content, n).contains(mention_at(content, i)->0),
    decreases n,
{
    let name = mention_at(content, i)->0;
    let before = mentioned(content, n - 1);
    if i == n - 1 {
        if !before.contains(name) {
            assert(before.push(name)[before.len() as int] == name);
        }
    } else {
        lemma_mentioned_at(content, i, n - 1);
        let k = choose|k: int| 0 <= k < before.len() && before[k] == name;
        assert(mentioned(content, n)[k] == name);
    }
}

/// What can stand in a name besides letters and digits are `-`, `_`, `.` and
/// `/`; in ASCII nothing else can.
pub proof fn a_name_is_made_of_name_characters(c: char)
    requires
        c as u32 <= 0x7f,
    ensures
        name_char(c) <==> ('a' <= c <= 'z' || 'A' <= c <= 'Z' || '0' <= c <= '9' || c == '-' || c
            == '_' || c == '.' || c == '/'),
{
}

/// Every label that is tagged, that names something and that the session does
/// not have is asked for; and what is asked for is what the first candidate of
/// that name stands for, in this session, now.
pub proof fn what_is_tagged_is_asked_for(
    tagged: Seq<Seq<char>>,
    existing: Seq<Seq<char>>,
    available: Seq<CandidateModel>,
    session_id: u128,
    now: i64,
    label: Seq<char>,
    at: int,
)
    requires
        0 <= at < available.len(),
        available[at].label == label,
        forall|k: int| 0 <= k < at ==> (#[trigger] available[k]).label != label,
        !existing.contains(label),
    ensures
        tags_for(tagged.push(label), existing, available, session_id, now) == tags_for(
            tagged,
            existing,
            available,
            session_id,
            now,
        ).push(
            TagModel {
                session_id,
                label,
                host_id: available[at].host_id,
                container_id: available[at].container_id,
                added_at: now,
            },
        ),
        tags_for(Seq::empty(), existing, available, session_id, now).len() == 0,
{
    assert(tagged.push(label).drop_last() =~= tagged);
    lemma_candidate_at(available, label);
    lemma_candidate_first(available, label);
    let found = candidate_at(available, label);
    if found < at {
        assert(available[found].label != label);
    } else if found > at {
        assert(available[at].label != label);
    }
}

proof fn lemma_candidate_first(available: Seq<CandidateModel>, label: Seq<char>)
    ensures
        forall|k: int|
            0 <= k < candidate_at(available, label) ==> (#[trigger] available[k]).label != label,
    decreases available.len(),
{
    if available.len() > 0 && available[0].label != label {
        let rest = available.drop_first();
        lemma_candidate_first(rest, label);
        lemma_candidate_at(rest, label);
        assert forall|k: int| 0 <= k < candidate_at(available, label) implies (
        #[trigger] available[k]).label != label by {
            if k > 0 {
                assert(rest[k - 1] == available[k]);
            }
        }
    }
}

/// A label that the session has, or that names nothing, is left as prose.
pub proof fn what_names_nothing_is_prose(
    tagged: Seq<Seq<char>>,
    existing: Seq<Seq<char>>,
    available: Seq<CandidateModel>,
    session_id: u128,
    now: i64,
    label: Seq<char>,
)
    requires
        existing.contains(label) || forall|k: int|
            0 <= k < available.len() ==> (#[trigger] available[k]).label != label,
    ensures
        tags_for(tagged.push(label), existing, available, session_id, now) == tags_for(
            tagged,
            existing,
            available,
            session_id,
            now,
        ),
{
    assert(tagged.push(label).drop_last() =~= tagged);
    lemma_candidate_at(available, label);
}

/// A label counts as added just where its row was written.
pub proof fn a_written_row_counts_as_added(
    tags: Seq<TagModel>,
    inserted: Seq<u64>,
    tag: TagModel,
    rows: u64,
)
    ensures
        taken(tags.push(tag), inserted.push(rows)) == if rows > 0 {
            taken(tags, inserted).push(tag.label)
        } else {
            taken(tags, inserted)
        },
        taken(Seq::empty(), Seq::empty()).len() == 0,
{
    assert(tags.push(tag).drop_last() =~= tags);
    assert(inserted.push(rows).drop_last() =~= inserted);
}

/// An announcement names every label that was added, in quotes and in order,
/// with a comma between two; and it stands between its tags.
pub proof fn an_announcement_names_every_label(
    labels: Seq<Seq<char>>,
    label: Seq<char>,
)
    ensures
        quoted_list(seq![label]) == seq!['\''] + label + seq!['\''],
        labels.len() > 0 ==> quoted_list(labels.push(label)) == quoted_list(labels) + ", '"@ + label
            + "'"@,
        announcement_text(seq![label]) == "<environments>User added '"@ + label
            + "' environment</environments>"@,
        labels.len() > 1 ==> announcement_text(labels) == "<environments>User added "@
            + quoted_list(labels) + " environments</environments>"@,
{
    reveal_strlit("'");
    reveal_strlit(", ");
    reveal_strlit(", '");
    reveal_strlit(" ");
    reveal_strlit("environment");
    reveal_strlit("environments");
    reveal_strlit("<environments>User added ");
    reveal_strlit("<environments>User added '");
    reveal_strlit("</environments>");
    reveal_strlit("' environment</environments>");
    reveal_strlit(" environments</environments>");
    assert(quoted_list(seq![label]) =~= seq!['\''] + label + seq!['\'']);
    assert(labels.push(label).drop_last() =~= labels);
    if labels.len() > 0 {
        assert(quoted_list(labels.push(label)) =~= quoted_list(labels) + ", '"@ + label + "'"@);
    }
    assert(announcement_text(seq![label]) =~= "<environments>User added '"@ + label
        + "' environment</environments>"@);
    if labels.len() > 1 {
        assert(announcement_text(labels) =~= "<environments>User added "@ + quoted_list(labels)
            + " environments</environments>"@);
    }
}

/// A host that is enabled and has a root of its own is bound directly, wherever
/// that root can be one; a container is bound wherever its host's daemon can be
/// reached, which is where the host runs one and either a session leads there
/// or it was told where the daemon is.
pub proof fn what_can_be_bound_is_bound(host: Host, row: HostContainer)
    requires
        host.disabled_at is None,
    ensures
        host.root_path matches Some(root) ==> (bind_refusal(
            BindRows::Host { host, container: None },
        ) is None <==> root_denial(root@) is None),
        bind_refusal(BindRows::Host { host, container: Some(Some(row)) }) is None
            <==> host.exec_mode@ == "docker"@ && (host.transport@ == "ssh"@ || host.transport@
            == "agent"@ || host.docker_endpoint is Some),
        bind_refusal(BindRows::Host { host, container: Some(None) }) is Some,
        bind_refusal(BindRows::NoHost) == Some(ErrorModel::NotFound),
{
}

/// A daemon on the far side is dialed at the socket that the host names, else
/// at the usual one; what is no path over there is refused.
pub proof fn a_far_daemon_is_dialed_at_its_socket(path: Seq<char>, over: Seq<char>)
    requires
        path.len() > 0,
        path[0] == '/',
    ensures
        far_socket_of(Some(path), over) == Ok::<Seq<char>, ErrorModel>(path),
        far_socket_of(Some("unix://"@ + path), over) == Ok::<Seq<char>, ErrorModel>(path),
        far_socket_of(None, over) == Ok::<Seq<char>, ErrorModel>("/var/run/docker.sock"@),
        far_socket_of(Some("tcp://"@ + path), over) is Err,
{
    reveal_strlit("unix://");
    reveal_strlit("tcp://");
    reveal_strlit("/");
    assert(path.subrange(0, 1) =~= "/"@);
    if "unix://"@.is_prefix_of(path) {
        assert(path.subrange(0, 7)[0] == '/');
    }
    let prefix = "unix://"@;
    crate::text::a_repeated_prefix_is_taken_off(path, prefix);
    assert((prefix + path).subrange(0, prefix.len() as int) =~= prefix);
    let tcp = "tcp://"@ + path;
    assert(tcp[0] == 't');
    if prefix.is_prefix_of(tcp) {
        assert(tcp.subrange(0, 7)[0] == 't');
    }
    if "/"@.is_prefix_of(tcp) {
        assert(tcp.subrange(0, 1)[0] == 't');
    }
}

/// What is told of a fault is what the fault says.
pub proof fn a_fault_is_told_in_its_own_words(reason: Seq<char>, denial: DenialModel)
    ensures
        fault_answer(FaultModel::Unreachable(reason)) == ErrorModel::ServiceUnavailable(reason),
        fault_answer(FaultModel::Denied(denial)) matches ErrorModel::BadRequest(told) && (denial
            matches DenialModel::NotFound { path } ==> told == "`"@ + path
            + "` was not found on that machine"@) && (!(denial is NotFound) ==> told
            == denial.sentence()),
{
}

/// A host's daemon is reached for just where the host runs one, is not disabled,
/// and either a session leads there or it was told where the daemon is.
pub proof fn a_daemon_is_reached_where_it_can_be(host: Host)
    ensures
        daemon_refusal(host) is None <==> {
            &&& host.exec_mode@ == "docker"@
            &&& host.disabled_at is None
            &&& host.transport@ == "ssh"@ || host.transport@ == "agent"@
                || host.docker_endpoint is Some
        },
        root_refusal(host.name@) is None <==> root_denial(host.name@) is None,
{
}

/// A candidate's label is qualified by its host just where another candidate
/// goes by the same one.
pub proof fn a_shared_label_is_qualified(found: Seq<CandidateModel>, i: int, j: int)
    requires
        0 <= i < found.len(),
    ensures
        0 <= j < found.len() && j != i && found[j].label == found[i].label ==> qualified(
            found,
            found[i],
        ) == found[i].host_name + "/"@ + found[i].label,
        (forall|k: int|
            0 <= k < found.len() && k != i ==> (#[trigger] found[k]).label != found[i].label)
            ==> qualified(found, found[i]) == found[i].label,
{
    let label = found[i].label;
    if 0 <= j < found.len() && j != i && found[j].label == label {
        if i < j {
            lemma_counted_twice(found, label, i, j);
        } else {
            lemma_counted_twice(found, label, j, i);
        }
    }
    if forall|k: int| 0 <= k < found.len() && k != i ==> (#[trigger] found[k]).label != label {
        lemma_counted_once(found, label, i);
    }
}

proof fn lemma_counted_twice(found: Seq<CandidateModel>, label: Seq<char>, i: int, j: int)
    requires
        0 <= i < j < found.len(),
        found[i].label == label,
        found[j].label == label,
    ensures
        label_count(found, label) >= 2,
    decreases found.len(),
{
    let before = found.drop_last();
    if j < before.len() {
        assert(before[i] == found[i] && before[j] == found[j]);
        lemma_counted_twice(before, label, i, j);
    } else {
        assert(before[i] == found[i]);
        lemma_counted(before, label, i);
    }
}

proof fn lemma_counted(found: Seq<CandidateModel>, label: Seq<char>, i: int)
    requires
        0 <= i < found.len(),
        found[i].label == label,
    ensures
        label_count(found, label) >= 1,
    decreases found.len(),
{
    let before = found.drop_last();
    if i < before.len() {
        assert(before[i] == found[i]);
        lemma_counted(before, label, i);
    }
}

proof fn lemma_counted_once(found: Seq<CandidateModel>, label: Seq<char>, i: int)
    requires
        forall|k: int| 0 <= k < found.len() && k != i ==> (#[trigger] found[k]).label != label,
    ensures
        label_count(found, label) <= 1,
        i >= found.len() ==> label_count(found, label) == 0,
    decreases found.len(),
{
    if found.len() > 0 {
        let before = found.drop_last();
        assert forall|k: int| 0 <= k < before.len() && k != i implies (
        #[trigger] before[k]).label != label by {
            assert(found[k].label != label);
        }
        lemma_counted_once(before, label, i);
        if i != found.len() - 1 {
            assert(found[found.len() - 1].label != label);
        }
    }
}

/// What is told of a candidate and of a tag is what it holds, one by one.
pub proof fn a_candidate_says_what_it_holds(
    list: Seq<Candidate>,
    tags: Seq<NewSessionEnvironment>,
    i: int,
)
    ensures
        candidate_models(list).len() == list.len(),
        tag_models(tags).len() == tags.len(),
        0 <= i < list.len() ==> {
            let told = candidate_models(list)[i];
            &&& told.label == list[i].label@ && told.kind == list[i].kind@
            &&& told.host_id == list[i].host_id && told.host_name == list[i].host_name@
            &&& told.container_id == list[i].container_id
            &&& told.root_path == list[i].root_path@ && told.disabled == list[i].disabled
        },
        0 <= i < tags.len() ==> {
            let told = tag_models(tags)[i];
            &&& told.session_id == tags[i].session_id && told.label == tags[i].label@
            &&& told.host_id == tags[i].host_id && told.container_id == tags[i].container_id
            &&& told.added_at == tags[i].added_at
        },
{
}

/// A binding that was reached is listed under its label, and one that was not
/// with why, each in its order.
pub proof fn an_attempt_is_listed_as_it_went(
    attempts: Seq<(String, Result<(), String>)>,
    label: String,
    reason: String,
)
    ensures
        reached(attempts.push((label, Ok(())))) == reached(attempts).push(label@),
        missed(attempts.push((label, Ok(())))) == missed(attempts),
        reached(attempts.push((label, Err(reason)))) == reached(attempts),
        missed(attempts.push((label, Err(reason)))) == missed(attempts).push((label@, reason@)),
        reached(Seq::empty()).len() == 0 && missed(Seq::empty()).len() == 0,
{
    assert(attempts.push((label, Ok(()))).drop_last() =~= attempts);
    assert(attempts.push((label, Err(reason))).drop_last() =~= attempts);
}

} // verus!
