//! Execution environments.
//!
//! The host is the registration primitive: every execution mode bottoms out in
//! *reach the machine, then exec*, and only the machine carries authentication
//! and a network path. Containers hang off a host; probes observe one.
//!
//! Nothing here caches liveness. `disabled_at` is operator intent, and a probe
//! is an observation that was true when it was made.
use vstd::prelude::*;
use crate::json::Json;
use crate::text::same;

verus! {

/// How faber reaches the machine.
#[derive(Debug, Clone, Copy, PartialEq, Eq, Structural)]
pub enum Transport {
    Local,
    Ssh,
    /// A daemon that dialed out to faber, rather than a host faber dials. It
    /// carries no `ssh_address`; its identity lives with its credential.
    Agent,
}

impl Transport {
    pub open spec fn text(self) -> Seq<char> {
        match self {
            Transport::Local => "local"@,
            Transport::Ssh => "ssh"@,
            Transport::Agent => "agent"@,
        }
    }

    pub fn as_str(&self) -> (r: &'static str)
        ensures
            r@ == self.text(),
    {
        match self {
            Transport::Local => "local",
            Transport::Ssh => "ssh",
            Transport::Agent => "agent",
        }
    }

    /// The transport a stored or submitted name stands for.
    pub fn parse(text: &str) -> (r: Option<Transport>)
        ensures
            match r {
                Some(t) => text@ == t.text(),
                None => forall|t: Transport| text@ != #[trigger] t.text(),
            },
    {
        if same(text, "local") {
            Some(Transport::Local)
        } else if same(text, "ssh") {
            Some(Transport::Ssh)
        } else if same(text, "agent") {
            Some(Transport::Agent)
        } else {
            None
        }
    }
}

/// No two transports share a stored name, so reading a name back gives the
/// transport that was written.
pub proof fn transport_names_are_distinct(a: Transport, b: Transport)
    ensures
        a.text() == b.text() ==> a == b,
{
    reveal_strlit("local");
    reveal_strlit("ssh");
    reveal_strlit("agent");
    assert("local"@[0] == 'l');
    assert("ssh"@[0] == 's');
    assert("agent"@[0] == 'a');
}

/// What faber execs into once it has reached the machine.
///
/// Deliberately not derived from whether a docker endpoint is set: an SSH host
/// that *could* run docker but is deliberately used direct is a real
/// configuration, and collapsing the two loses it.
#[derive(Debug, Clone, Copy, PartialEq, Eq, Structural)]
pub enum ExecMode {
    Direct,
    Docker,
}

impl ExecMode {
    pub open spec fn text(self) -> Seq<char> {
        match self {
            ExecMode::Direct => "direct"@,
            ExecMode::Docker => "docker"@,
        }
    }

    pub fn as_str(&self) -> (r: &'static str)
        ensures
            r@ == self.text(),
    {
        match self {
            ExecMode::Direct => "direct",
            ExecMode::Docker => "docker",
        }
    }

    /// The mode a stored or submitted name stands for.
    pub fn parse(text: &str) -> (r: Option<ExecMode>)
        ensures
            match r {
                Some(m) => text@ == m.text(),
                None => forall|m: ExecMode| text@ != #[trigger] m.text(),
            },
    {
        if same(text, "direct") {
            Some(ExecMode::Direct)
        } else if same(text, "docker") {
            Some(ExecMode::Docker)
        } else {
            None
        }
    }
}

/// No two exec modes share a stored name.
pub proof fn exec_mode_names_are_distinct(a: ExecMode, b: ExecMode)
    ensures
        a.text() == b.text() ==> a == b,
{
    reveal_strlit("direct");
    reveal_strlit("docker");
    assert("direct"@[1] == 'i');
    assert("docker"@[1] == 'o');
}

#[derive(Debug)]
pub struct Host {
    pub id: u128,
    /// Who registered this host. Every host is owned.
    pub user_id: u128,
    pub name: String,
    pub transport: String,
    pub exec_mode: String,
    pub ssh_address: Option<String>,
    pub ssh_key_ref: Option<String>,
    /// The SHA256 fingerprint this host is known by. `None` until the first
    /// successful connection, which stores what it saw; every connection after
    /// verifies against it.
    pub ssh_host_key: Option<String>,
    pub docker_endpoint: Option<String>,
    pub created_at: i64,
    pub disabled_at: Option<i64>,
    /// The agent-visible root when this host is used in direct mode. `None`
    /// means the host cannot be bound directly: `/` by default would hand an
    /// agent the whole machine because nobody filled in a field.
    pub root_path: Option<String>,
    /// Docker network selected when resolving a container for live preview.
    /// If absent, only an unambiguous single attached network is accepted.
    pub preview_network: Option<String>,
}

impl Host {
    /// Whether the host is reached by `transport`.
    pub open spec fn reached_by(&self, transport: Transport) -> bool {
        self.transport@ == transport.text()
    }

    /// Whether the host runs commands in `mode`.
    pub open spec fn runs(&self, mode: ExecMode) -> bool {
        self.exec_mode@ == mode.text()
    }

    pub fn is_by(&self, transport: Transport) -> (r: bool)
        ensures
            r == self.reached_by(transport),
    {
        same(self.transport.as_str(), transport.as_str())
    }

    pub fn is_running(&self, mode: ExecMode) -> (r: bool)
        ensures
            r == self.runs(mode),
    {
        same(self.exec_mode.as_str(), mode.as_str())
    }
}

#[derive(Debug)]
pub struct HostContainer {
    pub id: u128,
    pub host_id: u128,
    /// Who this container belongs to, recorded here so authorization reads the
    /// container row rather than joining through its host.
    pub user_id: u128,
    pub container_ref: String,
    pub name: Option<String>,
    pub root_path: String,
    pub created_at: i64,
    pub unregistered_at: Option<i64>,
    /// When faber created this container. `None` means the user did and faber
    /// was only told about it, which is the difference between a container
    /// faber may destroy and one it must leave alone.
    pub managed_at: Option<i64>,
    /// The template it was created from, kept as provenance.
    pub image_id: Option<u128>,
}

impl HostContainer {
    /// Faber created it, so faber may destroy it.
    pub fn managed(&self) -> (r: bool)
        ensures
            r == (self.managed_at is Some),
    {
        self.managed_at.is_some()
    }
}

#[derive(Debug)]
pub struct HostProbe {
    pub id: u128,
    pub host_id: u128,
    pub container_id: Option<u128>,
    pub probed_at: i64,
    pub ok: bool,
    pub error: Option<String>,
    pub os: Option<String>,
    pub arch: Option<String>,
    pub shell: Option<String>,
    pub tools: Option<Json>,
    pub root_path: Option<String>,
}

/// A template a container can be started from.
#[derive(Debug)]
pub struct Image {
    pub id: u128,
    pub user_id: u128,
    pub name: String,
    pub reference: String,
    pub default_mounts: Option<Json>,
    pub default_root_path: String,
    pub created_at: i64,
}

} // verus!
