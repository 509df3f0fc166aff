//! Hosts, the containers on them, and what was observed of them.
//!
//! There is no "is it up" here: reachability is answered by the connection
//! attempt, and a probe is named for what it is, a past observation. And there
//! is no container lifecycle an agent can reach: faber creates a container on
//! a user's request, records that it did, and may therefore destroy it again.
//! A container faber only registered is never touched.
use vstd::prelude::*;
use crate::encoding::{fresh_id, hex_digits, is_version_7, uuid_digits};
use crate::environment::docker::engine::Mount;
use crate::environments::{fault, fault_answer};
use crate::error::{
    bad_request, refusal, AppError, Denial, DenialModel, ErrorModel, Fault, FaultModel,
};
use crate::json::{copy_opt_json, opt_json, Json};
use crate::models::host::{ExecMode, Host, HostContainer, HostProbe, Image, Transport};
use crate::text::{
    change, chars_of, copy_opt, decimal, decimal_of, find, first_index, join2, join3, join4,
    last_index, lemma_first_index, lemma_last_index, opt, opt_str, pairs, parse_u16, rfind,
    starts_with, trim, trim_opt, trimmed_opt, u16_value, without_trailing,
};

verus! {

// ---------------------------------------------------------------------------
// Validation
// ---------------------------------------------------------------------------

/// Why a name is refused.
pub open spec fn name_refusal(name: Seq<char>) -> Option<ErrorModel> {
    if name.len() == 0 {
        Some(ErrorModel::BadRequest("name is required"@))
    } else if name.len() > 100 {
        Some(ErrorModel::BadRequest("name must be 100 characters or fewer"@))
    } else {
        None
    }
}

pub fn validate_name(name: &str) -> (r: Result<(), AppError>)
    ensures
        refusal(r) == name_refusal(name@),
{
    let len: usize = name.unicode_len();
    if len == 0 {
        Err(bad_request("name is required"))
    } else if len > 100 {
        Err(bad_request("name must be 100 characters or fewer"))
    } else {
        Ok(())
    }
}

/// Why an address is refused.
pub open spec fn address_refusal(address: Seq<char>) -> Option<ErrorModel> {
    let at = first_index(address, '@');
    let host_port = address.skip(at + 1);
    let colon = last_index(host_port, ':');
    if at >= address.len() || at == 0 || host_port.len() == 0 || colon < 0 || colon + 1
        >= host_port.len() {
        Some(ErrorModel::BadRequest("ssh_address must use the format user@host:port"@))
    } else if u16_value(host_port.skip(colon + 1)) is None || u16_value(host_port.skip(colon + 1))
        == Some(0nat) {
        Some(ErrorModel::BadRequest("ssh_address port must be between 1 and 65535"@))
    } else {
        None
    }
}

pub fn validate_ssh_address(address: &str) -> (r: Result<(), AppError>)
    ensures
        refusal(r) == address_refusal(address@),
{
    let chars = chars_of(address);
    let at: usize = find(&chars, '@');
    if at >= chars.len() || at == 0 || at + 1 >= chars.len() {
        proof {
            lemma_first_index(address@, '@');
        }
        return Err(bad_request("ssh_address must use the format user@host:port"));
    }
    let ghost host_port = address@.skip(at + 1);
    proof {
        lemma_last_index(host_port, ':');
    }
    match rfind(&chars, at + 1, ':') {
        Some(colon) => {
            if colon + 1 >= chars.len() {
                return Err(bad_request("ssh_address must use the format user@host:port"));
            }
            assert(chars@.skip(colon + 1) =~= host_port.skip(last_index(host_port, ':') + 1));
            match parse_u16(&chars, colon + 1) {
                Some(port) => if port == 0 {
                    Err(bad_request("ssh_address port must be between 1 and 65535"))
                } else {
                    Ok(())
                },
                None => Err(bad_request("ssh_address port must be between 1 and 65535")),
            }
        },
        None => Err(bad_request("ssh_address must use the format user@host:port")),
    }
}

/// Whether an optional text is missing or empty.
pub open spec fn unset(value: Option<Seq<char>>) -> bool {
    value is None || value->0.len() == 0
}

/// Why a transport's configuration is refused: an ssh host needs an address,
/// and nobody else may carry one, nor a host key.
pub open spec fn transport_refusal(
    transport: Transport,
    ssh_address: Option<Seq<char>>,
    ssh_host_key: Option<Seq<char>>,
    allow_local_hosts: bool,
) -> Option<ErrorModel> {
    if transport == Transport::Local && !allow_local_hosts {
        Some(ErrorModel::BadRequest("local hosts are disabled by FABER_ALLOW_LOCAL_HOSTS"@))
    } else if transport == Transport::Ssh {
        if unset(ssh_address) {
            Some(ErrorModel::BadRequest("ssh_address is required when transport is 'ssh'"@))
        } else {
            address_refusal(ssh_address->0)
        }
    } else if !unset(ssh_address) {
        Some(ErrorModel::BadRequest("ssh_address is only valid when transport is 'ssh'"@))
    } else if !unset(ssh_host_key) {
        Some(ErrorModel::BadRequest("ssh_host_key is only valid when transport is 'ssh'"@))
    } else {
        None
    }
}

fn is_unset(value: Option<&str>) -> (r: bool)
    ensures
        r == unset(opt_str(value)),
{
    match value {
        Some(text) => text.is_empty(),
        None => true,
    }
}

/// Mirrors the constraint on a stored host, so a mismatch comes back as a
/// message naming the field.
pub fn validate_transport_config(
    transport: Transport,
    ssh_address: Option<&str>,
    ssh_host_key: Option<&str>,
    allow_local_hosts: bool,
) -> (r: Result<(), AppError>)
    ensures
        refusal(r) == transport_refusal(
            transport,
            opt_str(ssh_address),
            opt_str(ssh_host_key),
            allow_local_hosts,
        ),
{
    if transport == Transport::Local && !allow_local_hosts {
        return Err(bad_request("local hosts are disabled by FABER_ALLOW_LOCAL_HOSTS"));
    }
    if transport == Transport::Ssh {
        return match ssh_address {
            Some(address) => {
                if address.is_empty() {
                    Err(bad_request("ssh_address is required when transport is 'ssh'"))
                } else {
                    validate_ssh_address(address)
                }
            },
            None => Err(bad_request("ssh_address is required when transport is 'ssh'")),
        };
    }
    if !is_unset(ssh_address) {
        return Err(bad_request("ssh_address is only valid when transport is 'ssh'"));
    }
    if !is_unset(ssh_host_key) {
        return Err(bad_request("ssh_host_key is only valid when transport is 'ssh'"));
    }
    Ok(())
}

/// Why a daemon's address is refused.
pub open spec fn endpoint_refusal(
    transport: Transport,
    exec_mode: ExecMode,
    endpoint: Option<Seq<char>>,
) -> Option<ErrorModel> {
    if exec_mode != ExecMode::Docker {
        None
    } else if transport == Transport::Local && unset(endpoint) {
        Some(ErrorModel::BadRequest("docker_endpoint is required for a local docker host"@))
    } else if endpoint is Some && !"unix://"@.is_prefix_of(endpoint->0) && !"tcp://"@.is_prefix_of(
        endpoint->0,
    ) {
        Some(ErrorModel::BadRequest("docker_endpoint must start with 'unix://' or 'tcp://'"@))
    } else {
        None
    }
}

/// Local docker access is explicit: faber must not silently use the operator's
/// own context or socket.
pub fn validate_docker_endpoint(
    transport: Transport,
    exec_mode: ExecMode,
    endpoint: Option<&str>,
) -> (r: Result<(), AppError>)
    ensures
        refusal(r) == endpoint_refusal(transport, exec_mode, opt_str(endpoint)),
{
    if exec_mode != ExecMode::Docker {
        return Ok(());
    }
    if transport == Transport::Local && is_unset(endpoint) {
        return Err(bad_request("docker_endpoint is required for a local docker host"));
    }
    if let Some(text) = endpoint {
        if !starts_with(text, "unix://") && !starts_with(text, "tcp://") {
            return Err(bad_request("docker_endpoint must start with 'unix://' or 'tcp://'"));
        }
    }
    Ok(())
}

/// Why a root is refused.
pub open spec fn root_path_refusal(root_path: Seq<char>) -> Option<ErrorModel> {
    if "/"@.is_prefix_of(root_path) {
        None
    } else {
        Some(ErrorModel::BadRequest("root_path must be absolute"@))
    }
}

/// The whole of the path contract rests on one rooted namespace per target,
/// and a relative root would teach an agent path habits that do not transfer.
pub fn validate_host_root(root_path: &str) -> (r: Result<(), AppError>)
    ensures
        refusal(r) == root_path_refusal(root_path@),
{
    if starts_with(root_path, "/") {
        Ok(())
    } else {
        Err(bad_request("root_path must be absolute"))
    }
}

/// A submitted text, where it is one: white space is not a value.
pub open spec fn value_of(value: Option<Seq<char>>) -> Option<Seq<char>> {
    match value {
        Some(text) => if crate::text::trimmed(text).len() > 0 {
            Some(crate::text::trimmed(text))
        } else {
            None
        },
        None => None,
    }
}

/// `Some("")` means the caller sent whitespace, which is not a value: it
/// collapses to `None` so an empty string never reaches a nullable column.
pub fn trimmed<'a>(value: Option<&'a str>) -> (r: Option<&'a str>)
    ensures
        opt_str(r) == value_of(opt_str(value)),
{
    match value {
        Some(text) => {
            let kept = trim(text);
            if kept.is_empty() {
                None
            } else {
                Some(kept)
            }
        },
        None => None,
    }
}

/// No blank text is ever taken for a value.
pub proof fn a_blank_field_is_no_value(value: Option<Seq<char>>)
    ensures
        value_of(value) matches Some(text) ==> text.len() > 0,
        value is Some && crate::text::trimmed(value->0).len() == 0 ==> value_of(value) is None,
{
}

fn kept(value: &Option<String>) -> (r: Option<String>)
    ensures
        opt(r) == value_of(opt(*value)),
{
    match value {
        Some(text) => match trimmed(Some(text.as_str())) {
            Some(kept) => Some(kept.to_owned()),
            None => None,
        },
        None => None,
    }
}

fn slice(value: &Option<String>) -> (r: Option<&str>)
    ensures
        opt_str(r) == opt(*value),
{
    match value {
        Some(text) => Some(text.as_str()),
        None => None,
    }
}

/// The id that `uuid::Uuid::parse_str` reads from a text, or `None` where it
/// refuses it.
pub uninterp spec fn uuid_value(text: Seq<char>) -> Option<u128>;

/// Calls `uuid::Uuid::parse_str`, whose result [`uuid_value`] names.
#[verifier::external_body]
fn parse_uuid(text: &str) -> (r: Option<u128>)
    ensures
        r == uuid_value(text@),
{
    uuid::Uuid::parse_str(text).ok().map(|id| id.as_u128())
}

/// Why a key is refused before it is looked up, given the id it reads as.
pub open spec fn key_refusal(key_ref: Option<Seq<char>>, id: Option<u128>) -> Option<ErrorModel> {
    if key_ref is None {
        Some(ErrorModel::BadRequest("ssh_key_ref is required when transport is 'ssh'"@))
    } else if id is None {
        Some(ErrorModel::BadRequest("ssh_key_ref is not a credential id"@))
    } else {
        None
    }
}

/// The credential that an ssh host's key names.
pub fn ssh_credential_id(key_ref: Option<&str>) -> (r: Result<u128, AppError>)
    ensures
        match key_ref {
            None => refusal(r) == key_refusal(None, None),
            Some(text) => refusal(r) == key_refusal(Some(text@), uuid_value(text@)) && (
            r matches Ok(id) ==> Some(id) == uuid_value(text@)),
        },
{
    match key_ref {
        None => Err(bad_request("ssh_key_ref is required when transport is 'ssh'")),
        Some(text) => match parse_uuid(text) {
            Some(id) => Ok(id),
            None => Err(bad_request("ssh_key_ref is not a credential id")),
        },
    }
}

/// Checks that the credential was found among the caller's ssh keys.
pub fn validate_ssh_credential(found: bool) -> (r: Result<(), AppError>)
    ensures
        refusal(r) == if found {
            None
        } else {
            Some(ErrorModel::BadRequest("SSH key credential not found"@))
        },
{
    if found {
        Ok(())
    } else {
        Err(bad_request("SSH key credential not found"))
    }
}

// ---------------------------------------------------------------------------
// Hosts
// ---------------------------------------------------------------------------

#[derive(Debug)]
pub struct CreateHostRequest {
    pub name: String,
    pub transport: Transport,
    pub exec_mode: ExecMode,
    pub ssh_address: Option<String>,
    pub ssh_key_ref: Option<String>,
    /// The fingerprint this host is known by. Omitted on first registration:
    /// the first successful connection records what it saw.
    pub ssh_host_key: Option<String>,
    pub docker_endpoint: Option<String>,
    /// The agent-visible root for direct execution. Absent means this host
    /// cannot be bound to a session directly.
    pub root_path: Option<String>,
}

/// A host as it is written.
#[derive(Debug)]
pub struct NewHost {
    pub id: u128,
    pub user_id: u128,
    pub name: String,
    pub transport: &'static str,
    pub exec_mode: &'static str,
    pub ssh_address: Option<String>,
    pub ssh_key_ref: Option<String>,
    pub ssh_host_key: Option<String>,
    pub docker_endpoint: Option<String>,
    pub root_path: Option<String>,
    pub preview_network: Option<String>,
}

/// The first of two refusals.
pub open spec fn or_else(first: Option<ErrorModel>, second: Option<ErrorModel>) -> Option<
    ErrorModel,
> {
    if first is Some {
        first
    } else {
        second
    }
}

/// Why an optional root is refused.
pub open spec fn opt_root_refusal(root: Option<Seq<char>>) -> Option<ErrorModel> {
    match root {
        Some(path) => root_path_refusal(path),
        None => None,
    }
}

/// Why a new host is refused, its key aside.
pub open spec fn create_refusal(input: CreateHostRequest, allow_local_hosts: bool) -> Option<
    ErrorModel,
> {
    or_else(
        name_refusal(crate::text::trimmed(input.name@)),
        or_else(
            transport_refusal(
                input.transport,
                value_of(opt(input.ssh_address)),
                value_of(opt(input.ssh_host_key)),
                allow_local_hosts,
            ),
            or_else(
                opt_root_refusal(value_of(opt(input.root_path))),
                endpoint_refusal(
                    input.transport,
                    input.exec_mode,
                    value_of(opt(input.docker_endpoint)),
                ),
            ),
        ),
    )
}

/// The host to store. The key of an ssh host is still to be looked up.
pub fn create(
    input: &CreateHostRequest,
    allow_local_hosts: bool,
    id: u128,
    user_id: u128,
) -> (r: Result<NewHost, AppError>)
    ensures
        refusal(r) == create_refusal(*input, allow_local_hosts),
        r matches Ok(host) ==> {
            &&& host.id == id
            &&& host.user_id == user_id
            &&& host.name@ == crate::text::trimmed(input.name@)
            &&& host.transport@ == input.transport.text()
            &&& host.exec_mode@ == input.exec_mode.text()
            &&& opt(host.ssh_address) == value_of(opt(input.ssh_address))
            &&& opt(host.ssh_key_ref) == value_of(opt(input.ssh_key_ref))
            &&& opt(host.ssh_host_key) == value_of(opt(input.ssh_host_key))
            &&& opt(host.docker_endpoint) == value_of(opt(input.docker_endpoint))
            &&& opt(host.root_path) == value_of(opt(input.root_path))
            &&& host.preview_network is None
        },
{
    let name = trim(input.name.as_str());
    if let Err(error) = validate_name(name) {
        return Err(error);
    }
    let ssh_address = kept(&input.ssh_address);
    let ssh_host_key = kept(&input.ssh_host_key);
    if let Err(error) = validate_transport_config(
        input.transport,
        slice(&ssh_address),
        slice(&ssh_host_key),
        allow_local_hosts,
    ) {
        return Err(error);
    }
    let root_path = kept(&input.root_path);
    if let Some(root) = &root_path {
        if let Err(error) = validate_host_root(root.as_str()) {
            return Err(error);
        }
    }
    let docker_endpoint = kept(&input.docker_endpoint);
    if let Err(error) = validate_docker_endpoint(
        input.transport,
        input.exec_mode,
        slice(&docker_endpoint),
    ) {
        return Err(error);
    }
    Ok(
        NewHost {
            id,
            user_id,
            name: name.to_owned(),
            transport: input.transport.as_str(),
            exec_mode: input.exec_mode.as_str(),
            ssh_address,
            ssh_key_ref: kept(&input.ssh_key_ref),
            ssh_host_key,
            docker_endpoint,
            root_path,
            preview_network: None,
        },
    )
}

/// What a host's name that is taken is answered with.
pub fn taken(name: &str) -> (r: AppError)
    ensures
        r@ == ErrorModel::BadRequest("a host named '"@ + name@ + "' already exists"@),
{
    AppError::BadRequest(join3("a host named '", name, "' already exists"))
}

/// A change to a host, as it is asked for. `Some(None)` clears a field; `None`
/// leaves it unchanged.
#[derive(Debug)]
pub struct UpdateHostRequest {
    pub name: Option<String>,
    pub transport: Option<Transport>,
    pub exec_mode: Option<ExecMode>,
    pub ssh_address: Option<Option<String>>,
    pub ssh_key_ref: Option<Option<String>>,
    /// Clearing it is how a rebuilt machine is re-trusted: an operator
    /// decision, never an automatic one on mismatch.
    pub ssh_host_key: Option<Option<String>>,
    pub docker_endpoint: Option<Option<String>>,
    pub root_path: Option<Option<String>>,
    /// Operator intent. Never an observation: a host nobody can reach is still
    /// enabled.
    pub disabled: Option<bool>,
}

/// A change to a host, as it is written.
#[derive(Debug)]
pub struct UpdateHost {
    pub name: Option<String>,
    pub transport: Option<&'static str>,
    pub exec_mode: Option<&'static str>,
    pub ssh_address: Option<Option<String>>,
    pub ssh_key_ref: Option<Option<String>>,
    pub ssh_host_key: Option<Option<String>>,
    pub docker_endpoint: Option<Option<String>>,
    pub disabled_at: Option<Option<i64>>,
    pub root_path: Option<Option<String>>,
    pub preview_network: Option<Option<String>>,
}

/// The text a field of a change sets, where it sets one.
pub open spec fn changed(value: Option<Option<String>>) -> Option<Option<Seq<char>>> {
    match change(value) {
        Some(inner) => Some(value_of(inner)),
        None => None,
    }
}

/// The text a field has after a change.
pub open spec fn after(value: Option<Option<Seq<char>>>, current: Option<Seq<char>>) -> Option<
    Seq<char>,
> {
    match value {
        Some(inner) => inner,
        None => current,
    }
}

/// How a host is reached after a change.
pub open spec fn transport_after(current: Host, input: UpdateHostRequest) -> Transport {
    match input.transport {
        Some(transport) => transport,
        None => if current.reached_by(Transport::Ssh) {
            Transport::Ssh
        } else if current.reached_by(Transport::Agent) {
            Transport::Agent
        } else {
            Transport::Local
        },
    }
}

/// What a host runs commands in after a change.
pub open spec fn mode_after(current: Host, input: UpdateHostRequest) -> ExecMode {
    match input.exec_mode {
        Some(mode) => mode,
        None => if current.runs(ExecMode::Docker) {
            ExecMode::Docker
        } else {
            ExecMode::Direct
        },
    }
}

/// Why a change is refused before the key is looked up. The rule on addresses
/// spans two fields, so it is checked against the row the change will produce:
/// clearing the address is fine on a local host and refused on an ssh one, and
/// going local clears it.
pub open spec fn update_refusal(
    current: Host,
    input: UpdateHostRequest,
    allow_local_hosts: bool,
) -> Option<ErrorModel> {
    or_else(
        match trimmed_opt(opt(input.name)) {
            Some(name) => name_refusal(name),
            None => None,
        },
        or_else(
            match changed(input.root_path) {
                Some(root) => opt_root_refusal(root),
                None => None,
            },
            transport_refusal(
                transport_after(current, input),
                after(
                    address_column(input.transport, changed(input.ssh_address)),
                    opt(current.ssh_address),
                ),
                match changed(input.ssh_host_key) {
                    Some(key) => key,
                    None => None,
                },
                allow_local_hosts || current.reached_by(Transport::Local),
            ),
        ),
    )
}

fn effective_transport(current: &Host, input: &UpdateHostRequest) -> (r: Transport)
    ensures
        r == transport_after(*current, *input),
{
    match input.transport {
        Some(transport) => transport,
        None => if current.is_by(Transport::Ssh) {
            Transport::Ssh
        } else if current.is_by(Transport::Agent) {
            Transport::Agent
        } else {
            Transport::Local
        },
    }
}

fn kept_change(value: &Option<Option<String>>) -> (r: Option<Option<String>>)
    ensures
        change(r) == changed(*value),
{
    match value {
        Some(inner) => Some(kept(inner)),
        None => None,
    }
}

fn effective(value: &Option<Option<String>>, current: &Option<String>) -> (r: Option<String>)
    ensures
        opt(r) == after(changed(*value), opt(*current)),
{
    match value {
        Some(inner) => kept(inner),
        None => copy_opt(current),
    }
}

/// Checks a change to a host up to its key, and says which key is to be looked
/// up: that of the row the change will produce, where that row is an ssh one.
pub fn check_update(
    current: &Host,
    input: &UpdateHostRequest,
    allow_local_hosts: bool,
) -> (r: Result<Option<Option<String>>, AppError>)
    ensures
        refusal(r) == update_refusal(*current, *input, allow_local_hosts),
        r matches Ok(key) ==> change(key) == if transport_after(*current, *input)
            == Transport::Ssh {
            Some(after(changed(input.ssh_key_ref), opt(current.ssh_key_ref)))
        } else {
            None
        },
{
    if let Some(name) = &input.name {
        if let Err(error) = validate_name(trim(name.as_str())) {
            return Err(error);
        }
    }
    if let Some(value) = &input.root_path {
        if let Some(root) = kept(value) {
            if let Err(error) = validate_host_root(root.as_str()) {
                return Err(error);
            }
        }
    }
    let transport = effective_transport(current, input);
    let goes_local = match input.transport {
        Some(asked) => asked == Transport::Local,
        None => false,
    };
    let ssh_address = if input.ssh_address.is_none() && goes_local {
        None
    } else {
        effective(&input.ssh_address, &current.ssh_address)
    };
    let submitted_host_key = match &input.ssh_host_key {
        Some(value) => kept(value),
        None => None,
    };
    if let Err(error) = validate_transport_config(
        transport,
        slice(&ssh_address),
        slice(&submitted_host_key),
        allow_local_hosts || current.is_by(Transport::Local),
    ) {
        return Err(error);
    }
    if transport == Transport::Ssh {
        Ok(Some(effective(&input.ssh_key_ref, &current.ssh_key_ref)))
    } else {
        Ok(None)
    }
}

/// A column that goes with the address: what the change sets it to, cleared
/// where the host becomes a local one, else left alone.
pub open spec fn address_column(
    transport: Option<Transport>,
    value: Option<Option<Seq<char>>>,
) -> Option<Option<Seq<char>>> {
    if value is Some {
        value
    } else if transport == Some(Transport::Local) {
        Some(None)
    } else {
        None
    }
}

/// The stored host key after a change. A host that changes address is a
/// different machine, whose stored fingerprint is now a claim about somewhere
/// else.
pub open spec fn host_key_column(current: Host, input: UpdateHostRequest) -> Option<
    Option<Seq<char>>,
> {
    let address = address_column(input.transport, changed(input.ssh_address));
    if input.ssh_host_key is Some {
        changed(input.ssh_host_key)
    } else if input.transport == Some(Transport::Local) {
        Some(None)
    } else if address is Some && address->0 != opt(current.ssh_address) {
        Some(None)
    } else {
        None
    }
}

fn same_opt(a: &Option<String>, b: &Option<String>) -> (r: bool)
    ensures
        r == (opt(*a) == opt(*b)),
{
    match (a, b) {
        (Some(x), Some(y)) => crate::text::same(x.as_str(), y.as_str()),
        (None, None) => true,
        _ => false,
    }
}

/// The change to store, once the key of an ssh host was found.
pub fn update(current: &Host, input: &UpdateHostRequest, now: i64) -> (r: Result<
    UpdateHost,
    AppError,
>)
    ensures
        refusal(r) == endpoint_refusal(
            transport_after(*current, *input),
            mode_after(*current, *input),
            after(changed(input.docker_endpoint), opt(current.docker_endpoint)),
        ),
        r matches Ok(patch) ==> {
            &&& opt(patch.name) == trimmed_opt(opt(input.name))
            &&& opt_str(patch.transport) == match input.transport {
                Some(transport) => Some(transport.text()),
                None => None,
            }
            &&& opt_str(patch.exec_mode) == match input.exec_mode {
                Some(mode) => Some(mode.text()),
                None => None,
            }
            &&& change(patch.ssh_address) == address_column(
                input.transport,
                changed(input.ssh_address),
            )
            &&& change(patch.ssh_key_ref) == address_column(
                input.transport,
                changed(input.ssh_key_ref),
            )
            &&& change(patch.ssh_host_key) == host_key_column(*current, *input)
            &&& change(patch.docker_endpoint) == changed(input.docker_endpoint)
            &&& patch.disabled_at == match input.disabled {
                Some(true) => Some(Some(now)),
                Some(false) => Some(None),
                None => None,
            }
            &&& change(patch.root_path) == changed(input.root_path)
            &&& patch.preview_network is None
        },
{
    let transport = effective_transport(current, input);
    let exec_mode = match input.exec_mode {
        Some(mode) => mode,
        None => if current.is_running(ExecMode::Docker) {
            ExecMode::Docker
        } else {
            ExecMode::Direct
        },
    };
    let endpoint = effective(&input.docker_endpoint, &current.docker_endpoint);
    if let Err(error) = validate_docker_endpoint(transport, exec_mode, slice(&endpoint)) {
        return Err(error);
    }
    let going_local = match input.transport {
        Some(transport) => transport == Transport::Local,
        None => false,
    };
    let ssh_address = match &input.ssh_address {
        Some(value) => Some(kept(value)),
        None => if going_local {
            Some(None)
        } else {
            None
        },
    };
    let ssh_key_ref = match &input.ssh_key_ref {
        Some(value) => Some(kept(value)),
        None => if going_local {
            Some(None)
        } else {
            None
        },
    };
    let ssh_host_key = match &input.ssh_host_key {
        Some(value) => Some(kept(value)),
        None => if going_local {
            Some(None)
        } else {
            match &ssh_address {
                Some(address) => if !same_opt(address, &current.ssh_address) {
                    Some(None)
                } else {
                    None
                },
                None => None,
            }
        },
    };
    let disabled_at = match input.disabled {
        Some(disabled) => if disabled {
            Some(Some(now))
        } else {
            Some(None)
        },
        None => None,
    };
    Ok(
        UpdateHost {
            name: trim_opt(&input.name),
            transport: match input.transport {
                Some(transport) => Some(transport.as_str()),
                None => None,
            },
            exec_mode: match input.exec_mode {
                Some(mode) => Some(mode.as_str()),
                None => None,
            },
            ssh_address,
            ssh_key_ref,
            ssh_host_key,
            docker_endpoint: kept_change(&input.docker_endpoint),
            disabled_at,
            root_path: kept_change(&input.root_path),
            preview_network: None,
        },
    )
}

/// A change that is accepted leaves a row that keeps the rule on addresses: an
/// ssh host has a well-formed one, and nobody else has any.
pub proof fn an_accepted_change_leaves_a_sound_host(
    current: Host,
    input: UpdateHostRequest,
    allow_local_hosts: bool,
)
    requires
        update_refusal(current, input, allow_local_hosts) is None,
    ensures
        ({
            let address = after(
                address_column(input.transport, changed(input.ssh_address)),
                opt(current.ssh_address),
            );
            if transport_after(current, input) == Transport::Ssh {
                !unset(address) && address_refusal(address->0) is None
            } else {
                unset(address)
            }
        }),
{
}

/// Going local is not held against what a host has stored as an ssh one: a
/// change that asks for nothing else is accepted where local hosts are, and
/// leaves no address, no key and no host key.
pub proof fn going_local_clears_the_ssh_configuration(
    current: Host,
    input: UpdateHostRequest,
    allow_local_hosts: bool,
)
    requires
        input.transport == Some(Transport::Local),
        input.name is None,
        input.root_path is None,
        input.ssh_address is None,
        input.ssh_key_ref is None,
        input.ssh_host_key is None,
        allow_local_hosts || current.reached_by(Transport::Local),
    ensures
        update_refusal(current, input, allow_local_hosts) is None,
        address_column(input.transport, changed(input.ssh_address)) == Some(None::<Seq<char>>),
        address_column(input.transport, changed(input.ssh_key_ref)) == Some(None::<Seq<char>>),
        host_key_column(current, input) == Some(None::<Seq<char>>),
{
}

/// A host that changes address never keeps the fingerprint of the machine it
/// was: the key is the submitted one, or none.
pub proof fn a_moved_host_is_not_trusted_by_its_old_key(current: Host, input: UpdateHostRequest)
    requires
        after(
            address_column(input.transport, changed(input.ssh_address)),
            opt(current.ssh_address),
        ) != opt(current.ssh_address),
    ensures
        after(host_key_column(current, input), opt(current.ssh_host_key)) == match changed(
            input.ssh_host_key,
        ) {
            Some(submitted) => submitted,
            None => None,
        },
{
}

// ---------------------------------------------------------------------------
// Responses
// ---------------------------------------------------------------------------

#[derive(Debug)]
pub struct ContainerResponse {
    pub id: u128,
    pub host_id: u128,
    pub container_ref: String,
    pub name: Option<String>,
    pub root_path: String,
    pub created_at: i64,
    pub unregistered_at: Option<i64>,
    /// Whether faber created this container: unregistering a managed one can
    /// also destroy it, and unregistering a registered one never can.
    pub managed: bool,
    pub managed_at: Option<i64>,
    pub image_id: Option<u128>,
}

impl ContainerResponse {
    /// Whether this shows `c`.
    pub open spec fn shows(&self, c: HostContainer) -> bool {
        &&& self.id == c.id
        &&& self.host_id == c.host_id
        &&& self.container_ref@ == c.container_ref@
        &&& opt(self.name) == opt(c.name)
        &&& self.root_path@ == c.root_path@
        &&& self.created_at == c.created_at
        &&& self.unregistered_at == c.unregistered_at
        &&& self.managed == (c.managed_at is Some)
        &&& self.managed_at == c.managed_at
        &&& self.image_id == c.image_id
    }
}

pub fn container_response(c: &HostContainer) -> (r: ContainerResponse)
    ensures
        r.shows(*c),
{
    ContainerResponse {
        id: c.id,
        host_id: c.host_id,
        container_ref: c.container_ref.clone(),
        name: copy_opt(&c.name),
        root_path: c.root_path.clone(),
        created_at: c.created_at,
        unregistered_at: c.unregistered_at,
        managed: c.managed(),
        managed_at: c.managed_at,
        image_id: c.image_id,
    }
}

#[derive(Debug)]
pub struct ProbeResponse {
    pub id: u128,
    pub host_id: u128,
    pub container_id: Option<u128>,
    pub probed_at: i64,
    pub ok: bool,
    pub error: Option<String>,
    pub os: Option<String>,
    pub arch: Option<String>,
    pub shell: Option<String>,
    pub tools: Option<Json>,
    pub root_path: Option<String>,
}

impl ProbeResponse {
    /// Whether this shows `p`.
    pub open spec fn shows(&self, p: HostProbe) -> bool {
        &&& self.id == p.id
        &&& self.host_id == p.host_id
        &&& self.container_id == p.container_id
        &&& self.probed_at == p.probed_at
        &&& self.ok == p.ok
        &&& opt(self.error) == opt(p.error)
        &&& opt(self.os) == opt(p.os)
        &&& opt(self.arch) == opt(p.arch)
        &&& opt(self.shell) == opt(p.shell)
        &&& opt_json(self.tools) == opt_json(p.tools)
        &&& opt(self.root_path) == opt(p.root_path)
    }
}

pub fn probe_response(p: &HostProbe) -> (r: ProbeResponse)
    ensures
        r.shows(*p),
{
    ProbeResponse {
        id: p.id,
        host_id: p.host_id,
        container_id: p.container_id,
        probed_at: p.probed_at,
        ok: p.ok,
        error: copy_opt(&p.error),
        os: copy_opt(&p.os),
        arch: copy_opt(&p.arch),
        shell: copy_opt(&p.shell),
        tools: copy_opt_json(&p.tools),
        root_path: copy_opt(&p.root_path),
    }
}

#[derive(Debug)]
pub struct HostResponse {
    pub id: u128,
    pub name: String,
    pub transport: String,
    pub exec_mode: String,
    pub ssh_address: Option<String>,
    pub ssh_key_ref: Option<String>,
    pub ssh_host_key: Option<String>,
    pub docker_endpoint: Option<String>,
    pub root_path: Option<String>,
    pub created_at: i64,
    pub disabled_at: Option<i64>,
    /// Registrations that have not been unregistered, oldest first.
    pub containers: Vec<ContainerResponse>,
    /// The most recent observation. It describes a past attempt, not present
    /// reachability.
    pub last_probe: Option<ProbeResponse>,
}

impl HostResponse {
    /// Whether this shows the columns of `h`.
    pub open spec fn shows(&self, h: Host) -> bool {
        &&& self.id == h.id
        &&& self.name@ == h.name@
        &&& self.transport@ == h.transport@
        &&& self.exec_mode@ == h.exec_mode@
        &&& opt(self.ssh_address) == opt(h.ssh_address)
        &&& opt(self.ssh_key_ref) == opt(h.ssh_key_ref)
        &&& opt(self.ssh_host_key) == opt(h.ssh_host_key)
        &&& opt(self.docker_endpoint) == opt(h.docker_endpoint)
        &&& opt(self.root_path) == opt(h.root_path)
        &&& self.created_at == h.created_at
        &&& self.disabled_at == h.disabled_at
    }
}

pub fn host_response(
    h: &Host,
    containers: Vec<ContainerResponse>,
    last_probe: Option<ProbeResponse>,
) -> (r: HostResponse)
    ensures
        r.shows(*h),
        r.containers == containers,
        r.last_probe == last_probe,
{
    HostResponse {
        id: h.id,
        name: h.name.clone(),
        transport: h.transport.clone(),
        exec_mode: h.exec_mode.clone(),
        ssh_address: copy_opt(&h.ssh_address),
        ssh_key_ref: copy_opt(&h.ssh_key_ref),
        ssh_host_key: copy_opt(&h.ssh_host_key),
        docker_endpoint: copy_opt(&h.docker_endpoint),
        root_path: copy_opt(&h.root_path),
        created_at: h.created_at,
        disabled_at: h.disabled_at,
        containers,
        last_probe,
    }
}

/// The containers of one host, in order.
pub open spec fn containers_on(containers: Seq<HostContainer>, host_id: u128) -> Seq<HostContainer>
    decreases containers.len(),
{
    if containers.len() == 0 {
        Seq::empty()
    } else {
        let before = containers_on(containers.drop_last(), host_id);
        if containers.last().host_id == host_id {
            before.push(containers.last())
        } else {
            before
        }
    }
}

/// Whether a list of responses shows a list of containers, one for one.
pub open spec fn show_all(
    responses: Seq<ContainerResponse>,
    containers: Seq<HostContainer>,
) -> bool {
    &&& responses.len() == containers.len()
    &&& forall|i: int|
        0 <= i < responses.len() ==> (#[trigger] responses[i]).shows(containers[i])
}

/// Whether a response shows the first probe of a host, where there is one.
pub open spec fn shows_first_probe(
    response: Option<ProbeResponse>,
    probes: Seq<HostProbe>,
    host_id: u128,
) -> bool
    decreases probes.len(),
{
    if probes.len() == 0 {
        response is None
    } else if probes[0].host_id == host_id {
        response is Some && response->0.shows(probes[0])
    } else {
        shows_first_probe(response, probes.drop_first(), host_id)
    }
}

fn responses_on(containers: &Vec<HostContainer>, host_id: u128) -> (r: Vec<ContainerResponse>)
    ensures
        show_all(r@, containers_on(containers@, host_id)),
{
    let mut responses: Vec<ContainerResponse> = Vec::new();
    let mut i: usize = 0;
    assert(containers@.take(0) =~= Seq::empty());
    while i < containers.len()
        invariant
            i <= containers@.len(),
            show_all(responses@, containers_on(containers@.take(i as int), host_id)),
        decreases containers@.len() - i,
    {
        assert(containers@.take(i + 1).drop_last() =~= containers@.take(i as int));
        if containers[i].host_id == host_id {
            responses.push(container_response(&containers[i]));
        }
        i += 1;
    }
    assert(containers@.take(i as int) =~= containers@);
    responses
}

fn first_probe(probes: &Vec<HostProbe>, host_id: u128) -> (r: Option<ProbeResponse>)
    ensures
        shows_first_probe(r, probes@, host_id),
{
    let mut i: usize = 0;
    let ghost all = probes@;
    assert(all.skip(0) =~= all);
    while i < probes.len()
        invariant
            i <= probes@.len(),
            all == probes@,
            forall|response: Option<ProbeResponse>| #[trigger]
                shows_first_probe(response, all.skip(i as int), host_id) ==> shows_first_probe(
                    response,
                    all,
                    host_id,
                ),
        decreases probes@.len() - i,
    {
        assert(all.skip(i as int)[0] == probes@[i as int]);
        if probes[i].host_id == host_id {
            let response = Some(probe_response(&probes[i]));
            assert(shows_first_probe(response, all.skip(i as int), host_id));
            return response;
        }
        proof {
            assert(all.skip(i as int).drop_first() =~= all.skip(i + 1));
            assert forall|response: Option<ProbeResponse>| #[trigger]
                shows_first_probe(response, all.skip(i + 1), host_id) implies shows_first_probe(
                response,
                all,
                host_id,
            ) by {
                assert(shows_first_probe(response, all.skip(i as int), host_id));
            }
        }
        i += 1;
    }
    assert(shows_first_probe(None, all.skip(i as int), host_id));
    None
}

/// Every host with its own containers and its own newest probe. `probes` holds
/// at most the newest of each host.
pub fn list(
    hosts: &Vec<Host>,
    containers: &Vec<HostContainer>,
    probes: &Vec<HostProbe>,
) -> (r: Vec<HostResponse>)
    ensures
        r@.len() == hosts@.len(),
        forall|i: int|
            0 <= i < r@.len() ==> (#[trigger] r@[i]).shows(hosts@[i]) && show_all(
                r@[i].containers@,
                containers_on(containers@, hosts@[i].id),
            ) && shows_first_probe(r@[i].last_probe, probes@, hosts@[i].id),
{
    let mut responses: Vec<HostResponse> = Vec::new();
    let mut i: usize = 0;
    while i < hosts.len()
        invariant
            i <= hosts@.len(),
            responses@.len() == i,
            forall|k: int|
                0 <= k < i ==> (#[trigger] responses@[k]).shows(hosts@[k]) && show_all(
                    responses@[k].containers@,
                    containers_on(containers@, hosts@[k].id),
                ) && shows_first_probe(responses@[k].last_probe, probes@, hosts@[k].id),
        decreases hosts@.len() - i,
    {
        let h = &hosts[i];
        responses.push(
            host_response(h, responses_on(containers, h.id), first_probe(probes, h.id)),
        );
        i += 1;
    }
    responses
}

// ---------------------------------------------------------------------------
// Containers
// ---------------------------------------------------------------------------

#[derive(Debug)]
pub struct CreateContainerRequest {
    pub container_ref: String,
    pub name: Option<String>,
    pub root_path: String,
}

/// A container as it is written.
#[derive(Debug)]
pub struct NewHostContainer {
    pub id: u128,
    pub host_id: u128,
    pub user_id: u128,
    pub container_ref: String,
    pub name: Option<String>,
    pub root_path: String,
    pub managed_at: Option<i64>,
    pub image_id: Option<u128>,
}

/// Why a registration is refused before its host is read.
pub open spec fn container_refusal(input: CreateContainerRequest) -> Option<ErrorModel> {
    let root_path = crate::text::trimmed(input.root_path@);
    if crate::text::trimmed(input.container_ref@).len() == 0 {
        Some(ErrorModel::BadRequest("container_ref is required"@))
    } else if root_path.len() == 0 {
        Some(ErrorModel::BadRequest("root_path is required"@))
    } else {
        root_path_refusal(root_path)
    }
}

/// Checks a registration before its host is read.
pub fn check_container(input: &CreateContainerRequest) -> (r: Result<(), AppError>)
    ensures
        refusal(r) == container_refusal(*input),
{
    if trim(input.container_ref.as_str()).is_empty() {
        return Err(bad_request("container_ref is required"));
    }
    let root_path = trim(input.root_path.as_str());
    if root_path.is_empty() {
        return Err(bad_request("root_path is required"));
    }
    validate_host_root(root_path)
}

/// The registration to store. It does not create a container: the row is an
/// assertion that faber knows the ref, not that the ref resolves.
pub fn create_container(input: &CreateContainerRequest, parent: &Host, id: u128, user_id: u128) -> (
    r: Result<NewHostContainer, AppError>)
    ensures
        refusal(r) == if parent.runs(ExecMode::Docker) {
            None
        } else {
            Some(
                ErrorModel::BadRequest(
                    "containers can only be registered on a host whose exec_mode is 'docker'"@,
                ),
            )
        },
        r matches Ok(row) ==> {
            &&& row.id == id
            &&& row.host_id == parent.id
            &&& row.user_id == user_id
            &&& row.container_ref@ == crate::text::trimmed(input.container_ref@)
            &&& opt(row.name) == value_of(opt(input.name))
            &&& row.root_path@ == crate::text::trimmed(input.root_path@)
            &&& row.managed_at is None
            &&& row.image_id is None
        },
{
    if !parent.is_running(ExecMode::Docker) {
        return Err(
            bad_request("containers can only be registered on a host whose exec_mode is 'docker'"),
        );
    }
    Ok(
        NewHostContainer {
            id,
            host_id: parent.id,
            user_id,
            container_ref: trim(input.container_ref.as_str()).to_owned(),
            name: kept(&input.name),
            root_path: trim(input.root_path.as_str()).to_owned(),
            managed_at: None,
            image_id: None,
        },
    )
}

/// What a container that is registered twice is answered with.
pub fn registered(container_ref: &str) -> (r: AppError)
    ensures
        r@ == ErrorModel::BadRequest(
            "'"@ + container_ref@ + "' is already registered on this host"@,
        ),
{
    AppError::BadRequest(join3("'", container_ref, "' is already registered on this host"))
}

#[derive(Debug)]
pub struct UpdateContainerRequest {
    pub container_ref: Option<String>,
    pub name: Option<Option<String>>,
    pub root_path: Option<String>,
    /// `false` re-registers a row that was unregistered earlier.
    pub unregistered: Option<bool>,
}

/// A change to a registration, as it is written.
#[derive(Debug)]
pub struct UpdateHostContainer {
    pub container_ref: Option<String>,
    pub name: Option<Option<String>>,
    pub root_path: Option<String>,
    /// State of the *registration*, not of the container.
    pub unregistered_at: Option<Option<i64>>,
}

/// Why a change to a registration is refused.
pub open spec fn container_change_refusal(input: UpdateContainerRequest) -> Option<ErrorModel> {
    let reference = trimmed_opt(opt(input.container_ref));
    let root_path = trimmed_opt(opt(input.root_path));
    if reference is Some && reference->0.len() == 0 {
        Some(ErrorModel::BadRequest("container_ref cannot be empty"@))
    } else if root_path is Some && root_path->0.len() == 0 {
        Some(ErrorModel::BadRequest("root_path cannot be empty"@))
    } else {
        opt_root_refusal(root_path)
    }
}

/// The change to a registration to store.
pub fn update_container(input: &UpdateContainerRequest, now: i64) -> (r: Result<
    UpdateHostContainer,
    AppError,
>)
    ensures
        refusal(r) == container_change_refusal(*input),
        r matches Ok(patch) ==> {
            &&& opt(patch.container_ref) == trimmed_opt(opt(input.container_ref))
            &&& change(patch.name) == changed(input.name)
            &&& opt(patch.root_path) == trimmed_opt(opt(input.root_path))
            &&& patch.unregistered_at == match input.unregistered {
                Some(true) => Some(Some(now)),
                Some(false) => Some(None),
                None => None,
            }
        },
{
    let container_ref = trim_opt(&input.container_ref);
    if let Some(text) = &container_ref {
        if text.as_str().is_empty() {
            return Err(bad_request("container_ref cannot be empty"));
        }
    }
    let root_path = trim_opt(&input.root_path);
    if let Some(text) = &root_path {
        if text.as_str().is_empty() {
            return Err(bad_request("root_path cannot be empty"));
        }
        if let Err(error) = validate_host_root(text.as_str()) {
            return Err(error);
        }
    }
    let unregistered_at = match input.unregistered {
        Some(unregistered) => if unregistered {
            Some(Some(now))
        } else {
            Some(None)
        },
        None => None,
    };
    Ok(
        UpdateHostContainer {
            container_ref,
            name: kept_change(&input.name),
            root_path,
            unregistered_at,
        },
    )
}

/// Whether a container is destroyed when its registration ends: only when
/// asked, and only one that faber created.
pub fn unregister_container(destroy: bool, current: &HostContainer) -> (r: Result<bool, AppError>)
    ensures
        if destroy && current.managed_at is None {
            refusal(r) == Some(
                ErrorModel::BadRequest(
                    "faber did not create this container, so it will not destroy it; unregister it without `destroy` and remove it yourself"@,
                ),
            )
        } else {
            r == Ok::<bool, AppError>(destroy)
        },
{
    if destroy && !current.managed() {
        return Err(
            bad_request(
                "faber did not create this container, so it will not destroy it; unregister it without `destroy` and remove it yourself",
            ),
        );
    }
    Ok(destroy)
}

// ---------------------------------------------------------------------------
// Spawning
// ---------------------------------------------------------------------------

/// How many seconds the daemon gets to create, start, or remove a container.
pub const DAEMON_TIMEOUT: u64 = 30;

/// How many seconds a pull gets. A first pull of a large image over a slow
/// link is a normal thing rather than a stuck one.
pub const PULL_TIMEOUT: u64 = 600;

/// What faber writes onto every container it creates.
pub const MANAGED_LABEL: &'static str = "dev.faber.managed";

/// The process a spawned container runs. A container exists here to be exec'd
/// into, so it has to stay up.
pub fn idle_command() -> (r: Vec<String>)
    ensures
        crate::text::texts(r@) == seq!["sleep"@, "infinity"@],
{
    let r = vec!["sleep".to_owned(), "infinity".to_owned()];
    assert(crate::text::texts(r@) =~= seq!["sleep"@, "infinity"@]);
    r
}

/// Whether a character can stand in a container's name.
pub open spec fn container_char(c: char) -> bool {
    ascii_alphanumeric(c) || c == '_' || c == '.' || c == '-'
}

/// Whether a character is an ASCII letter or digit.
pub open spec fn ascii_alphanumeric(c: char) -> bool {
    'a' <= c <= 'z' || 'A' <= c <= 'Z' || '0' <= c <= '9'
}

/// Whether the daemon accepts a name: a letter or digit, then letters, digits,
/// `_`, `.` and `-`.
pub open spec fn container_name(name: Seq<char>) -> bool {
    &&& name.len() > 0
    &&& ascii_alphanumeric(name[0])
    &&& forall|i: int| 0 <= i < name.len() ==> container_char(#[trigger] name[i])
}

/// Why a container's name is refused.
pub open spec fn container_name_refusal(name: Seq<char>) -> Option<ErrorModel> {
    if container_name(name) {
        None
    } else {
        Some(
            ErrorModel::BadRequest(
                "a container name must start with a letter or digit and contain only letters, digits, '_', '.', and '-'"@,
            ),
        )
    }
}

fn is_ascii_alphanumeric(c: char) -> (r: bool)
    ensures
        r == ascii_alphanumeric(c),
{
    ('a' <= c && c <= 'z') || ('A' <= c && c <= 'Z') || ('0' <= c && c <= '9')
}

/// Checked here so a bad name is refused by naming the rule rather than by a
/// daemon error relayed through two layers.
pub fn validate_container_name(name: &str) -> (r: Result<(), AppError>)
    ensures
        refusal(r) == container_name_refusal(name@),
{
    let chars = chars_of(name);
    let mut good = chars.len() > 0 && is_ascii_alphanumeric(chars[0]);
    let mut i: usize = 0;
    while good && i < chars.len()
        invariant
            i <= chars@.len(),
            chars@ == name@,
            good ==> name@.len() > 0 && ascii_alphanumeric(name@[0]) && forall|k: int|
                0 <= k < i ==> container_char(#[trigger] name@[k]),
            !good ==> !container_name(name@),
        decreases chars@.len() - i,
    {
        let c = chars[i];
        if !(is_ascii_alphanumeric(c) || c == '_' || c == '.' || c == '-') {
            assert(!container_char(name@[i as int]));
            good = false;
        }
        i += 1;
    }
    if good {
        Ok(())
    } else {
        Err(
            bad_request(
                "a container name must start with a letter or digit and contain only letters, digits, '_', '.', and '-'",
            ),
        )
    }
}

/// The root a spawned container works in: the one asked for, else the
/// template's.
pub open spec fn spawn_root(template: Image, root_path: Option<Seq<char>>) -> Seq<char> {
    match value_of(root_path) {
        Some(path) => path,
        None => template.default_root_path@,
    }
}

/// Why a template cannot be spawned from.
pub open spec fn template_refusal(
    template: Option<Image>,
    root_path: Option<Seq<char>>,
) -> Option<ErrorModel> {
    match template {
        None => Some(ErrorModel::BadRequest("no such image"@)),
        Some(image) => {
            let root = spawn_root(image, root_path);
            if root_path_refusal(root) is Some {
                root_path_refusal(root)
            } else if without_trailing(root, '/').len() == 0 {
                Some(
                    ErrorModel::BadRequest(
                        "root_path cannot be '/' — it is a mount destination, and the daemon will not mount over a container's own root"@,
                    ),
                )
            } else {
                None
            }
        },
    }
}

fn only_slashes(path: &str) -> (r: bool)
    ensures
        r == (without_trailing(path@, '/').len() == 0),
{
    let chars = chars_of(path);
    let mut i: usize = chars.len();
    assert(path@.take(i as int) =~= path@);
    while i > 0
        invariant
            i <= chars@.len(),
            chars@ == path@,
            without_trailing(path@, '/') == without_trailing(path@.take(i as int), '/'),
        decreases i,
    {
        assert(path@.take(i as int).last() == chars@[i - 1]);
        if chars[i - 1] != '/' {
            return false;
        }
        assert(path@.take(i as int).drop_last() =~= path@.take(i - 1));
        i -= 1;
    }
    true
}

/// Resolves a spawn request's template and root path. `template` is the image
/// of that id among the caller's own: letting a spawn bypass it with a raw
/// reference would make the template decorative.
pub fn resolve_template(template: Option<Image>, root_path: &Option<String>) -> (r: Result<
    (Image, String),
    AppError,
>)
    ensures
        refusal(r) == template_refusal(template, opt(*root_path)),
        r matches Ok(found) ==> Some(found.0) == template && found.1@ == spawn_root(
            found.0,
            opt(*root_path),
        ),
{
    let image = match template {
        Some(image) => image,
        None => {
            return Err(bad_request("no such image"));
        },
    };
    let root = match kept(root_path) {
        Some(path) => path,
        None => image.default_root_path.clone(),
    };
    if let Err(error) = validate_host_root(root.as_str()) {
        return Err(error);
    }
    if only_slashes(root.as_str()) {
        return Err(
            bad_request(
                "root_path cannot be '/' — it is a mount destination, and the daemon will not mount over a container's own root",
            ),
        );
    }
    Ok((image, root))
}

/// What a container is spawned with besides its template and its root.
#[derive(Debug)]
pub struct SpawnOptions {
    /// The container's name on the machine, and its label in faber.
    pub name: Option<String>,
    /// Overrides the template's mounts entirely.
    pub mounts: Option<Vec<Mount>>,
    /// Environment for the container's own process.
    pub env: Option<Vec<(String, String)>>,
    /// Overrides [`idle_command`].
    pub command: Option<Vec<String>>,
}

/// What is left to do to spawn a container.
#[derive(Debug)]
pub struct SpawnPlan {
    pub name: String,
    pub command: Vec<String>,
    pub env: Vec<(String, String)>,
    pub mounts: Vec<Mount>,
    pub labels: Vec<(String, String)>,
}

/// The name a container is spawned under: the one asked for, else a fresh one
/// that is unmistakably faber's.
pub open spec fn spawn_name(name: Option<Seq<char>>, fresh: u128) -> Seq<char> {
    match value_of(name) {
        Some(text) => text,
        None => "faber-"@ + hex_digits(fresh as nat, 32),
    }
}

/// A generated name is always one the daemon accepts.
pub proof fn a_fresh_name_is_accepted(fresh: u128)
    ensures
        container_name_refusal(spawn_name(None, fresh)) is None,
{
    reveal_strlit("faber-");
    let digits = hex_digits(fresh as nat, 32);
    let name = "faber-"@ + digits;
    lemma_digits_accepted(fresh as nat, 32);
    assert(name[0] == 'f');
    assert forall|i: int| 0 <= i < name.len() implies container_char(#[trigger] name[i]) by {
        if i >= 6 {
            assert(name[i] == digits[i - 6]);
        } else {
            assert(name[i] == "faber-"@[i]);
        }
    }
}

proof fn lemma_digits_accepted(value: nat, n: nat)
    ensures
        forall|i: int|
            0 <= i < hex_digits(value, n).len() ==> container_char(
                #[trigger] hex_digits(value, n)[i],
            ),
    decreases n,
{
    if n > 0 {
        lemma_digits_accepted(value / 16, (n - 1) as nat);
        let before = hex_digits(value / 16, (n - 1) as nat);
        let now = hex_digits(value, n);
        assert forall|i: int| 0 <= i < now.len() implies container_char(#[trigger] now[i]) by {
            if i < before.len() {
                assert(now[i] == before[i]);
            }
        }
    }
}

/// Why a container cannot be spawned. `defaults` are the template's mounts as
/// they were read, with what was wrong where they could not be: a template
/// whose mounts do not parse is a configuration error the user can see and
/// fix.
pub open spec fn spawn_refusal(
    template: Image,
    options: SpawnOptions,
    defaults: Result<Vec<Mount>, String>,
    fresh: u128,
) -> Option<ErrorModel> {
    if options.mounts is None && defaults is Err {
        Some(
            ErrorModel::BadRequest(
                "image '"@ + template.name@ + "' has default_mounts faber cannot read: "@
                    + defaults->Err_0@,
            ),
        )
    } else {
        container_name_refusal(spawn_name(opt(options.name), fresh))
    }
}

/// Whether `r` answers a spawn whose fresh id is `fresh`.
pub open spec fn spawned_with(
    template: Image,
    options: SpawnOptions,
    defaults: Result<Vec<Mount>, String>,
    fresh: u128,
    r: Result<SpawnPlan, AppError>,
) -> bool {
    &&& refusal(r) == spawn_refusal(template, options, defaults, fresh)
    &&& r matches Ok(plan) ==> {
        &&& plan.name@ == spawn_name(opt(options.name), fresh)
        &&& plan.mounts@ == match options.mounts {
            Some(mounts) => mounts@,
            None => defaults->Ok_0@,
        }
        &&& if options.command is Some && options.command->0@.len() > 0 {
            plan.command@ == options.command->0@
        } else {
            crate::text::texts(plan.command@) == seq!["sleep"@, "infinity"@]
        }
        &&& plan.env@ == match options.env {
            Some(env) => env@,
            None => Seq::empty(),
        }
        &&& pairs(plan.labels@) == seq![
            (MANAGED_LABEL@, "true"@),
            ("dev.faber.image"@, template.name@),
        ]
    }
}

/// What a container is spawned with.
pub fn spawn_plan(
    template: &Image,
    options: SpawnOptions,
    defaults: Result<Vec<Mount>, String>,
    fresh: u128,
) -> (r: Result<SpawnPlan, AppError>)
    ensures
        spawned_with(*template, options, defaults, fresh, r),
{
    let mounts = match options.mounts {
        Some(mounts) => mounts,
        None => match defaults {
            Ok(mounts) => mounts,
            Err(error) => {
                return Err(
                    AppError::BadRequest(
                        join4(
                            "image '",
                            template.name.as_str(),
                            "' has default_mounts faber cannot read: ",
                            error.as_str(),
                        ),
                    ),
                );
            },
        },
    };
    let name = match kept(&options.name) {
        Some(name) => name,
        None => join2("faber-", uuid_digits(fresh).as_str()),
    };
    if let Err(error) = validate_container_name(name.as_str()) {
        return Err(error);
    }
    let command = match options.command {
        Some(command) => if command.len() > 0 {
            command
        } else {
            idle_command()
        },
        None => idle_command(),
    };
    let env = match options.env {
        Some(env) => env,
        None => {
            let none: Vec<(String, String)> = Vec::new();
            assert(none@ =~= Seq::empty());
            none
        },
    };
    let labels = vec![
        (MANAGED_LABEL.to_owned(), "true".to_owned()),
        ("dev.faber.image".to_owned(), template.name.clone()),
    ];
    assert(pairs(labels@) =~= seq![
        (MANAGED_LABEL@, "true"@),
        ("dev.faber.image"@, template.name@),
    ]);
    Ok(SpawnPlan { name, command, env, mounts, labels })
}

/// What a container is spawned with, under a fresh name where none is asked
/// for.
pub fn fresh_spawn_plan(
    template: &Image,
    options: SpawnOptions,
    defaults: Result<Vec<Mount>, String>,
) -> (r: Result<SpawnPlan, AppError>)
    ensures
        exists|fresh: u128| #[trigger] is_version_7(fresh) && spawned_with(*template, options, defaults, fresh, r),
{
    let fresh: u128 = fresh_id();
    spawn_plan(template, options, defaults, fresh)
}

/// The next thing to do for a spawn.
#[derive(Debug)]
pub enum SpawnStep {
    /// Create the container. `pulled` is whether its image was pulled for it.
    Create { pulled: bool },
    /// Pull the image, which the machine does not have yet.
    Pull,
    Start { container: String },
    /// Store the registration.
    Register { container: String },
    /// Remove what was created, and then fail.
    Remove { container: String, error: AppError },
    Failed(AppError),
    Spawned { container: String },
}

/// What a [`SpawnStep`] says.
pub enum StepModel {
    Create { pulled: bool },
    Pull,
    Start { container: Seq<char> },
    Register { container: Seq<char> },
    Remove { container: Seq<char>, error: ErrorModel },
    Failed(ErrorModel),
    Spawned { container: Seq<char> },
}

impl View for SpawnStep {
    type V = StepModel;

    open spec fn view(&self) -> StepModel {
        match *self {
            SpawnStep::Create { pulled } => StepModel::Create { pulled },
            SpawnStep::Pull => StepModel::Pull,
            SpawnStep::Start { container } => StepModel::Start { container: container@ },
            SpawnStep::Register { container } => StepModel::Register { container: container@ },
            SpawnStep::Remove { container, error } => StepModel::Remove {
                container: container@,
                error: error@,
            },
            SpawnStep::Failed(error) => StepModel::Failed(error@),
            SpawnStep::Spawned { container } => StepModel::Spawned { container: container@ },
        }
    }
}

/// What became of the thing that was to do.
#[derive(Debug)]
pub enum SpawnEvent {
    /// The container was created, under this id.
    Created(String),
    Done,
    /// The daemon refused, or could not be reached.
    Fault(Fault),
    /// The row could not be stored.
    Unstored(AppError),
}

/// What a [`SpawnEvent`] says.
pub enum SpawnEventModel {
    Created(Seq<char>),
    Done,
    Fault(FaultModel),
    Unstored(ErrorModel),
}

impl View for SpawnEvent {
    type V = SpawnEventModel;

    open spec fn view(&self) -> SpawnEventModel {
        match *self {
            SpawnEvent::Created(container) => SpawnEventModel::Created(container@),
            SpawnEvent::Done => SpawnEventModel::Done,
            SpawnEvent::Fault(fault) => SpawnEventModel::Fault(fault@),
            SpawnEvent::Unstored(error) => SpawnEventModel::Unstored(error@),
        }
    }
}

/// How a failure is answered.
pub open spec fn failure(event: SpawnEventModel) -> ErrorModel {
    match event {
        SpawnEventModel::Fault(fault) => fault_answer(fault),
        SpawnEventModel::Unstored(error) => error,
        _ => ErrorModel::Internal,
    }
}

/// The next step after an event.
pub open spec fn next_step(step: StepModel, event: SpawnEventModel) -> StepModel {
    match step {
        StepModel::Create { pulled } => match event {
            SpawnEventModel::Created(container) => StepModel::Start { container },
            SpawnEventModel::Fault(FaultModel::Denied(DenialModel::NotFound { .. })) => if pulled {
                StepModel::Failed(failure(event))
            } else {
                StepModel::Pull
            },
            _ => StepModel::Failed(failure(event)),
        },
        StepModel::Pull => match event {
            SpawnEventModel::Done => StepModel::Create { pulled: true },
            _ => StepModel::Failed(failure(event)),
        },
        StepModel::Start { container } => match event {
            SpawnEventModel::Done => StepModel::Register { container },
            _ => StepModel::Remove { container, error: failure(event) },
        },
        StepModel::Register { container } => match event {
            SpawnEventModel::Done => StepModel::Spawned { container },
            _ => StepModel::Remove { container, error: failure(event) },
        },
        StepModel::Remove { error, .. } => StepModel::Failed(error),
        StepModel::Failed(error) => StepModel::Failed(error),
        StepModel::Spawned { container } => StepModel::Spawned { container },
    }
}

fn failure_of(event: SpawnEvent) -> (r: AppError)
    ensures
        r@ == failure(event@),
{
    match event {
        SpawnEvent::Fault(cause) => fault(cause),
        SpawnEvent::Unstored(error) => error,
        _ => AppError::Internal,
    }
}

/// Takes a spawn one step further. The registration is written *after* the
/// container exists, and the container is removed again if anything after its
/// creation fails: the alternative is a container on a user's machine that
/// faber created and has no record of.
///
/// An image that is not on the machine is pulled and the creation retried
/// once: a second failure is about the reference or the registry.
pub fn spawn_container(step: SpawnStep, event: SpawnEvent) -> (r: SpawnStep)
    ensures
        r@ == next_step(step@, event@),
{
    match step {
        SpawnStep::Create { pulled } => {
            if let SpawnEvent::Created(container) = event {
                return SpawnStep::Start { container };
            }
            if let SpawnEvent::Fault(Fault::Denied(Denial::NotFound { .. })) = &event {
                if !pulled {
                    return SpawnStep::Pull;
                }
            }
            SpawnStep::Failed(failure_of(event))
        },
        SpawnStep::Pull => match event {
            SpawnEvent::Done => SpawnStep::Create { pulled: true },
            other => SpawnStep::Failed(failure_of(other)),
        },
        SpawnStep::Start { container } => match event {
            SpawnEvent::Done => SpawnStep::Register { container },
            other => SpawnStep::Remove { container, error: failure_of(other) },
        },
        SpawnStep::Register { container } => match event {
            SpawnEvent::Done => SpawnStep::Spawned { container },
            other => SpawnStep::Remove { container, error: failure_of(other) },
        },
        SpawnStep::Remove { error, .. } => SpawnStep::Failed(error),
        SpawnStep::Failed(error) => SpawnStep::Failed(error),
        SpawnStep::Spawned { container } => SpawnStep::Spawned { container },
    }
}

/// The steps of a spawn, from the first, as the events come in.
pub open spec fn spawn_steps(events: Seq<SpawnEventModel>) -> Seq<StepModel>
    decreases events.len(),
{
    if events.len() == 0 {
        seq![StepModel::Create { pulled: false }]
    } else {
        let before = spawn_steps(events.drop_last());
        before.push(next_step(before.last(), events.last()))
    }
}

/// The container that a step still has to see through.
pub open spec fn in_hand(step: StepModel) -> Option<Seq<char>> {
    match step {
        StepModel::Start { container } => Some(container),
        StepModel::Register { container } => Some(container),
        StepModel::Remove { container, .. } => Some(container),
        _ => None,
    }
}

/// A container that was created is registered or removed before a spawn comes
/// to rest: a step that has one in hand leads to one that has the same one in
/// hand, to its registration, or, by its removal alone, to failure.
pub proof fn no_container_is_left_behind(step: StepModel, event: SpawnEventModel)
    requires
        in_hand(step) is Some,
    ensures
        ({
            let next = next_step(step, event);
            ||| in_hand(next) == in_hand(step)
            ||| next == (StepModel::Spawned { container: in_hand(step)->0 })
            ||| step is Remove && next is Failed
        }),
{
}

/// How far a spawn is from its end.
pub open spec fn steps_left(step: StepModel) -> nat {
    match step {
        StepModel::Create { pulled } => if pulled {
            4
        } else {
            6
        },
        StepModel::Pull => 5,
        StepModel::Start { .. } => 3,
        StepModel::Register { .. } => 2,
        StepModel::Remove { .. } => 1,
        StepModel::Failed(_) => 0,
        StepModel::Spawned { .. } => 0,
    }
}

/// A spawn always comes to rest, with at most one pull and two creations.
pub proof fn a_spawn_ends(step: StepModel, event: SpawnEventModel)
    ensures
        steps_left(step) > 0 ==> steps_left(next_step(step, event)) < steps_left(step),
        steps_left(step) == 0 ==> next_step(step, event) == step,
{
}

/// However a spawn goes, it has come to rest after six events.
pub proof fn a_spawn_rests(events: Seq<SpawnEventModel>)
    ensures
        spawn_steps(events).len() == events.len() + 1,
        steps_left(spawn_steps(events).last()) == 0 || steps_left(spawn_steps(events).last())
            + events.len() <= 6,
    decreases events.len(),
{
    if events.len() > 0 {
        a_spawn_rests(events.drop_last());
        a_spawn_ends(spawn_steps(events.drop_last()).last(), events.last());
    }
}

/// The fault that a daemon call ends in when it takes too long. Nothing is
/// known about whether the request was malformed, so it is unreachable.
pub fn timed_out(seconds: u64) -> (r: Fault)
    ensures
        r@ == FaultModel::Unreachable(
            "the docker daemon did not answer within "@ + decimal(seconds as nat) + "s"@,
        ),
{
    Fault::Unreachable(
        join3("the docker daemon did not answer within ", decimal_of(seconds).as_str(), "s"),
    )
}

/// The registration of a spawned container. The id rather than the name: it is
/// what the daemon resolves unambiguously.
pub fn managed_container(
    id: u128,
    parent: &Host,
    user_id: u128,
    container: String,
    name: String,
    root_path: String,
    template: &Image,
    now: i64,
) -> (r: NewHostContainer)
    ensures
        r.id == id,
        r.host_id == parent.id,
        r.user_id == user_id,
        r.container_ref@ == container@,
        opt(r.name) == Some(name@),
        r.root_path@ == root_path@,
        r.managed_at == Some(now),
        r.image_id == Some(template.id),
{
    NewHostContainer {
        id,
        host_id: parent.id,
        user_id,
        container_ref: container,
        name: Some(name),
        root_path,
        managed_at: Some(now),
        image_id: Some(template.id),
    }
}

// ---------------------------------------------------------------------------
// Probes
// ---------------------------------------------------------------------------

#[derive(Debug)]
pub struct RecordProbeRequest {
    /// Scopes the observation to one registered container on this host.
    pub container_id: Option<u128>,
    pub ok: bool,
    pub error: Option<String>,
    pub os: Option<String>,
    pub arch: Option<String>,
    pub shell: Option<String>,
    pub tools: Option<Json>,
    pub root_path: Option<String>,
}

/// An observation as it is written.
#[derive(Debug)]
pub struct NewHostProbe {
    pub id: u128,
    pub host_id: u128,
    pub container_id: Option<u128>,
    pub ok: bool,
    pub error: Option<String>,
    pub os: Option<String>,
    pub arch: Option<String>,
    pub shell: Option<String>,
    pub tools: Option<Json>,
    pub root_path: Option<String>,
}

/// Checks an observation before any row is read: a failure says why.
pub fn check_probe(input: &RecordProbeRequest) -> (r: Result<(), AppError>)
    ensures
        refusal(r) == if !input.ok && value_of(opt(input.error)) is None {
            Some(ErrorModel::BadRequest("error is required when ok is false"@))
        } else {
            None
        },
{
    if !input.ok && kept(&input.error).is_none() {
        return Err(bad_request("error is required when ok is false"));
    }
    Ok(())
}

/// The observation to store. `container_host` is the host of the container
/// that the observation is scoped to.
pub fn record_probe(
    input: RecordProbeRequest,
    parent: &Host,
    container_host: Option<u128>,
    id: u128,
) -> (r: Result<NewHostProbe, AppError>)
    ensures
        refusal(r) == if container_host is Some && container_host->0 != parent.id {
            Some(ErrorModel::BadRequest("container_id names a container on a different host"@))
        } else {
            None
        },
        r matches Ok(probe) ==> {
            &&& probe.id == id
            &&& probe.host_id == parent.id
            &&& probe.container_id == input.container_id
            &&& probe.ok == input.ok
            &&& opt(probe.error) == value_of(opt(input.error))
            &&& opt(probe.os) == value_of(opt(input.os))
            &&& opt(probe.arch) == value_of(opt(input.arch))
            &&& opt(probe.shell) == value_of(opt(input.shell))
            &&& opt_json(probe.tools) == opt_json(input.tools)
            &&& opt(probe.root_path) == value_of(opt(input.root_path))
        },
{
    if let Some(host_id) = container_host {
        if host_id != parent.id {
            return Err(bad_request("container_id names a container on a different host"));
        }
    }
    Ok(
        NewHostProbe {
            id,
            host_id: parent.id,
            container_id: input.container_id,
            ok: input.ok,
            error: kept(&input.error),
            os: kept(&input.os),
            arch: kept(&input.arch),
            shell: kept(&input.shell),
            tools: input.tools,
            root_path: kept(&input.root_path),
        },
    )
}

// ---------------------------------------------------------------------------
// What is accepted
// ---------------------------------------------------------------------------

/// A name has between 1 and 100 characters.
pub proof fn a_name_fits_its_column(name: Seq<char>)
    ensures
        name_refusal(name) is None <==> 1 <= name.len() <= 100,
        name.len() == 0 ==> name_refusal(name) == Some(ErrorModel::BadRequest("name is required"@)),
        name.len() > 100 ==> name_refusal(name) == Some(
            ErrorModel::BadRequest("name must be 100 characters or fewer"@),
        ),
{
}

/// An address is a user, an `@`, a host, a `:` and a port, and it is accepted
/// just where there is a user and the port is a number from 1 to 65535. The
/// first `@` ends the user, and the last `:` starts the port.
pub proof fn an_address_names_a_user_a_host_and_a_port(
    user: Seq<char>,
    host: Seq<char>,
    port: Seq<char>,
)
    requires
        !user.contains('@'),
        !port.contains(':'),
        port.len() > 0,
    ensures
        address_refusal(user + seq!['@'] + host + seq![':'] + port) is None <==> user.len() > 0 && (
        u16_value(port) matches Some(number) && 1 <= number <= 65535),
{
    let address = user + seq!['@'] + host + seq![':'] + port;
    let rest = host + seq![':'] + port;
    lemma_first_index(address, '@');
    let at = first_index(address, '@');
    assert(address[user.len() as int] == '@');
    if at < user.len() {
        assert(address[at] == user[at]);
        assert(user.contains(user[at]));
    }
    assert(at == user.len());
    assert(address.skip(at + 1) =~= rest);
    lemma_last_index(rest, ':');
    let colon = last_index(rest, ':');
    assert(rest[host.len() as int] == ':');
    if colon > host.len() {
        assert(rest[colon] == port[colon - host.len() - 1]);
        assert(port.contains(port[colon - host.len() - 1]));
    }
    assert(colon == host.len());
    assert(rest.skip(colon + 1) =~= port);
}

/// A text that names no user, or no port behind it, is no address.
pub proof fn an_address_without_its_parts_is_refused(user: Seq<char>, rest: Seq<char>)
    requires
        !user.contains('@'),
    ensures
        address_refusal(user) is Some,
        !rest.contains(':') ==> address_refusal(user + seq!['@'] + rest) is Some,
        rest.len() > 0 && rest.last() == ':' ==> address_refusal(
            user + seq!['@'] + rest,
        ) is Some,
{
    lemma_first_index(user, '@');
    let at = first_index(user, '@');
    if at < user.len() {
        assert(user.contains(user[at]));
    }
    let address = user + seq!['@'] + rest;
    lemma_first_index(address, '@');
    let at = first_index(address, '@');
    assert(address[user.len() as int] == '@');
    if at < user.len() {
        assert(address[at] == user[at]);
        assert(user.contains(user[at]));
    }
    assert(address.skip(at + 1) =~= rest);
    lemma_last_index(rest, ':');
    let colon = last_index(rest, ':');
    if colon >= 0 {
        assert(rest.contains(rest[colon]));
    }
}

/// An ssh host needs an address that is one; nobody else may carry an address
/// or a host key; and a local host is taken only where local hosts are.
pub proof fn a_transport_carries_what_it_needs(
    address: Option<Seq<char>>,
    key: Option<Seq<char>>,
    allowed: bool,
)
    ensures
        transport_refusal(Transport::Ssh, address, key, allowed) is None <==> (address matches Some(
            text,
        ) && text.len() > 0 && address_refusal(text) is None),
        transport_refusal(Transport::Agent, address, key, allowed) is None <==> unset(address)
            && unset(key),
        transport_refusal(Transport::Local, address, key, allowed) is None <==> allowed && unset(
            address,
        ) && unset(key),
        unset(None),
        forall|text: Seq<char>| #[trigger] unset(Some(text)) <==> text.len() == 0,
{
}

/// A daemon's address is a socket's or a port's, and only a host that runs
/// containers on this machine must give one; a host that runs none may carry
/// anything.
pub proof fn a_daemon_is_named_by_its_address(
    transport: Transport,
    path: Seq<char>,
    other: Seq<char>,
)
    ensures
        endpoint_refusal(transport, ExecMode::Docker, Some("unix://"@ + path)) is None,
        endpoint_refusal(transport, ExecMode::Docker, Some("tcp://"@ + path)) is None,
        endpoint_refusal(transport, ExecMode::Docker, None) is None <==> transport
            != Transport::Local,
        other.len() > 0 && other[0] != 'u' && other[0] != 't' ==> endpoint_refusal(
            transport,
            ExecMode::Docker,
            Some(other),
        ) is Some,
        endpoint_refusal(transport, ExecMode::Direct, Some(other)) is None,
        endpoint_refusal(transport, ExecMode::Direct, None) is None,
{
    reveal_strlit("unix://");
    reveal_strlit("tcp://");
    let unix = "unix://"@ + path;
    let tcp = "tcp://"@ + path;
    assert(unix.subrange(0, 7) =~= "unix://"@);
    assert(tcp.subrange(0, 6) =~= "tcp://"@);
    if "unix://"@.is_prefix_of(other) {
        assert(other.subrange(0, 7)[0] == other[0]);
    }
    if "tcp://"@.is_prefix_of(other) {
        assert(other.subrange(0, 6)[0] == other[0]);
    }
}

/// A root is absolute: it starts with a separator.
pub proof fn a_root_is_absolute(root: Seq<char>)
    ensures
        root_path_refusal(root) is None <==> root.len() > 0 && root[0] == '/',
        opt_root_refusal(Some(root)) == root_path_refusal(root),
        opt_root_refusal(None) is None,
{
    reveal_strlit("/");
    if root.len() > 0 && root[0] == '/' {
        assert(root.subrange(0, 1) =~= "/"@);
    }
    if "/"@.is_prefix_of(root) {
        assert(root.subrange(0, 1)[0] == '/');
    }
}

/// The white space around a submitted text is not part of it, and a text of
/// nothing else is no value; what stands inside is kept.
pub proof fn a_value_is_what_stands_between_the_white(
    before: Seq<char>,
    core: Seq<char>,
    after: Seq<char>,
)
    requires
        crate::text::all_white(before),
        crate::text::all_white(after),
        core.len() > 0 ==> !crate::text::is_white(core[0]) && !crate::text::is_white(core.last()),
    ensures
        value_of(Some(before + core + after)) == if core.len() > 0 {
            Some(core)
        } else {
            None
        },
        value_of(None) is None,
{
    crate::text::trimming_leaves_the_core(before, core, after);
}

/// A host is accepted just where its name, its transport, its root and its
/// daemon are.
pub proof fn a_host_is_accepted_part_by_part(input: CreateHostRequest, allowed: bool)
    ensures
        create_refusal(input, allowed) is None <==> {
            &&& 1 <= crate::text::trimmed(input.name@).len() <= 100
            &&& transport_refusal(
                input.transport,
                value_of(opt(input.ssh_address)),
                value_of(opt(input.ssh_host_key)),
                allowed,
            ) is None
            &&& value_of(opt(input.root_path)) matches Some(root) ==> root_path_refusal(
                root,
            ) is None
            &&& endpoint_refusal(
                input.transport,
                input.exec_mode,
                value_of(opt(input.docker_endpoint)),
            ) is None
        },
{
}

/// What a change says of a field is what the field becomes: cleared where it is
/// cleared, and what it was where nothing is said of it.
pub proof fn a_field_becomes_what_is_said_of_it(
    text: String,
    current: Option<Seq<char>>,
    transport: Transport,
)
    requires
        crate::text::trimmed(text@).len() > 0,
    ensures
        after(changed(Some(Some(text))), current) == Some(crate::text::trimmed(text@)),
        after(changed(Some(None)), current) is None,
        after(changed(None), current) == current,
        after(address_column(Some(transport), changed(Some(Some(text)))), current) == Some(
            crate::text::trimmed(text@),
        ),
        after(address_column(Some(transport), changed(None)), current) == if transport
            == Transport::Local {
            None
        } else {
            current
        },
        after(address_column(None, changed(None)), current) == current,
{
}

/// A host that is not moved to another transport or mode keeps the one that is
/// stored, and one that is moved has the one it is moved to.
pub proof fn a_host_stays_as_it_is_reached(
    current: Host,
    input: UpdateHostRequest,
    transport: Transport,
    mode: ExecMode,
)
    requires
        current.transport@ == transport.text(),
        current.exec_mode@ == mode.text(),
    ensures
        transport_after(current, input) == match input.transport {
            Some(asked) => asked,
            None => transport,
        },
        mode_after(current, input) == match input.exec_mode {
            Some(asked) => asked,
            None => mode,
        },
{
    crate::models::host::transport_names_are_distinct(transport, Transport::Ssh);
    crate::models::host::transport_names_are_distinct(transport, Transport::Agent);
    crate::models::host::exec_mode_names_are_distinct(mode, ExecMode::Docker);
}

/// A change to an ssh host that moves nothing keeps the fingerprint that is
/// stored, and is accepted wherever the stored address is one.
pub proof fn an_unmoved_host_keeps_its_key(
    current: Host,
    input: UpdateHostRequest,
    allowed: bool,
)
    requires
        current.transport@ == Transport::Ssh.text(),
        input.transport is None,
        input.ssh_address is None || change(input.ssh_address) == Some(opt(current.ssh_address)),
        current.ssh_address matches Some(address) ==> crate::text::trimmed(address@) == address@,
        input.ssh_host_key is None,
        input.name is None,
        input.root_path is None,
        current.ssh_address is Some,
        current.ssh_address->0@.len() > 0,
        address_refusal(current.ssh_address->0@) is None,
    ensures
        update_refusal(current, input, allowed) is None,
        after(host_key_column(current, input), opt(current.ssh_host_key)) == opt(
            current.ssh_host_key,
        ),
{
}

/// A response shows the columns of its row, each under its own name.
pub proof fn a_response_shows_its_row(
    response: ContainerResponse,
    container: HostContainer,
    observed: ProbeResponse,
    probe: HostProbe,
    shown: HostResponse,
    host: Host,
)
    ensures
        response.shows(container) ==> {
            &&& response.id == container.id && response.host_id == container.host_id
            &&& response.container_ref@ == container.container_ref@
            &&& opt(response.name) == opt(container.name)
            &&& response.root_path@ == container.root_path@
            &&& response.created_at == container.created_at
            &&& response.unregistered_at == container.unregistered_at
            &&& response.managed_at == container.managed_at
            &&& response.managed <==> container.managed_at is Some
            &&& response.image_id == container.image_id
        },
        observed.shows(probe) ==> {
            &&& observed.id == probe.id && observed.host_id == probe.host_id
            &&& observed.container_id == probe.container_id
            &&& observed.probed_at == probe.probed_at && observed.ok == probe.ok
            &&& opt(observed.error) == opt(probe.error)
            &&& opt(observed.os) == opt(probe.os) && opt(observed.arch) == opt(probe.arch)
            &&& opt(observed.shell) == opt(probe.shell)
            &&& opt_json(observed.tools) == opt_json(probe.tools)
            &&& opt(observed.root_path) == opt(probe.root_path)
        },
        shown.shows(host) ==> {
            &&& shown.id == host.id && shown.name@ == host.name@
            &&& shown.transport@ == host.transport@ && shown.exec_mode@ == host.exec_mode@
            &&& opt(shown.ssh_address) == opt(host.ssh_address)
            &&& opt(shown.ssh_key_ref) == opt(host.ssh_key_ref)
            &&& opt(shown.ssh_host_key) == opt(host.ssh_host_key)
            &&& opt(shown.docker_endpoint) == opt(host.docker_endpoint)
            &&& opt(shown.root_path) == opt(host.root_path)
            &&& shown.created_at == host.created_at && shown.disabled_at == host.disabled_at
        },
{
}

/// A host is shown with every container of its own, in their order, and with no
/// other's.
pub proof fn a_host_is_shown_with_its_own_containers(
    containers: Seq<HostContainer>,
    container: HostContainer,
    host_id: u128,
)
    ensures
        containers_on(Seq::empty(), host_id).len() == 0,
        containers_on(containers.push(container), host_id) == if container.host_id == host_id {
            containers_on(containers, host_id).push(container)
        } else {
            containers_on(containers, host_id)
        },
{
    assert(containers.push(container).drop_last() =~= containers);
}

/// A host is shown with the first of the probes that are its own, whatever
/// other hosts' stand ahead of it, and with none where none is.
pub proof fn a_host_is_shown_with_its_own_probe(
    response: Option<ProbeResponse>,
    ahead: Seq<HostProbe>,
    probe: HostProbe,
    behind: Seq<HostProbe>,
    host_id: u128,
)
    requires
        forall|i: int| 0 <= i < ahead.len() ==> (#[trigger] ahead[i]).host_id != host_id,
        probe.host_id == host_id,
    ensures
        shows_first_probe(response, ahead + seq![probe] + behind, host_id) <==> (
        response matches Some(shown) && shown.shows(probe)),
        shows_first_probe(response, ahead, host_id) <==> response is None,
    decreases ahead.len(),
{
    let probes = ahead + seq![probe] + behind;
    if ahead.len() == 0 {
        assert(probes[0] == probe);
    } else {
        let rest = ahead.drop_first();
        assert(probes[0] == ahead[0]);
        assert(probes.drop_first() =~= rest + seq![probe] + behind);
        assert forall|i: int| 0 <= i < rest.len() implies (#[trigger] rest[i]).host_id
            != host_id by {
            assert(rest[i] == ahead[i + 1]);
        }
        a_host_is_shown_with_its_own_probe(response, rest, probe, behind, host_id);
    }
}

/// A registration is accepted just where it names a container and an absolute
/// root; a change to one, where what it sets does.
pub proof fn a_registration_is_accepted_part_by_part(
    input: CreateContainerRequest,
    patch: UpdateContainerRequest,
)
    ensures
        container_refusal(input) is None <==> {
            let root = crate::text::trimmed(input.root_path@);
            crate::text::trimmed(input.container_ref@).len() > 0 && root.len() > 0 && root[0] == '/'
        },
        container_change_refusal(patch) is None <==> {
            &&& patch.container_ref matches Some(text) ==> crate::text::trimmed(text@).len() > 0
            &&& patch.root_path matches Some(text) ==> crate::text::trimmed(text@).len() > 0
                && crate::text::trimmed(text@)[0] == '/'
        },
{
    a_root_is_absolute(crate::text::trimmed(input.root_path@));
    if let Some(text) = patch.root_path {
        a_root_is_absolute(crate::text::trimmed(text@));
    }
}

/// A container's name is a letter or digit and then letters, digits, `_`, `.`
/// and `-`; one more of those keeps it a name, and anything else does not.
pub proof fn a_container_name_grows_by_its_characters(name: Seq<char>, c: char)
    ensures
        container_name_refusal(Seq::empty()) is Some,
        container_name_refusal(seq![c]) is None <==> 'a' <= c <= 'z' || 'A' <= c <= 'Z' || '0' <= c
            <= '9',
        name.len() > 0 ==> (container_name_refusal(name.push(c)) is None <==>
            container_name_refusal(name) is None && ('a' <= c <= 'z' || 'A' <= c <= 'Z' || '0' <= c
            <= '9' || c == '_' || c == '.' || c == '-')),
{
    let one = seq![c];
    assert(one[0] == c);
    let longer = name.push(c);
    if name.len() > 0 {
        assert(longer[0] == name[0]);
        assert(longer[name.len() as int] == c);
        if container_name(longer) {
            assert forall|i: int| 0 <= i < name.len() implies container_char(
                #[trigger] name[i],
            ) by {
                assert(container_char(longer[i]));
            }
            assert(container_char(longer[name.len() as int]));
        }
    }
}

/// A container works in the root it was asked for, else in its template's; and a
/// template can be spawned from just where that root is absolute and lies below
/// the top.
pub proof fn a_spawn_works_in_its_root(image: Image, root_path: Option<Seq<char>>, root: Seq<char>)
    requires
        root == match value_of(root_path) {
            Some(asked) => asked,
            None => image.default_root_path@,
        },
    ensures
        spawn_root(image, root_path) == root,
        template_refusal(None, root_path) is Some,
        template_refusal(Some(image), root_path) is None <==> {
            &&& root.len() > 0
            &&& root[0] == '/'
            &&& exists|i: int| 0 <= i < root.len() && #[trigger] root[i] != '/'
        },
{
    a_root_is_absolute(root);
    lemma_only_slashes(root);
}

proof fn lemma_only_slashes(path: Seq<char>)
    ensures
        without_trailing(path, '/').len() > 0 <==> exists|i: int|
            0 <= i < path.len() && #[trigger] path[i] != '/',
    decreases path.len(),
{
    if path.len() > 0 {
        let before = path.drop_last();
        lemma_only_slashes(before);
        if path.last() != '/' {
            assert(path[path.len() - 1] != '/');
        } else {
            if exists|i: int| 0 <= i < path.len() && #[trigger] path[i] != '/' {
                let i = choose|i: int| 0 <= i < path.len() && #[trigger] path[i] != '/';
                assert(before[i] != '/');
            }
            if exists|i: int| 0 <= i < before.len() && #[trigger] before[i] != '/' {
                let i = choose|i: int| 0 <= i < before.len() && #[trigger] before[i] != '/';
                assert(path[i] != '/');
            }
        }
    }
}

/// A container is spawned with what it was asked for: under its name, with its
/// own mounts in place of the template's, its environment, its command where
/// there is one, and faber's two labels.
pub proof fn a_container_is_spawned_as_asked(
    template: Image,
    options: SpawnOptions,
    defaults: Result<Vec<Mount>, String>,
    fresh: u128,
    plan: SpawnPlan,
)
    requires
        spawned_with(template, options, defaults, fresh, Ok(plan)),
    ensures
        value_of(opt(options.name)) matches Some(name) ==> plan.name@ == name,
        value_of(opt(options.name)) is None ==> plan.name@ == "faber-"@ + hex_digits(
            fresh as nat,
            32,
        ),
        options.mounts matches Some(mounts) ==> plan.mounts@ == mounts@,
        options.mounts is None ==> (defaults matches Ok(mounts) && plan.mounts@ == mounts@),
        options.env matches Some(env) ==> plan.env@ == env@,
        options.env is None ==> plan.env@.len() == 0,
        options.command matches Some(command) ==> (command@.len() > 0 ==> plan.command@
            == command@),
        options.command is None ==> crate::text::texts(plan.command@) == seq![
            "sleep"@,
            "infinity"@,
        ],
        pairs(plan.labels@) == seq![
            ("dev.faber.managed"@, "true"@),
            ("dev.faber.image"@, template.name@),
        ],
        container_name(plan.name@),
{
}

/// A spawn is refused just where the template's mounts are needed and cannot be
/// read, or the name is none that the daemon accepts.
pub proof fn a_spawn_is_refused_for_a_reason(
    template: Image,
    options: SpawnOptions,
    defaults: Result<Vec<Mount>, String>,
    fresh: u128,
)
    ensures
        spawn_refusal(template, options, defaults, fresh) is None <==> {
            &&& options.mounts is Some || defaults is Ok
            &&& value_of(opt(options.name)) matches Some(name) ==> container_name(name)
        },
{
    a_fresh_name_is_accepted(fresh);
}

/// A container that the daemon created, started and that was stored is spawned,
/// and it is that one; an image that was not there is pulled first.
pub proof fn a_spawn_that_goes_well_is_spawned(container: Seq<char>, path: Seq<char>)
    ensures
        ({
            let missing = SpawnEventModel::Fault(FaultModel::Denied(DenialModel::NotFound { path }));
            let created = SpawnEventModel::Created(container);
            let done = SpawnEventModel::Done;
            let first = StepModel::Create { pulled: false };
            let again = next_step(next_step(first, missing), done);
            let spawned = |step: StepModel|
                next_step(next_step(next_step(step, created), done), done);
            &&& spawned(first) == (StepModel::Spawned { container })
            &&& next_step(first, missing) == StepModel::Pull
            &&& again == (StepModel::Create { pulled: true })
            &&& spawned(again) == (StepModel::Spawned { container })
            &&& next_step(again, missing) is Failed
        }),
{
}

/// A spawn that fails says what went wrong: what the daemon said, or what the
/// table did; and a container that exists by then is removed first.
pub proof fn a_spawn_that_fails_says_why(container: Seq<char>, reason: Seq<char>, error: ErrorModel)
    ensures
        ({
            let away = SpawnEventModel::Fault(FaultModel::Unreachable(reason));
            let unstored = SpawnEventModel::Unstored(error);
            let told = ErrorModel::ServiceUnavailable(reason);
            &&& next_step(StepModel::Create { pulled: false }, away) == StepModel::Failed(told)
            &&& next_step(StepModel::Pull, away) == StepModel::Failed(told)
            &&& next_step(StepModel::Start { container }, away) == (StepModel::Remove {
                container,
                error: told,
            })
            &&& next_step(StepModel::Register { container }, unstored) == (StepModel::Remove {
                container,
                error,
            })
            &&& forall|event: SpawnEventModel| #[trigger]
                next_step(StepModel::Remove { container, error }, event) == StepModel::Failed(error)
        }),
{
}

/// A step and an event say what they hold.
pub proof fn a_step_says_what_it_holds(container: String, error: AppError, cause: Fault)
    ensures
        (SpawnStep::Start { container })@ == (StepModel::Start { container: container@ }),
        (SpawnStep::Register { container })@ == (StepModel::Register { container: container@ }),
        (SpawnStep::Spawned { container })@ == (StepModel::Spawned { container: container@ }),
        (SpawnStep::Remove { container, error })@ == (StepModel::Remove {
            container: container@,
            error: error@,
        }),
        SpawnStep::Failed(error)@ == StepModel::Failed(error@),
        SpawnEvent::Created(container)@ == SpawnEventModel::Created(container@),
        SpawnEvent::Fault(cause)@ == SpawnEventModel::Fault(cause@),
        SpawnEvent::Unstored(error)@ == SpawnEventModel::Unstored(error@),
{
}

/// A list of responses shows a list of containers one for one and in order.
pub proof fn containers_are_shown_one_by_one(
    responses: Seq<ContainerResponse>,
    containers: Seq<HostContainer>,
    i: int,
)
    requires
        show_all(responses, containers),
    ensures
        responses.len() == containers.len(),
        0 <= i < containers.len() ==> responses[i].shows(containers[i]),
{
}

/// The key of an ssh host must be given and be a credential's id.
pub proof fn a_key_is_a_credentials_id(text: Seq<char>, id: Option<u128>)
    ensures
        key_refusal(None, id) is Some,
        key_refusal(Some(text), id) is None <==> id is Some,
{
}

} // verus!
