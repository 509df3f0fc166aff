//! Connect-time resolution of a bound presentation target.
use vstd::prelude::*;
use crate::environment::docker::engine::ContainerNetworks;
use crate::error::{refusal, AppError, ErrorModel, Fault, FaultModel};
use crate::models::host::{ExecMode, Host, HostContainer, Transport};
use crate::text::{
    a_number_reads_back, chars_of, copy_opt, decimal, decimal_of, join3, last_index, lemma_last_index, opt, parse_u16,
    rfind, same, starts_with, u16_value,
};

verus! {

/// For how many milliseconds a container's address is believed.
pub const ADDRESS_TTL: u64 = 5000;

// ---------------------------------------------------------------------------
// Remembered addresses
// ---------------------------------------------------------------------------

/// What an address is remembered under: the container, and the network it was
/// looked up in.
#[derive(Debug)]
pub struct CacheKey {
    pub container_id: u128,
    pub network: Option<String>,
}

impl View for CacheKey {
    type V = (u128, Option<Seq<char>>);

    open spec fn view(&self) -> (u128, Option<Seq<char>>) {
        (self.container_id, opt(self.network))
    }
}

#[derive(Debug)]
struct CachedAddress {
    key: CacheKey,
    address: String,
    inserted: u64,
}

/// The addresses that containers were last seen at, and when. Times are
/// milliseconds of a clock that does not go back.
#[derive(Debug)]
pub struct ContainerAddressCache {
    entries: Vec<CachedAddress>,
}

/// What the entries remember under a key: the newest of them.
closed spec fn lookup(entries: Seq<CachedAddress>, key: (u128, Option<Seq<char>>)) -> Option<
    (Seq<char>, u64),
>
    decreases entries.len(),
{
    if entries.len() == 0 {
        None
    } else if entries.last().key@ == key {
        Some((entries.last().address@, entries.last().inserted))
    } else {
        lookup(entries.drop_last(), key)
    }
}

impl View for ContainerAddressCache {
    type V = Map<(u128, Option<Seq<char>>), (Seq<char>, u64)>;

    closed spec fn view(&self) -> Map<(u128, Option<Seq<char>>), (Seq<char>, u64)> {
        Map::new(
            |key: (u128, Option<Seq<char>>)| lookup(self.entries@, key) is Some,
            |key: (u128, Option<Seq<char>>)| lookup(self.entries@, key)->0,
        )
    }
}

/// What a remembered address is worth at a time: nothing once it is too old.
pub open spec fn believed(entry: (Seq<char>, u64), now: u64) -> Option<Seq<char>> {
    if now < entry.1 || now - entry.1 < ADDRESS_TTL {
        Some(entry.0)
    } else {
        None
    }
}

fn same_key(a: &CacheKey, b: &CacheKey) -> (r: bool)
    ensures
        r == (a@ == b@),
{
    if a.container_id != b.container_id {
        return false;
    }
    match (&a.network, &b.network) {
        (Some(x), Some(y)) => same(x.as_str(), y.as_str()),
        (None, None) => true,
        _ => false,
    }
}

impl ContainerAddressCache {
    pub fn new() -> (r: ContainerAddressCache)
        ensures
            r@ == Map::<(u128, Option<Seq<char>>), (Seq<char>, u64)>::empty(),
    {
        let r = ContainerAddressCache { entries: Vec::new() };
        assert(r@ =~= Map::empty());
        r
    }

    /// Forgets what is remembered under a key.
    fn forget(&mut self, key: &CacheKey)
        ensures
            final(self)@ == old(self)@.remove(key@),
    {
        let ghost before = self.entries@;
        let ghost was = self@;
        let mut left: Vec<CachedAddress> = Vec::new();
        let mut i: usize = 0;
        while i < self.entries.len()
            invariant
                i <= self.entries@.len(),
                self.entries@ == before,
                lookup(left@, key@) is None,
                forall|k: (u128, Option<Seq<char>>)|
                    k != key@ ==> #[trigger] lookup(left@, k) == lookup(before.take(i as int), k),
            decreases self.entries@.len() - i,
        {
            let entry = &self.entries[i];
            let ghost prior = left@;
            assert(before.take(i + 1).drop_last() =~= before.take(i as int));
            if !same_key(&entry.key, key) {
                let copy = CachedAddress {
                    key: CacheKey {
                        container_id: entry.key.container_id,
                        network: copy_opt(&entry.key.network),
                    },
                    address: entry.address.clone(),
                    inserted: entry.inserted,
                };
                left.push(copy);
                assert(left@.drop_last() =~= prior);
                assert(left@.last().key@ == before[i as int].key@);
            }
            assert forall|k: (u128, Option<Seq<char>>)| k != key@ implies #[trigger] lookup(
                left@,
                k,
            ) == lookup(before.take(i + 1), k) by {
                assert(lookup(prior, k) == lookup(before.take(i as int), k));
            }
            i += 1;
        }
        assert(before.take(i as int) =~= before);
        self.entries = left;
        assert(self@ =~= was.remove(key@));
    }

    /// The address remembered under a key. One that is too old is forgotten
    /// rather than served.
    pub fn get(&mut self, key: &CacheKey, now: u64) -> (r: Option<String>)
        ensures
            opt(r) == if old(self)@.dom().contains(key@) {
                believed(old(self)@[key@], now)
            } else {
                None
            },
            final(self)@ == if r is None {
                old(self)@.remove(key@)
            } else {
                old(self)@
            },
    {
        let ghost was = self@;
        let mut i: usize = self.entries.len();
        assert(self.entries@.take(i as int) =~= self.entries@);
        while i > 0
            invariant
                i <= self.entries@.len(),
                self@ == was,
                *self == *old(self),
                lookup(self.entries@, key@) == lookup(self.entries@.take(i as int), key@),
            decreases i,
        {
            assert(self.entries@.take(i as int).drop_last() =~= self.entries@.take(i - 1));
            i -= 1;
            if same_key(&self.entries[i].key, key) {
                let inserted: u64 = self.entries[i].inserted;
                if now < inserted || now - inserted < ADDRESS_TTL {
                    return Some(self.entries[i].address.clone());
                }
                self.forget(key);
                return None;
            }
        }
        assert(was =~= was.remove(key@));
        None
    }

    /// Remembers an address.
    pub fn put(&mut self, key: CacheKey, address: String, now: u64)
        ensures
            final(self)@ == old(self)@.insert(key@, (address@, now)),
    {
        let ghost was = self@;
        let ghost name = key@;
        self.forget(&key);
        let ghost before = *self;
        self.entries.push(CachedAddress { key, address, inserted: now });
        proof {
            assert(self.entries@.drop_last() =~= before.entries@);
            assert forall|k: (u128, Option<Seq<char>>)| k != name implies #[trigger] lookup(
                self.entries@,
                k,
            ) == lookup(before.entries@, k) by {}
            assert forall|k: (u128, Option<Seq<char>>)| k != name implies #[trigger] self@.dom().contains(
                k,
            ) == was.dom().contains(k) && (was.dom().contains(k) ==> self@[k] == was[k]) by {
                assert(before@.dom().contains(k) == was.dom().contains(k));
                assert(before@.dom().contains(k) == (lookup(before.entries@, k) is Some));
                assert(was.dom().contains(k) ==> before@[k] == was[k]);
            }
            assert(self@ =~= was.insert(name, (address@, now)));
        }
    }

    /// Forgets a container's address in a network.
    pub fn invalidate(&mut self, container_id: u128, network: &Option<String>)
        ensures
            final(self)@ == old(self)@.remove((container_id, opt(*network))),
    {
        self.forget(&CacheKey { container_id, network: copy_opt(network) });
    }
}

/// An address that was remembered is served while it is young and never once
/// it is old, and forgetting it touches nothing else.
pub proof fn addresses_age(
    cache: Map<(u128, Option<Seq<char>>), (Seq<char>, u64)>,
    key: (u128, Option<Seq<char>>),
    other: (u128, Option<Seq<char>>),
    address: Seq<char>,
    inserted: u64,
    now: u64,
)
    requires
        inserted <= now,
        other != key,
    ensures
        now - inserted < ADDRESS_TTL ==> believed(
            cache.insert(key, (address, inserted))[key],
            now,
        ) == Some(address),
        now - inserted >= ADDRESS_TTL ==> believed(
            cache.insert(key, (address, inserted))[key],
            now,
        ) is None,
        cache.remove(key).dom().contains(other) == cache.dom().contains(other),
        cache.dom().contains(other) ==> cache.remove(key)[other] == cache[other],
{
}

// ---------------------------------------------------------------------------
// Endpoints
// ---------------------------------------------------------------------------

/// Whose session an ssh dial goes through.
#[derive(Debug, Clone, Copy, PartialEq, Eq, Structural)]
pub enum Carrier {
    /// The one the host's own daemon dialed.
    Agent,
    /// One that faber dials as this user.
    Dialed { user_id: u128 },
}

/// How a preview's connection is opened.
#[derive(Debug, Clone, Copy, PartialEq, Eq, Structural)]
pub enum PreviewDialer {
    Local,
    Ssh(Carrier),
}

/// What a preview is connected to.
#[derive(Debug)]
pub struct ResolvedEndpoint {
    pub address: String,
    pub dialer: PreviewDialer,
    pub container_cache: Option<(u128, Option<String>)>,
}

/// A gateway error with a fixed text.
pub fn bad_gateway(text: &str) -> (r: AppError)
    ensures
        r@ == ErrorModel::BadGateway(text@),
{
    AppError::BadGateway(text.to_owned())
}

/// Why a binding's rows do not lead anywhere.
pub open spec fn rows_refusal(
    host: Option<Host>,
    container: Option<Option<HostContainer>>,
) -> Option<ErrorModel> {
    match host {
        None => Some(ErrorModel::BadGateway("the bound host no longer exists"@)),
        Some(found) => if found.disabled_at is Some {
            Some(ErrorModel::BadGateway("the bound host is disabled"@))
        } else if container == Some(None::<HostContainer>) {
            Some(ErrorModel::BadGateway("the bound container no longer exists"@))
        } else {
            None
        },
    }
}

/// The rows behind a binding. `container` is `Some(None)` where the binding
/// names one that is gone.
pub fn bound_rows(host: Option<Host>, container: Option<Option<HostContainer>>) -> (r: Result<
    (Host, Option<HostContainer>),
    AppError,
>)
    ensures
        refusal(r) == rows_refusal(host, container),
        r matches Ok(rows) ==> Some(rows.0) == host && rows.1 == match container {
            Some(found) => found,
            None => None,
        },
{
    let found = match host {
        Some(found) => found,
        None => {
            return Err(bad_gateway("the bound host no longer exists"));
        },
    };
    if found.disabled_at.is_some() {
        return Err(bad_gateway("the bound host is disabled"));
    }
    match container {
        Some(Some(row)) => Ok((found, Some(row))),
        Some(None) => Err(bad_gateway("the bound container no longer exists")),
        None => Ok((found, None)),
    }
}

/// Why a host cannot be dialed for a preview.
pub open spec fn dialer_refusal(host: Host, agent_connected: bool) -> Option<ErrorModel> {
    if host.reached_by(Transport::Local) {
        None
    } else if host.reached_by(Transport::Agent) {
        if agent_connected {
            None
        } else {
            Some(
                ErrorModel::BadGateway(
                    "no agent daemon is connected for '"@ + host.name@ + "'"@,
                ),
            )
        }
    } else if host.reached_by(Transport::Ssh) {
        None
    } else {
        Some(ErrorModel::BadGateway("the bound host has an unknown transport"@))
    }
}

/// How a bound host is dialed for a preview. A container is reached as its own
/// user, else as the host's.
pub open spec fn dialer_for(host: Host, container: Option<HostContainer>) -> PreviewDialer {
    if host.reached_by(Transport::Local) {
        PreviewDialer::Local
    } else if host.reached_by(Transport::Agent) {
        PreviewDialer::Ssh(Carrier::Agent)
    } else {
        PreviewDialer::Ssh(
            Carrier::Dialed {
                user_id: match container {
                    Some(row) => row.user_id,
                    None => host.user_id,
                },
            },
        )
    }
}

/// How a bound host is dialed for a preview.
pub fn preview_dialer(
    host: &Host,
    container: &Option<HostContainer>,
    agent_connected: bool,
) -> (r: Result<PreviewDialer, AppError>)
    ensures
        refusal(r) == dialer_refusal(*host, agent_connected),
        r matches Ok(dialer) ==> dialer == dialer_for(*host, *container),
{
    if host.is_by(Transport::Local) {
        return Ok(PreviewDialer::Local);
    }
    if host.is_by(Transport::Agent) {
        if agent_connected {
            return Ok(PreviewDialer::Ssh(Carrier::Agent));
        }
        return Err(
            AppError::BadGateway(
                join3("no agent daemon is connected for '", host.name.as_str(), "'"),
            ),
        );
    }
    if host.is_by(Transport::Ssh) {
        let user_id: u128 = match container {
            Some(row) => row.user_id,
            None => host.user_id,
        };
        return Ok(PreviewDialer::Ssh(Carrier::Dialed { user_id }));
    }
    Err(bad_gateway("the bound host has an unknown transport"))
}

/// Where a preview's service is, before its address is known.
#[derive(Debug)]
pub enum Service {
    /// On the machine itself.
    Direct,
    /// In a container, whose address is remembered under `key`.
    Container { key: CacheKey, container_ref: String },
}

/// Why a binding names no service.
pub open spec fn service_refusal(host: Host, container: Option<HostContainer>) -> Option<
    ErrorModel,
> {
    if host.runs(ExecMode::Direct) {
        if container is Some {
            Some(
                ErrorModel::BadGateway("a direct host binding unexpectedly names a container"@),
            )
        } else {
            None
        }
    } else {
        match container {
            None => Some(
                ErrorModel::BadGateway("a Docker presentation has no bound container"@),
            ),
            Some(row) => if row.unregistered_at is Some {
                Some(ErrorModel::BadGateway("the bound container is unregistered"@))
            } else {
                None
            },
        }
    }
}

/// Where a binding's service is.
pub fn bound_service(host: &Host, container: &Option<HostContainer>) -> (r: Result<
    Service,
    AppError,
>)
    ensures
        refusal(r) == service_refusal(*host, *container),
        r matches Ok(service) ==> if host.runs(ExecMode::Direct) {
            service is Direct
        } else {
            service matches Service::Container { key, container_ref } && key@ == (
                container->0.id,
                opt(host.preview_network),
            ) && container_ref@ == container->0.container_ref@
        },
{
    if host.is_running(ExecMode::Direct) {
        if container.is_some() {
            return Err(bad_gateway("a direct host binding unexpectedly names a container"));
        }
        return Ok(Service::Direct);
    }
    match container {
        None => Err(bad_gateway("a Docker presentation has no bound container")),
        Some(row) => {
            if row.unregistered_at.is_some() {
                return Err(bad_gateway("the bound container is unregistered"));
            }
            Ok(
                Service::Container {
                    key: CacheKey {
                        container_id: row.id,
                        network: copy_opt(&host.preview_network),
                    },
                    container_ref: row.container_ref.clone(),
                },
            )
        },
    }
}

/// The remembered address to use, unless the cache is to be bypassed.
pub fn cached_address(
    cache: &mut ContainerAddressCache,
    key: &CacheKey,
    bypass_cache: bool,
    now: u64,
) -> (r: Option<String>)
    ensures
        opt(r) == if !bypass_cache && old(cache)@.dom().contains(key@) {
            believed(old(cache)@[key@], now)
        } else {
            None
        },
        final(cache)@ == if bypass_cache || r is Some {
            old(cache)@
        } else {
            old(cache)@.remove(key@)
        },
{
    if bypass_cache {
        None
    } else {
        cache.get(key, now)
    }
}

/// Where a direct preview is connected to.
pub fn direct_endpoint(dialer: PreviewDialer, port: u16) -> (r: ResolvedEndpoint)
    ensures
        r.address@ == "127.0.0.1"@ + ":"@ + decimal(port as nat),
        r.dialer == dialer,
        r.container_cache is None,
{
    ResolvedEndpoint {
        address: join3("127.0.0.1", ":", decimal_of(port as u64).as_str()),
        dialer,
        container_cache: None,
    }
}

/// Where a container's preview is connected to.
pub fn endpoint(address: &str, port: u16, dialer: PreviewDialer, key: CacheKey) -> (r:
    ResolvedEndpoint)
    ensures
        r.address@ == address@ + ":"@ + decimal(port as nat),
        r.dialer == dialer,
        r.container_cache matches Some(found) && (found.0, opt(found.1)) == key@,
{
    ResolvedEndpoint {
        address: join3(address, ":", decimal_of(port as u64).as_str()),
        dialer,
        container_cache: Some((key.container_id, key.network)),
    }
}

/// Where the network called `name` stands, or the list's length.
pub open spec fn network_at(addresses: Seq<(String, String)>, name: Seq<char>) -> int
    decreases addresses.len(),
{
    if addresses.len() == 0 {
        0
    } else if addresses[0].0@ == name {
        0
    } else {
        1 + network_at(addresses.drop_first(), name)
    }
}

/// The address a container is previewed at: its own on the configured network,
/// else on the only one it has. Which of several is meant is not guessed.
pub open spec fn chosen_address(networks: ContainerNetworks, configured: Option<Seq<char>>) -> Result<
    Seq<char>,
    ErrorModel,
> {
    let addresses = networks.addresses@;
    if networks.mode@ == "host"@ {
        Ok("127.0.0.1"@)
    } else if networks.mode@ == "none"@ {
        Err(ErrorModel::BadGateway("the container has networking disabled"@))
    } else if "container:"@.is_prefix_of(networks.mode@) {
        Err(
            ErrorModel::BadGateway(
                "container-shared network namespaces are not supported for previews"@,
            ),
        )
    } else {
        match configured {
            Some(name) => if network_at(addresses, name) < addresses.len() {
                Ok(addresses[network_at(addresses, name)].1@)
            } else {
                Err(
                    ErrorModel::BadGateway(
                        "the container has no address on configured preview network '"@ + name
                            + "'"@,
                    ),
                )
            },
            None => if addresses.len() == 1 {
                Ok(addresses[0].1@)
            } else if addresses.len() == 0 {
                Err(ErrorModel::BadGateway("the container has no network address"@))
            } else {
                Err(
                    ErrorModel::BadGateway(
                        "the container has multiple networks; configure host.preview_network"@,
                    ),
                )
            },
        }
    }
}

pub fn select_address(networks: &ContainerNetworks, configured: Option<&str>) -> (r: Result<
    String,
    AppError,
>)
    ensures
        match chosen_address(
            *networks,
            match configured {
                Some(name) => Some(name@),
                None => None,
            },
        ) {
            Ok(address) => r matches Ok(s) && s@ == address,
            Err(error) => r matches Err(e) && e@ == error,
        },
{
    let mode = networks.mode.as_str();
    if same(mode, "host") {
        return Ok("127.0.0.1".to_owned());
    }
    if same(mode, "none") {
        return Err(bad_gateway("the container has networking disabled"));
    }
    if starts_with(mode, "container:") {
        return Err(
            bad_gateway("container-shared network namespaces are not supported for previews"),
        );
    }
    let addresses = &networks.addresses;
    match configured {
        Some(name) => {
            let ghost all = addresses@;
            let mut i: usize = 0;
            assert(all.skip(0) =~= all);
            while i < addresses.len()
                invariant
                    i <= addresses@.len(),
                    all == addresses@,
                    addresses@ == networks.addresses@,
                    mode@ == networks.mode@,
                    mode@ != "host"@,
                    mode@ != "none"@,
                    !"container:"@.is_prefix_of(mode@),
                    configured == Some(name),
                    network_at(all, name@) == i + network_at(all.skip(i as int), name@),
                decreases addresses@.len() - i,
            {
                assert(all.skip(i as int)[0] == addresses@[i as int]);
                if same(addresses[i].0.as_str(), name) {
                    return Ok(addresses[i].1.clone());
                }
                assert(all.skip(i as int).drop_first() =~= all.skip(i + 1));
                i += 1;
            }
            Err(
                AppError::BadGateway(
                    join3(
                        "the container has no address on configured preview network '",
                        name,
                        "'",
                    ),
                ),
            )
        },
        None => {
            if addresses.len() == 1 {
                Ok(addresses[0].1.clone())
            } else if addresses.len() == 0 {
                Err(bad_gateway("the container has no network address"))
            } else {
                Err(
                    bad_gateway(
                        "the container has multiple networks; configure host.preview_network",
                    ),
                )
            }
        },
    }
}

/// Without a configured network, a container that is attached to several is
/// refused rather than guessed at.
pub proof fn ambiguity_is_refused(networks: ContainerNetworks)
    requires
        networks.addresses@.len() > 1,
        networks.mode@ != "host"@,
    ensures
        chosen_address(networks, None) is Err,
{
}

proof fn lemma_network_at(addresses: Seq<(String, String)>, name: Seq<char>)
    ensures
        0 <= network_at(addresses, name) <= addresses.len(),
        network_at(addresses, name) < addresses.len() ==> addresses[network_at(
            addresses,
            name,
        )].0@ == name,
        forall|i: int|
            0 <= i < network_at(addresses, name) ==> (#[trigger] addresses[i]).0@ != name,
    decreases addresses.len(),
{
    if addresses.len() > 0 && addresses[0].0@ != name {
        let rest = addresses.drop_first();
        lemma_network_at(rest, name);
        assert forall|i: int| 0 <= i < network_at(addresses, name) implies (
        #[trigger] addresses[i]).0@ != name by {
            if i > 0 {
                assert(rest[i - 1] == addresses[i]);
            }
        }
    }
}

/// Whatever address is chosen for a container off its host's network is one
/// that it has in some network: the configured one's, where one is configured.
pub proof fn a_chosen_address_is_the_containers_own(
    networks: ContainerNetworks,
    configured: Option<Seq<char>>,
)
    requires
        networks.mode@ != "host"@,
        chosen_address(networks, configured) is Ok,
    ensures
        exists|i: int|
            0 <= i < networks.addresses@.len() && (#[trigger] networks.addresses@[i]).1@
                == chosen_address(networks, configured)->Ok_0 && (configured matches Some(name)
                ==> networks.addresses@[i].0@ == name) && (configured is None
                ==> networks.addresses@.len() == 1),
{
    let addresses = networks.addresses@;
    match configured {
        Some(name) => {
            lemma_network_at(addresses, name);
            let _ = addresses[network_at(addresses, name)];
        },
        None => {
            let _ = addresses[0];
        },
    }
}

/// Whether a container's network mode leaves it addresses of its own.
pub open spec fn addressable(mode: Seq<char>) -> bool {
    mode != "host"@ && mode != "none"@ && !"container:"@.is_prefix_of(mode)
}

/// A container that has just one network gets its address there, whatever that
/// network is called.
pub proof fn an_only_network_gives_its_address(
    networks: ContainerNetworks,
    name: String,
    address: String,
)
    requires
        addressable(networks.mode@),
        networks.addresses@ == seq![(name, address)],
    ensures
        chosen_address(networks, None) == Ok::<Seq<char>, ErrorModel>(address@),
        chosen_address(networks, Some(name@)) == Ok::<Seq<char>, ErrorModel>(address@),
{
}

/// A configured network that the container is attached to under one name gives
/// the address that stands beside that name, however many others there are.
pub proof fn a_configured_network_wins(
    networks: ContainerNetworks,
    name: Seq<char>,
    i: int,
)
    requires
        addressable(networks.mode@),
        0 <= i < networks.addresses@.len(),
        networks.addresses@[i].0@ == name,
        forall|j: int|
            0 <= j < i ==> (#[trigger] networks.addresses@[j]).0@ != name,
    ensures
        chosen_address(networks, Some(name)) == Ok::<Seq<char>, ErrorModel>(
            networks.addresses@[i].1@,
        ),
{
    lemma_network_at(networks.addresses@, name);
    let at = network_at(networks.addresses@, name);
    if at < i {
        assert(networks.addresses@[at].0@ != name);
    } else if at > i {
        assert(networks.addresses@[i].0@ != name);
    }
}

/// Where no address can be told, none is made up: not for a container without
/// networking, not for one that borrows another's, not where the configured
/// network is not among its own, and not where it has none or several.
pub proof fn no_address_is_made_up(networks: ContainerNetworks, configured: Option<Seq<char>>)
    requires
        networks.mode@ != "host"@,
        networks.mode@ == "none"@ || "container:"@.is_prefix_of(networks.mode@) || match configured {
            Some(name) => forall|i: int|
                0 <= i < networks.addresses@.len() ==> (#[trigger] networks.addresses@[i]).0@
                    != name,
            None => networks.addresses@.len() != 1,
        },
    ensures
        chosen_address(networks, configured) matches Err(ErrorModel::BadGateway(_)),
{
    if let Some(name) = configured {
        lemma_network_at(networks.addresses@, name);
        let at = network_at(networks.addresses@, name);
        if at < networks.addresses@.len() {
            let _ = networks.addresses@[at];
        }
    }
}

/// A container on its host's network is reached at the host itself.
pub proof fn a_host_network_is_the_loopback(networks: ContainerNetworks, configured: Option<Seq<char>>)
    requires
        networks.mode@ == "host"@,
    ensures
        chosen_address(networks, configured) == Ok::<Seq<char>, ErrorModel>("127.0.0.1"@),
{
}

// ---------------------------------------------------------------------------
// A whole resolution
// ---------------------------------------------------------------------------

/// What the resolution of a preview's endpoint is waiting for.
#[derive(Debug)]
pub enum ResolveStep {
    /// The rows behind the binding.
    Binding { port: u16, bypass_cache: bool },
    /// The way to the host.
    Dialing {
        host: Host,
        container: Option<HostContainer>,
        dialer: PreviewDialer,
        port: u16,
        bypass_cache: bool,
    },
    /// The networks that the container is attached to.
    Inspecting { dialer: PreviewDialer, key: CacheKey, container_ref: String, port: u16 },
    Resolved(ResolvedEndpoint),
    Failed(AppError),
}

/// What a [`ResolvedEndpoint`] says.
pub struct EndpointModel {
    pub address: Seq<char>,
    pub dialer: PreviewDialer,
    pub container_cache: Option<(u128, Option<Seq<char>>)>,
}

impl View for ResolvedEndpoint {
    type V = EndpointModel;

    open spec fn view(&self) -> EndpointModel {
        EndpointModel {
            address: self.address@,
            dialer: self.dialer,
            container_cache: match self.container_cache {
                Some(found) => Some((found.0, opt(found.1))),
                None => None,
            },
        }
    }
}

/// What a [`ResolveStep`] says.
pub enum ResolveModel {
    Binding { port: u16, bypass_cache: bool },
    Dialing {
        host: Host,
        container: Option<HostContainer>,
        dialer: PreviewDialer,
        port: u16,
        bypass_cache: bool,
    },
    Inspecting {
        dialer: PreviewDialer,
        key: (u128, Option<Seq<char>>),
        container_ref: Seq<char>,
        port: u16,
    },
    Resolved(EndpointModel),
    Failed(ErrorModel),
}

impl View for ResolveStep {
    type V = ResolveModel;

    open spec fn view(&self) -> ResolveModel {
        match *self {
            ResolveStep::Binding { port, bypass_cache } => ResolveModel::Binding {
                port,
                bypass_cache,
            },
            ResolveStep::Dialing { host, container, dialer, port, bypass_cache } =>
                ResolveModel::Dialing { host, container, dialer, port, bypass_cache },
            ResolveStep::Inspecting { dialer, key, container_ref, port } =>
                ResolveModel::Inspecting {
                dialer,
                key: key@,
                container_ref: container_ref@,
                port,
            },
            ResolveStep::Resolved(endpoint) => ResolveModel::Resolved(endpoint@),
            ResolveStep::Failed(error) => ResolveModel::Failed(error@),
        }
    }
}

/// What happened outside a resolution.
#[derive(Debug)]
pub enum ResolveEvent {
    /// The rows were read. `container` is `Some(None)` where the binding names
    /// one that is gone.
    Rows {
        host: Option<Host>,
        container: Option<Option<HostContainer>>,
        agent_connected: bool,
    },
    /// The way to the host is open.
    Dialed,
    /// The daemon was asked for the container's networks.
    Networks(Result<ContainerNetworks, Fault>),
    /// The host, or its daemon, could not be reached.
    Unreached(AppError),
}

/// What a [`ResolveEvent`] says.
pub enum ResolveEventModel {
    Rows {
        host: Option<Host>,
        container: Option<Option<HostContainer>>,
        agent_connected: bool,
    },
    Dialed,
    Networks(Result<ContainerNetworks, FaultModel>),
    Unreached(ErrorModel),
}

impl View for ResolveEvent {
    type V = ResolveEventModel;

    open spec fn view(&self) -> ResolveEventModel {
        match *self {
            ResolveEvent::Rows { host, container, agent_connected } => ResolveEventModel::Rows {
                host,
                container,
                agent_connected,
            },
            ResolveEvent::Dialed => ResolveEventModel::Dialed,
            ResolveEvent::Networks(answer) => ResolveEventModel::Networks(
                match answer {
                    Ok(networks) => Ok(networks),
                    Err(fault) => Err(fault@),
                },
            ),
            ResolveEvent::Unreached(error) => ResolveEventModel::Unreached(error@),
        }
    }
}

/// What is remembered of containers' addresses.
pub type Remembered = Map<(u128, Option<Seq<char>>), (Seq<char>, u64)>;

/// A container's endpoint.
pub open spec fn container_endpoint(
    address: Seq<char>,
    port: u16,
    dialer: PreviewDialer,
    key: (u128, Option<Seq<char>>),
) -> EndpointModel {
    EndpointModel {
        address: address + ":"@ + decimal(port as nat),
        dialer,
        container_cache: Some(key),
    }
}

/// What a resolution waits for once the rows were read. The host is judged
/// first, the container's row next, the way to the host last.
pub open spec fn bound_next(
    port: u16,
    bypass_cache: bool,
    host: Option<Host>,
    container: Option<Option<HostContainer>>,
    agent_connected: bool,
) -> ResolveModel {
    match rows_refusal(host, container) {
        Some(error) => ResolveModel::Failed(error),
        None => {
            let found = host->0;
            let row = match container {
                Some(row) => row,
                None => None,
            };
            match dialer_refusal(found, agent_connected) {
                Some(error) => ResolveModel::Failed(error),
                None => ResolveModel::Dialing {
                    host: found,
                    container: row,
                    dialer: dialer_for(found, row),
                    port,
                    bypass_cache,
                },
            }
        },
    }
}

/// What a resolution waits for once the way to the host is open: nothing where
/// the service is on the machine itself or a young address is remembered.
pub open spec fn dialed_next(
    host: Host,
    container: Option<HostContainer>,
    dialer: PreviewDialer,
    port: u16,
    bypass_cache: bool,
    cache: Remembered,
    now: u64,
) -> (ResolveModel, Remembered) {
    match service_refusal(host, container) {
        Some(error) => (ResolveModel::Failed(error), cache),
        None => if host.runs(ExecMode::Direct) {
            let endpoint = EndpointModel {
                address: "127.0.0.1"@ + ":"@ + decimal(port as nat),
                dialer,
                container_cache: None,
            };
            (ResolveModel::Resolved(endpoint), cache)
        } else {
            let key = (container->0.id, opt(host.preview_network));
            let inspecting = ResolveModel::Inspecting {
                dialer,
                key,
                container_ref: container->0.container_ref@,
                port,
            };
            if bypass_cache {
                (inspecting, cache)
            } else if cache.dom().contains(key) && believed(cache[key], now) is Some {
                let address = believed(cache[key], now)->0;
                (ResolveModel::Resolved(container_endpoint(address, port, dialer, key)), cache)
            } else {
                (inspecting, cache.remove(key))
            }
        },
    }
}

/// What becomes of a resolution once the daemon answered. The address that is
/// chosen is remembered.
pub open spec fn inspected_next(
    dialer: PreviewDialer,
    key: (u128, Option<Seq<char>>),
    port: u16,
    answer: Result<ContainerNetworks, FaultModel>,
    cache: Remembered,
    now: u64,
) -> (ResolveModel, Remembered) {
    match answer {
        Err(fault) => (ResolveModel::Failed(ErrorModel::BadGateway(fault.sentence())), cache),
        Ok(networks) => match chosen_address(networks, key.1) {
            Err(error) => (ResolveModel::Failed(error), cache),
            Ok(address) => (
                ResolveModel::Resolved(container_endpoint(address, port, dialer, key)),
                cache.insert(key, (address, now)),
            ),
        },
    }
}

/// What a resolution waits for after something happened, and what is
/// remembered then. What it was not waiting for changes nothing.
pub open spec fn next_resolve(
    step: ResolveModel,
    event: ResolveEventModel,
    cache: Remembered,
    now: u64,
) -> (ResolveModel, Remembered) {
    match (step, event) {
        (ResolveModel::Resolved(_), _) => (step, cache),
        (ResolveModel::Failed(_), _) => (step, cache),
        (_, ResolveEventModel::Unreached(error)) => (ResolveModel::Failed(error), cache),
        (
            ResolveModel::Binding { port, bypass_cache },
            ResolveEventModel::Rows { host, container, agent_connected },
        ) => (bound_next(port, bypass_cache, host, container, agent_connected), cache),
        (
            ResolveModel::Dialing { host, container, dialer, port, bypass_cache },
            ResolveEventModel::Dialed,
        ) => dialed_next(host, container, dialer, port, bypass_cache, cache, now),
        (
            ResolveModel::Inspecting { dialer, key, port, .. },
            ResolveEventModel::Networks(answer),
        ) => inspected_next(dialer, key, port, answer, cache, now),
        _ => (step, cache),
    }
}

fn dialed(
    host: Host,
    container: Option<HostContainer>,
    dialer: PreviewDialer,
    port: u16,
    bypass_cache: bool,
    cache: &mut ContainerAddressCache,
    now: u64,
) -> (r: ResolveStep)
    ensures
        (r@, final(cache)@) == dialed_next(
            host,
            container,
            dialer,
            port,
            bypass_cache,
            old(cache)@,
            now,
        ),
{
    match bound_service(&host, &container) {
        Err(error) => ResolveStep::Failed(error),
        Ok(Service::Direct) => ResolveStep::Resolved(direct_endpoint(dialer, port)),
        Ok(Service::Container { key, container_ref }) => match cached_address(
            cache,
            &key,
            bypass_cache,
            now,
        ) {
            Some(address) => ResolveStep::Resolved(endpoint(address.as_str(), port, dialer, key)),
            None => ResolveStep::Inspecting { dialer, key, container_ref, port },
        },
    }
}

fn inspected(
    dialer: PreviewDialer,
    key: CacheKey,
    port: u16,
    answer: Result<ContainerNetworks, Fault>,
    cache: &mut ContainerAddressCache,
    now: u64,
) -> (r: ResolveStep)
    ensures
        (r@, final(cache)@) == inspected_next(
            dialer,
            key@,
            port,
            match answer {
                Ok(networks) => Ok(networks),
                Err(fault) => Err(fault@),
            },
            old(cache)@,
            now,
        ),
{
    let networks = match answer {
        Ok(networks) => networks,
        Err(fault) => {
            return ResolveStep::Failed(AppError::BadGateway(fault.describe()));
        },
    };
    let configured = match &key.network {
        Some(name) => Some(name.as_str()),
        None => None,
    };
    match select_address(&networks, configured) {
        Err(error) => ResolveStep::Failed(error),
        Ok(address) => {
            let remembered = CacheKey {
                container_id: key.container_id,
                network: copy_opt(&key.network),
            };
            let found = endpoint(address.as_str(), port, dialer, key);
            cache.put(remembered, address, now);
            ResolveStep::Resolved(found)
        },
    }
}

/// Takes the resolution of an endpoint from one step to the next.
pub fn resolve_step(
    step: ResolveStep,
    event: ResolveEvent,
    cache: &mut ContainerAddressCache,
    now: u64,
) -> (r: ResolveStep)
    ensures
        (r@, final(cache)@) == next_resolve(step@, event@, old(cache)@, now),
{
    match (step, event) {
        (ResolveStep::Resolved(endpoint), _) => ResolveStep::Resolved(endpoint),
        (ResolveStep::Failed(error), _) => ResolveStep::Failed(error),
        (_, ResolveEvent::Unreached(error)) => ResolveStep::Failed(error),
        (
            ResolveStep::Binding { port, bypass_cache },
            ResolveEvent::Rows { host, container, agent_connected },
        ) => match bound_rows(host, container) {
            Err(error) => ResolveStep::Failed(error),
            Ok((host, container)) => match preview_dialer(&host, &container, agent_connected) {
                Err(error) => ResolveStep::Failed(error),
                Ok(dialer) => ResolveStep::Dialing {
                    host,
                    container,
                    dialer,
                    port,
                    bypass_cache,
                },
            },
        },
        (
            ResolveStep::Dialing { host, container, dialer, port, bypass_cache },
            ResolveEvent::Dialed,
        ) => dialed(host, container, dialer, port, bypass_cache, cache, now),
        (
            ResolveStep::Inspecting { dialer, key, port, .. },
            ResolveEvent::Networks(answer),
        ) => inspected(dialer, key, port, answer, cache, now),
        (step, _) => step,
    }
}

/// An address that was chosen is remembered: while it is young, the next
/// resolution of the same container comes to the same endpoint without asking
/// the daemon, and one that bypasses what is remembered asks it.
pub proof fn a_chosen_address_is_remembered(
    host: Host,
    container: HostContainer,
    dialer: PreviewDialer,
    port: u16,
    networks: ContainerNetworks,
    cache: Remembered,
    now: u64,
    later: u64,
)
    requires
        service_refusal(host, Some(container)) is None,
        chosen_address(networks, opt(host.preview_network)) is Ok,
        now <= later < now + ADDRESS_TTL,
    ensures
        ({
            let key = (container.id, opt(host.preview_network));
            let asking = ResolveModel::Inspecting {
                dialer,
                key,
                container_ref: container.container_ref@,
                port,
            };
            let (first, kept) = next_resolve(
                asking,
                ResolveEventModel::Networks(Ok(networks)),
                cache,
                now,
            );
            let again = |bypass_cache: bool|
                ResolveModel::Dialing {
                    host,
                    container: Some(container),
                    dialer,
                    port,
                    bypass_cache,
                };
            &&& first is Resolved
            &&& next_resolve(again(false), ResolveEventModel::Dialed, kept, later) == (first, kept)
            &&& next_resolve(again(true), ResolveEventModel::Dialed, kept, later) == (asking, kept)
        }),
{
}

/// How many steps a resolution still has before it.
pub open spec fn resolve_rank(step: ResolveModel) -> nat {
    match step {
        ResolveModel::Binding { .. } => 3,
        ResolveModel::Dialing { .. } => 2,
        ResolveModel::Inspecting { .. } => 1,
        _ => 0,
    }
}

/// A resolution never goes back: each event leaves it where it is or nearer to
/// its end, and an ended one stays as it is and remembers nothing more.
pub proof fn a_resolution_ends(
    step: ResolveModel,
    event: ResolveEventModel,
    cache: Remembered,
    now: u64,
)
    ensures
        ({
            let (after, kept) = next_resolve(step, event, cache, now);
            &&& after == step && kept == cache || resolve_rank(after) < resolve_rank(step)
            &&& resolve_rank(step) == 0 ==> after == step && kept == cache
        }),
{
}

/// A refusal remembers nothing: only an endpoint that was resolved does.
pub proof fn a_refused_address_is_not_remembered(
    step: ResolveModel,
    event: ResolveEventModel,
    cache: Remembered,
    now: u64,
    key: (u128, Option<Seq<char>>),
)
    requires
        next_resolve(step, event, cache, now).0 is Failed,
        next_resolve(step, event, cache, now).1.dom().contains(key),
    ensures
        cache.dom().contains(key),
        next_resolve(step, event, cache, now).1[key] == cache[key],
{
}

/// The two halves of an address: the host, and the port behind the last colon.
pub open spec fn address_halves(address: Seq<char>) -> Result<(Seq<char>, nat), Seq<char>> {
    let colon = last_index(address, ':');
    if colon < 0 {
        Err("address has no port"@)
    } else {
        match u16_value(address.skip(colon + 1)) {
            Some(port) => Ok((address.take(colon), port)),
            None => Err("address has an invalid port"@),
        }
    }
}

pub fn split_address<'a>(address: &'a str) -> (r: Result<(&'a str, u16), &'static str>)
    ensures
        match address_halves(address@) {
            Ok(halves) => r matches Ok(found) && found.0@ == halves.0 && found.1 == halves.1,
            Err(reason) => r matches Err(text) && text@ == reason,
        },
{
    let chars = chars_of(address);
    proof {
        assert(chars@.skip(0) =~= chars@);
        lemma_last_index(address@, ':');
    }
    match rfind(&chars, 0, ':') {
        None => Err("address has no port"),
        Some(colon) => {
            match parse_u16(&chars, colon + 1) {
                Some(port) => {
                    let host = address.substring_char(0, colon);
                    assert(host@ =~= address@.take(colon as int));
                    Ok((host, port))
                },
                None => Err("address has an invalid port"),
            }
        },
    }
}

/// An address that was joined of a host and a port comes apart into them,
/// whatever colons the host holds.
pub proof fn a_joined_address_comes_apart(host: Seq<char>, port: u16)
    ensures
        address_halves(host + ":"@ + decimal(port as nat)) == Ok::<(Seq<char>, nat), Seq<char>>(
            (host, port as nat),
        ),
{
    reveal_strlit(":");
    let digits = decimal(port as nat);
    let address = host + ":"@ + digits;
    a_number_reads_back(port as nat);
    lemma_last_index(address, ':');
    let colon = last_index(address, ':');
    let n = host.len() as int;
    assert(address[n] == ':');
    if colon > n {
        assert(address[colon] == digits[colon - n - 1]);
    }
    assert(colon == n);
    assert(address.skip(n + 1) =~= digits);
    assert(address.take(n) =~= host);
    assert(digits[0] != '+');
}

/// A resolution that ends well leads to the port that was asked for, over the
/// way that leads to the bound host: on the machine itself, or at an address
/// that the container was seen at, in one of its networks or a moment ago.
pub proof fn a_resolved_endpoint_leads_to_its_port(
    step: ResolveModel,
    event: ResolveEventModel,
    cache: Remembered,
    now: u64,
)
    requires
        resolve_rank(step) > 0,
        next_resolve(step, event, cache, now).0 is Resolved,
    ensures
        next_resolve(step, event, cache, now).0 matches ResolveModel::Resolved(found) && {
            match step {
                ResolveModel::Dialing { host, container, dialer, port, .. } => {
                    &&& found.dialer == dialer
                    &&& match container {
                        None => found.container_cache is None && address_halves(found.address)
                            == Ok::<(Seq<char>, nat), Seq<char>>(("127.0.0.1"@, port as nat)),
                        Some(row) => {
                            let key = (row.id, opt(host.preview_network));
                            &&& found.container_cache == Some(key)
                            &&& cache.dom().contains(key)
                            &&& address_halves(found.address) == Ok::<(Seq<char>, nat), Seq<char>>(
                                (cache[key].0, port as nat),
                            )
                        },
                    }
                },
                ResolveModel::Inspecting { dialer, key, port, .. } => {
                    &&& found.dialer == dialer
                    &&& found.container_cache == Some(key)
                    &&& event matches ResolveEventModel::Networks(Ok(networks)) && address_halves(
                        found.address,
                    ) == Ok::<(Seq<char>, nat), Seq<char>>(
                        (chosen_address(networks, key.1)->Ok_0, port as nat),
                    ) && chosen_address(networks, key.1) is Ok
                },
                _ => false,
            }
        },
{
    match step {
        ResolveModel::Dialing { host, container, port, .. } => match container {
            None => a_joined_address_comes_apart("127.0.0.1"@, port),
            Some(row) => {
                let key = (row.id, opt(host.preview_network));
                a_joined_address_comes_apart(cache[key].0, port);
            },
        },
        ResolveModel::Inspecting { key, port, .. } => {
            if let ResolveEventModel::Networks(Ok(networks)) = event {
                a_joined_address_comes_apart(chosen_address(networks, key.1)->Ok_0, port);
            }
        },
        _ => {},
    }
}

// ---------------------------------------------------------------------------
// The way a resolution goes
// ---------------------------------------------------------------------------

/// A binding leads somewhere just where its host is there and enabled, and the
/// container it names is; and the host can be dialed where it is this machine,
/// an ssh host, or one whose daemon is connected.
pub proof fn a_binding_leads_where_it_can(
    host: Host,
    container: Option<Option<HostContainer>>,
    connected: bool,
)
    ensures
        rows_refusal(None, container) is Some,
        rows_refusal(Some(host), container) is None <==> host.disabled_at is None && !(
        container matches Some(None)),
        dialer_refusal(host, connected) is None <==> host.transport@ == "local"@ || host.transport@
            == "ssh"@ || (host.transport@ == "agent"@ && connected),
{
    crate::models::host::transport_names_are_distinct(Transport::Local, Transport::Agent);
    crate::models::host::transport_names_are_distinct(Transport::Ssh, Transport::Agent);
}

/// A host is dialed over the transport it is reached by, and an ssh one as the
/// container's own user where there is a container, else as the host's.
pub proof fn a_host_is_dialed_by_its_transport(host: Host, row: HostContainer)
    ensures
        host.transport@ == "local"@ ==> dialer_for(host, Some(row)) == PreviewDialer::Local
            && dialer_for(host, None) == PreviewDialer::Local,
        host.transport@ == "agent"@ ==> dialer_for(host, Some(row)) == PreviewDialer::Ssh(
            Carrier::Agent,
        ) && dialer_for(host, None) == PreviewDialer::Ssh(Carrier::Agent),
        host.transport@ == "ssh"@ ==> dialer_for(host, Some(row)) == PreviewDialer::Ssh(
            Carrier::Dialed { user_id: row.user_id },
        ) && dialer_for(host, None) == PreviewDialer::Ssh(
            Carrier::Dialed { user_id: host.user_id },
        ),
{
    crate::models::host::transport_names_are_distinct(Transport::Local, Transport::Agent);
    crate::models::host::transport_names_are_distinct(Transport::Local, Transport::Ssh);
    crate::models::host::transport_names_are_distinct(Transport::Ssh, Transport::Agent);
}

/// A binding has a service just where it names a container on a host that runs
/// them, and one that is still registered, or none on a host that does not.
pub proof fn a_service_is_where_its_host_runs_it(host: Host, row: HostContainer)
    ensures
        host.exec_mode@ == "direct"@ ==> service_refusal(host, None) is None && service_refusal(
            host,
            Some(row),
        ) is Some,
        host.exec_mode@ != "direct"@ ==> service_refusal(host, None) is Some,
        host.exec_mode@ != "direct"@ ==> (service_refusal(host, Some(row)) is None
            <==> row.unregistered_at is None),
{
}

/// An address is believed for five seconds after it was seen, and not from then
/// on.
pub proof fn an_address_is_believed_for_five_seconds(address: Seq<char>, seen: u64, now: u64)
    ensures
        now < seen + 5000 ==> believed((address, seen), now) == Some(address),
        now >= seen + 5000 ==> believed((address, seen), now) is None,
{
}

/// The rows of a binding that leads somewhere are what the resolution goes on
/// with, as they were read; one that leads nowhere fails.
pub proof fn a_bound_host_is_dialed(
    port: u16,
    bypass: bool,
    host: Host,
    container: Option<Option<HostContainer>>,
    connected: bool,
    cache: Remembered,
    now: u64,
)
    ensures
        ({
            let (step, kept) = next_resolve(
                ResolveModel::Binding { port, bypass_cache: bypass },
                ResolveEventModel::Rows { host: Some(host), container, agent_connected: connected },
                cache,
                now,
            );
            let row = match container {
                Some(Some(row)) => Some(row),
                _ => None,
            };
            &&& kept == cache
            &&& rows_refusal(Some(host), container) matches Some(error) ==> step
                == ResolveModel::Failed(error)
            &&& rows_refusal(Some(host), container) is None && dialer_refusal(host, connected)
                is None ==> step == (ResolveModel::Dialing {
                host,
                container: row,
                dialer: dialer_for(host, row),
                port,
                bypass_cache: bypass,
            })
            &&& rows_refusal(Some(host), container) is None && dialer_refusal(host, connected)
                is Some ==> step is Failed
        }),
{
}

/// A service on the machine itself is at the loopback, on the port that was
/// asked for, and nothing is remembered of it.
pub proof fn a_direct_service_is_at_the_loopback(
    host: Host,
    dialer: PreviewDialer,
    port: u16,
    bypass: bool,
    cache: Remembered,
    now: u64,
)
    requires
        host.exec_mode@ == "direct"@,
    ensures
        next_resolve(
            ResolveModel::Dialing { host, container: None, dialer, port, bypass_cache: bypass },
            ResolveEventModel::Dialed,
            cache,
            now,
        ) == (
            ResolveModel::Resolved(
                EndpointModel {
                    address: "127.0.0.1"@ + ":"@ + decimal(port as nat),
                    dialer,
                    container_cache: None,
                },
            ),
            cache,
        ),
{
}

/// A container is looked up at the daemon unless a young address of it is
/// remembered and may be used; and it is looked up by its own reference, and
/// remembered by its id and the network that is configured.
pub proof fn a_container_is_looked_up_unless_remembered(
    host: Host,
    row: HostContainer,
    dialer: PreviewDialer,
    port: u16,
    bypass: bool,
    cache: Remembered,
    now: u64,
    address: Seq<char>,
)
    requires
        host.exec_mode@ != "direct"@,
        row.unregistered_at is None,
    ensures
        ({
            let key = (row.id, opt(host.preview_network));
            let (step, kept) = next_resolve(
                ResolveModel::Dialing {
                    host,
                    container: Some(row),
                    dialer,
                    port,
                    bypass_cache: bypass,
                },
                ResolveEventModel::Dialed,
                cache,
                now,
            );
            let remembered = cache.dom().contains(key) && believed(cache[key], now) == Some(
                address,
            );
            let looked_up = ResolveModel::Inspecting {
                dialer,
                key,
                container_ref: row.container_ref@,
                port,
            };
            &&& bypass ==> step == looked_up && kept == cache
            &&& !bypass && remembered ==> kept == cache && step == ResolveModel::Resolved(
                EndpointModel {
                    address: address + ":"@ + decimal(port as nat),
                    dialer,
                    container_cache: Some(key),
                },
            )
            &&& !bypass && !cache.dom().contains(key) ==> step == looked_up
            &&& !bypass && cache.dom().contains(key) && believed(cache[key], now) is None ==> step
                == looked_up && kept == cache.remove(key)
        }),
{
}

/// What a step and an event hold is what is told of them.
pub proof fn a_resolution_says_what_it_holds(
    key: CacheKey,
    dialer: PreviewDialer,
    container_ref: String,
    port: u16,
    endpoint: ResolvedEndpoint,
    error: AppError,
    cause: Fault,
    networks: ContainerNetworks,
)
    ensures
        key@ == (key.container_id, opt(key.network)),
        endpoint@.address == endpoint.address@,
        endpoint@.dialer == endpoint.dialer,
        endpoint.container_cache is None <==> endpoint@.container_cache is None,
        endpoint.container_cache matches Some(found) ==> endpoint@.container_cache == Some(
            (found.0, opt(found.1)),
        ),
        (ResolveStep::Inspecting { dialer, key, container_ref, port })@
            == (ResolveModel::Inspecting {
            dialer,
            key: key@,
            container_ref: container_ref@,
            port,
        }),
        ResolveStep::Resolved(endpoint)@ == ResolveModel::Resolved(endpoint@),
        ResolveStep::Failed(error)@ == ResolveModel::Failed(error@),
        ResolveEvent::Unreached(error)@ == ResolveEventModel::Unreached(error@),
        ResolveEvent::Networks(Ok(networks))@ == ResolveEventModel::Networks(Ok(networks)),
        ResolveEvent::Networks(Err(cause))@ == ResolveEventModel::Networks(Err(cause@)),
{
}

} // verus!
