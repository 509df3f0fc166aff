use faber::environment::docker::engine::ContainerNetworks;
use faber::error::{AppError, Fault};
use faber::models::host::{Host, HostContainer};
use faber::presentation::resolve::{
    resolve_step, ResolveEvent, ResolveStep,
    bound_rows, bound_service, cached_address, direct_endpoint, endpoint, preview_dialer,
    select_address, split_address, CacheKey, Carrier, ContainerAddressCache, PreviewDialer,
    Service, ADDRESS_TTL,
};

fn gateway(error: AppError) -> String {
    match error {
        AppError::BadGateway(text) => text,
        other => panic!("not a gateway error: {other:?}"),
    }
}

fn host(transport: &str, exec_mode: &str) -> Host {
    Host {
        id: 1,
        user_id: 2,
        name: "box".to_owned(),
        transport: transport.to_owned(),
        exec_mode: exec_mode.to_owned(),
        ssh_address: None,
        ssh_key_ref: None,
        ssh_host_key: None,
        docker_endpoint: None,
        created_at: 0,
        disabled_at: None,
        root_path: None,
        preview_network: Some("net".to_owned()),
    }
}

fn container() -> HostContainer {
    HostContainer {
        id: 3,
        host_id: 1,
        user_id: 4,
        container_ref: "abc".to_owned(),
        name: None,
        root_path: "/work".to_owned(),
        created_at: 0,
        unregistered_at: None,
        managed_at: None,
        image_id: None,
    }
}

#[test]
fn configured_network_wins_and_ambiguity_refuses() {
    let networks = ContainerNetworks {
        mode: "default".into(),
        addresses: vec![
            ("a".into(), "10.0.0.2".into()),
            ("b".into(), "10.1.0.2".into()),
        ],
    };
    assert_eq!(select_address(&networks, Some("b")).unwrap(), "10.1.0.2");
    assert!(select_address(&networks, None).is_err());
}

#[test]
fn host_network_uses_remote_loopback() {
    let networks = ContainerNetworks {
        mode: "host".into(),
        addresses: Vec::new(),
    };
    assert_eq!(select_address(&networks, None).unwrap(), "127.0.0.1");
}

#[test]
fn an_address_that_cannot_be_chosen_says_why() {
    let none = ContainerNetworks {
        mode: "none".into(),
        addresses: Vec::new(),
    };
    assert_eq!(
        gateway(select_address(&none, None).unwrap_err()),
        "the container has networking disabled"
    );
    let shared = ContainerNetworks {
        mode: "container:abc".into(),
        addresses: Vec::new(),
    };
    assert_eq!(
        gateway(select_address(&shared, None).unwrap_err()),
        "container-shared network namespaces are not supported for previews"
    );
    let bridge = ContainerNetworks {
        mode: "bridge".into(),
        addresses: Vec::new(),
    };
    assert_eq!(
        gateway(select_address(&bridge, None).unwrap_err()),
        "the container has no network address"
    );
    assert_eq!(
        gateway(select_address(&bridge, Some("x")).unwrap_err()),
        "the container has no address on configured preview network 'x'"
    );
}

#[test]
fn an_address_splits_at_its_last_colon() {
    assert_eq!(split_address("10.0.0.1:80"), Ok(("10.0.0.1", 80)));
    assert_eq!(split_address("::1:8080"), Ok(("::1", 8080)));
    assert_eq!(split_address("nowhere"), Err("address has no port"));
    assert_eq!(split_address("a:65536"), Err("address has an invalid port"));
    assert_eq!(split_address("a:"), Err("address has an invalid port"));
    assert_eq!(split_address("a:+7"), Ok(("a", 7)));
}

#[test]
fn an_address_is_believed_for_a_while() {
    let mut cache = ContainerAddressCache::new();
    let key = || CacheKey {
        container_id: 3,
        network: Some("net".to_owned()),
    };
    assert_eq!(cache.get(&key(), 0), None);
    cache.put(key(), "10.0.0.1".to_owned(), 100);
    cache.put(
        CacheKey {
            container_id: 3,
            network: None,
        },
        "10.0.0.9".to_owned(),
        100,
    );
    assert_eq!(cache.get(&key(), 100 + ADDRESS_TTL - 1), Some("10.0.0.1".to_owned()));
    assert_eq!(cached_address(&mut cache, &key(), true, 101), None);
    assert_eq!(cache.get(&key(), 100 + ADDRESS_TTL), None);
    // Forgotten, not merely withheld.
    assert_eq!(cache.get(&key(), 100), None);
    cache.put(key(), "10.0.0.2".to_owned(), 200);
    cache.invalidate(3, &Some("net".to_owned()));
    assert_eq!(cache.get(&key(), 200), None);
    let other = CacheKey {
        container_id: 3,
        network: None,
    };
    assert_eq!(cache.get(&other, 200), Some("10.0.0.9".to_owned()));
}

#[test]
fn a_preview_goes_where_its_rows_say() {
    assert_eq!(
        gateway(bound_rows(None, None).unwrap_err()),
        "the bound host no longer exists"
    );
    let mut disabled = host("local", "direct");
    disabled.disabled_at = Some(1);
    assert_eq!(
        gateway(bound_rows(Some(disabled), None).unwrap_err()),
        "the bound host is disabled"
    );
    assert_eq!(
        gateway(bound_rows(Some(host("local", "docker")), Some(None)).unwrap_err()),
        "the bound container no longer exists"
    );

    assert_eq!(
        preview_dialer(&host("local", "direct"), &None, false).unwrap(),
        PreviewDialer::Local
    );
    assert_eq!(
        preview_dialer(&host("agent", "direct"), &None, true).unwrap(),
        PreviewDialer::Ssh(Carrier::Agent)
    );
    assert_eq!(
        gateway(preview_dialer(&host("agent", "direct"), &None, false).unwrap_err()),
        "no agent daemon is connected for 'box'"
    );
    assert_eq!(
        preview_dialer(&host("ssh", "docker"), &Some(container()), false).unwrap(),
        PreviewDialer::Ssh(Carrier::Dialed { user_id: 4 })
    );
    assert_eq!(
        preview_dialer(&host("ssh", "direct"), &None, false).unwrap(),
        PreviewDialer::Ssh(Carrier::Dialed { user_id: 2 })
    );
    assert_eq!(
        gateway(preview_dialer(&host("pigeon", "direct"), &None, false).unwrap_err()),
        "the bound host has an unknown transport"
    );
}

#[test]
fn a_service_is_on_the_machine_or_in_a_container() {
    assert!(matches!(
        bound_service(&host("local", "direct"), &None),
        Ok(Service::Direct)
    ));
    assert_eq!(
        gateway(bound_service(&host("local", "direct"), &Some(container())).unwrap_err()),
        "a direct host binding unexpectedly names a container"
    );
    assert_eq!(
        gateway(bound_service(&host("local", "docker"), &None).unwrap_err()),
        "a Docker presentation has no bound container"
    );
    let mut gone = container();
    gone.unregistered_at = Some(5);
    assert_eq!(
        gateway(bound_service(&host("local", "docker"), &Some(gone)).unwrap_err()),
        "the bound container is unregistered"
    );
    match bound_service(&host("local", "docker"), &Some(container())).unwrap() {
        Service::Container { key, container_ref } => {
            assert_eq!(container_ref, "abc");
            let resolved = endpoint("10.0.0.1", 3000, PreviewDialer::Local, key);
            assert_eq!(resolved.address, "10.0.0.1:3000");
            assert_eq!(resolved.container_cache, Some((3, Some("net".to_owned()))));
        }
        other => panic!("{other:?}"),
    }
    let direct = direct_endpoint(PreviewDialer::Local, 80);
    assert_eq!(direct.address, "127.0.0.1:80");
    assert_eq!(direct.container_cache, None);
}

fn networks() -> ContainerNetworks {
    ContainerNetworks {
        mode: "bridge".to_owned(),
        addresses: vec![("net".to_owned(), "10.0.0.7".to_owned())],
    }
}

fn rows(transport: &str, exec_mode: &str, bound: Option<HostContainer>) -> ResolveEvent {
    ResolveEvent::Rows {
        host: Some(host(transport, exec_mode)),
        container: bound.map(Some),
        agent_connected: false,
    }
}

fn opening(bypass_cache: bool) -> ResolveStep {
    ResolveStep::Binding {
        port: 3000,
        bypass_cache,
    }
}

fn address(step: &ResolveStep) -> &str {
    match step {
        ResolveStep::Resolved(endpoint) => &endpoint.address,
        other => panic!("{other:?}"),
    }
}

#[test]
fn a_container_is_asked_once_while_its_address_is_young() {
    let mut cache = ContainerAddressCache::new();
    let step = resolve_step(
        opening(false),
        rows("local", "docker", Some(container())),
        &mut cache,
        100,
    );
    let step = resolve_step(step, ResolveEvent::Dialed, &mut cache, 100);
    match &step {
        ResolveStep::Inspecting { container_ref, .. } => assert_eq!(container_ref, "abc"),
        other => panic!("{other:?}"),
    }
    let step = resolve_step(step, ResolveEvent::Networks(Ok(networks())), &mut cache, 100);
    assert_eq!(address(&step), "10.0.0.7:3000");
    // An ended resolution stays as it is.
    let step = resolve_step(step, ResolveEvent::Dialed, &mut cache, 100);
    assert_eq!(address(&step), "10.0.0.7:3000");

    let dialing = |bypass_cache: bool, cache: &mut ContainerAddressCache| {
        resolve_step(
            opening(bypass_cache),
            rows("local", "docker", Some(container())),
            cache,
            101,
        )
    };
    let again = dialing(false, &mut cache);
    let again = resolve_step(again, ResolveEvent::Dialed, &mut cache, 101);
    assert_eq!(address(&again), "10.0.0.7:3000");
    let bypassing = dialing(true, &mut cache);
    let bypassing = resolve_step(bypassing, ResolveEvent::Dialed, &mut cache, 101);
    assert!(matches!(bypassing, ResolveStep::Inspecting { .. }));
    let old = dialing(false, &mut cache);
    let old = resolve_step(old, ResolveEvent::Dialed, &mut cache, 100 + ADDRESS_TTL);
    assert!(matches!(old, ResolveStep::Inspecting { .. }));
}

#[test]
fn a_resolution_is_refused_in_order() {
    let mut cache = ContainerAddressCache::new();
    let refused = |step: ResolveStep| match step {
        ResolveStep::Failed(error) => gateway(error),
        other => panic!("{other:?}"),
    };
    let step = resolve_step(opening(false), rows("pigeon", "direct", None), &mut cache, 0);
    assert_eq!(refused(step), "the bound host has an unknown transport");
    let step = resolve_step(opening(false), rows("agent", "direct", None), &mut cache, 0);
    assert_eq!(refused(step), "no agent daemon is connected for 'box'");
    let step = resolve_step(opening(false), rows("local", "docker", None), &mut cache, 0);
    let step = resolve_step(step, ResolveEvent::Dialed, &mut cache, 0);
    assert_eq!(refused(step), "a Docker presentation has no bound container");
    let step = resolve_step(opening(false), rows("local", "direct", None), &mut cache, 0);
    let step = resolve_step(step, ResolveEvent::Dialed, &mut cache, 0);
    assert_eq!(address(&step), "127.0.0.1:3000");
    let asking = |cache: &mut ContainerAddressCache| {
        let event = rows("local", "docker", Some(container()));
        let step = resolve_step(opening(false), event, cache, 0);
        resolve_step(step, ResolveEvent::Dialed, cache, 0)
    };
    let step = asking(&mut cache);
    let fault = Fault::Unreachable("no daemon".to_owned());
    let step = resolve_step(step, ResolveEvent::Networks(Err(fault)), &mut cache, 0);
    assert_eq!(refused(step), "no daemon");
    let step = asking(&mut cache);
    let lost = ResolveEvent::Unreached(AppError::BadGateway("gone".to_owned()));
    assert_eq!(refused(resolve_step(step, lost, &mut cache, 0)), "gone");
}

#[test]
fn a_joined_address_splits_into_its_halves() {
    for (host, port) in [("::1", 8080), ("", 0), ("10.0.0.1", 65535)] {
        assert_eq!(split_address(&format!("{host}:{port}")), Ok((host, port)));
    }
}
