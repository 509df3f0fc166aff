use faber::environment::docker::engine::Mount;
use faber::error::{AppError, Denial, Fault};
use faber::json::Json;
use faber::models::host::{ExecMode, Host, HostContainer, HostProbe, Image, Transport};
use faber::routes::hosts::{
    check_container, check_probe, check_update, container_response, create, create_container,
    fresh_spawn_plan, idle_command, list, managed_container, record_probe, registered, resolve_template, spawn_container,
    spawn_plan, ssh_credential_id, taken, timed_out, trimmed, unregister_container, update,
    update_container, validate_container_name, validate_docker_endpoint, validate_host_root,
    validate_name, validate_ssh_address, validate_ssh_credential, validate_transport_config,
    CreateContainerRequest, CreateHostRequest, RecordProbeRequest, SpawnEvent, SpawnOptions,
    SpawnStep, UpdateContainerRequest, UpdateHostRequest, DAEMON_TIMEOUT,
};

fn bad_request(error: AppError) -> String {
    match error {
        AppError::BadRequest(text) => text,
        other => panic!("not a bad request: {other:?}"),
    }
}

fn host(transport: &str, exec_mode: &str) -> Host {
    Host {
        id: 1,
        user_id: 2,
        name: "box".to_owned(),
        transport: transport.to_owned(),
        exec_mode: exec_mode.to_owned(),
        ssh_address: None,
        ssh_key_ref: None,
        ssh_host_key: None,
        docker_endpoint: None,
        created_at: 0,
        disabled_at: None,
        root_path: None,
        preview_network: None,
    }
}

fn container(id: u128, host_id: u128, managed_at: Option<i64>) -> HostContainer {
    HostContainer {
        id,
        host_id,
        user_id: 2,
        container_ref: "abc".to_owned(),
        name: None,
        root_path: "/work".to_owned(),
        created_at: 0,
        unregistered_at: None,
        managed_at,
        image_id: None,
    }
}

fn unchanged() -> UpdateHostRequest {
    UpdateHostRequest {
        name: None,
        transport: None,
        exec_mode: None,
        ssh_address: None,
        ssh_key_ref: None,
        ssh_host_key: None,
        docker_endpoint: None,
        root_path: None,
        disabled: None,
    }
}

#[test]
fn a_local_host_may_not_carry_ssh_configuration() {
    assert!(validate_transport_config(Transport::Local, None, None, true).is_ok());
    assert!(validate_transport_config(Transport::Local, Some("a@b:22"), None, true).is_err());
    assert!(validate_transport_config(Transport::Local, None, Some("SHA256:x"), true).is_err());
}

#[test]
fn local_hosts_can_be_disabled_by_configuration() {
    assert!(validate_transport_config(Transport::Local, None, None, false).is_err());
    assert!(validate_transport_config(Transport::Ssh, Some("a@b:22"), None, false).is_ok());
}

#[test]
fn an_agent_host_may_not_carry_ssh_configuration_either() {
    assert!(validate_transport_config(Transport::Agent, None, None, true).is_ok());
    assert!(validate_transport_config(Transport::Agent, Some("a@b:22"), None, true).is_err());
    assert!(validate_transport_config(Transport::Agent, None, Some("SHA256:x"), true).is_err());
}

#[test]
fn an_ssh_host_needs_an_address_but_not_yet_a_host_key() {
    assert!(validate_transport_config(Transport::Ssh, None, None, true).is_err());
    // No host key is the normal state before first contact.
    assert!(validate_transport_config(Transport::Ssh, Some("a@b:22"), None, true).is_ok());
    assert!(
        validate_transport_config(Transport::Ssh, Some("a@b:22"), Some("SHA256:x"), true).is_ok()
    );
}

#[test]
fn a_container_name_is_checked_here_rather_than_relayed_from_the_daemon() {
    assert!(validate_container_name("faber-01920b").is_ok());
    assert!(validate_container_name("build.1_x-2").is_ok());
    // The daemon's own rule: the first character carries no punctuation.
    assert!(validate_container_name("-leading-dash").is_err());
    assert!(validate_container_name("has space").is_err());
    assert!(validate_container_name("").is_err());
}

#[test]
fn a_blank_field_is_not_a_value() {
    // Whitespace reaching a nullable column would make "unset" and "set to
    // nothing" two states that look different and behave the same.
    assert_eq!(trimmed(Some("  ")), None);
    assert_eq!(trimmed(Some(" SHA256:x ")), Some("SHA256:x"));
    assert!(validate_transport_config(Transport::Local, Some(""), Some(""), true).is_ok());
}

#[test]
fn white_space_of_any_script_is_trimmed() {
    assert_eq!(trimmed(Some("\u{3000}\u{a0}x y\t\n")), Some("x y"));
    assert_eq!(trimmed(None), None);
}

#[test]
fn names_and_roots_are_bounded() {
    assert_eq!(bad_request(validate_name("").unwrap_err()), "name is required");
    assert!(validate_name(&"ü".repeat(100)).is_ok());
    assert_eq!(
        bad_request(validate_name(&"ü".repeat(101)).unwrap_err()),
        "name must be 100 characters or fewer"
    );
    assert!(validate_host_root("/").is_ok());
    assert_eq!(
        bad_request(validate_host_root("work").unwrap_err()),
        "root_path must be absolute"
    );
}

#[test]
fn an_ssh_address_has_a_user_a_host_and_a_port() {
    let shape = "ssh_address must use the format user@host:port";
    assert!(validate_ssh_address("a@b:22").is_ok());
    assert!(validate_ssh_address("a@b@c:65535").is_ok());
    assert!(validate_ssh_address("a@::1:1").is_ok());
    for address in ["ab:22", "@b:22", "a@", "a@b", "a@b:"] {
        assert_eq!(bad_request(validate_ssh_address(address).unwrap_err()), shape);
    }
    for address in ["a@b:0", "a@b:00", "a@b:65536", "a@b:x", "a@b: 22", "a@b:-1"] {
        assert_eq!(
            bad_request(validate_ssh_address(address).unwrap_err()),
            "ssh_address port must be between 1 and 65535"
        );
    }
}

#[test]
fn a_local_docker_host_says_where_its_daemon_is() {
    assert!(validate_docker_endpoint(Transport::Local, ExecMode::Direct, None).is_ok());
    assert_eq!(
        bad_request(
            validate_docker_endpoint(Transport::Local, ExecMode::Docker, None).unwrap_err()
        ),
        "docker_endpoint is required for a local docker host"
    );
    assert!(validate_docker_endpoint(Transport::Ssh, ExecMode::Docker, None).is_ok());
    assert!(
        validate_docker_endpoint(Transport::Local, ExecMode::Docker, Some("unix:///d")).is_ok()
    );
    assert!(validate_docker_endpoint(Transport::Local, ExecMode::Docker, Some("tcp://d")).is_ok());
    assert_eq!(
        bad_request(
            validate_docker_endpoint(Transport::Ssh, ExecMode::Docker, Some("/d")).unwrap_err()
        ),
        "docker_endpoint must start with 'unix://' or 'tcp://'"
    );
}

#[test]
fn an_ssh_key_is_a_credential_id() {
    assert_eq!(
        ssh_credential_id(Some("00000000-0000-0000-0000-0000000000ff")).unwrap(),
        255
    );
    assert_eq!(
        bad_request(ssh_credential_id(Some("my key")).unwrap_err()),
        "ssh_key_ref is not a credential id"
    );
    assert_eq!(
        bad_request(ssh_credential_id(None).unwrap_err()),
        "ssh_key_ref is required when transport is 'ssh'"
    );
    assert_eq!(
        bad_request(validate_ssh_credential(false).unwrap_err()),
        "SSH key credential not found"
    );
    assert!(validate_ssh_credential(true).is_ok());
}

#[test]
fn a_new_host_is_trimmed_and_checked() {
    let input = CreateHostRequest {
        name: " box ".to_owned(),
        transport: Transport::Ssh,
        exec_mode: ExecMode::Direct,
        ssh_address: Some(" a@b:22 ".to_owned()),
        ssh_key_ref: Some(" ".to_owned()),
        ssh_host_key: None,
        docker_endpoint: None,
        root_path: Some("/srv".to_owned()),
    };
    let new = create(&input, true, 9, 8).unwrap();
    assert_eq!(new.id, 9);
    assert_eq!(new.user_id, 8);
    assert_eq!(new.name, "box");
    assert_eq!(new.transport, "ssh");
    assert_eq!(new.exec_mode, "direct");
    assert_eq!(new.ssh_address.as_deref(), Some("a@b:22"));
    assert_eq!(new.ssh_key_ref, None);
    assert_eq!(new.root_path.as_deref(), Some("/srv"));
    assert_eq!(bad_request(taken(&new.name)), "a host named 'box' already exists");
    assert_eq!(
        bad_request(registered("abc")),
        "'abc' is already registered on this host"
    );
    let relative = CreateHostRequest {
        root_path: Some("srv".to_owned()),
        ..input
    };
    assert_eq!(
        bad_request(create(&relative, true, 9, 8).unwrap_err()),
        "root_path must be absolute"
    );
}

#[test]
fn a_change_is_checked_against_the_row_it_makes() {
    let mut current = host("ssh", "direct");
    current.ssh_address = Some("a@b:22".to_owned());
    current.ssh_key_ref = Some("key".to_owned());
    // Clearing the address is refused on an ssh host.
    let clearing = UpdateHostRequest {
        ssh_address: Some(None),
        ..unchanged()
    };
    assert_eq!(
        bad_request(check_update(&current, &clearing, true).unwrap_err()),
        "ssh_address is required when transport is 'ssh'"
    );
    assert_eq!(
        check_update(&current, &unchanged(), true).unwrap(),
        Some(Some("key".to_owned()))
    );
    // A local host stays one even where new ones are not allowed.
    let local = host("local", "direct");
    assert_eq!(check_update(&local, &unchanged(), false).unwrap(), None);
}

#[test]
fn going_local_clears_what_an_ssh_host_had() {
    let mut current = host("ssh", "direct");
    current.ssh_address = Some("a@b:22".to_owned());
    current.ssh_key_ref = Some("key".to_owned());
    current.ssh_host_key = Some("SHA256:x".to_owned());
    let local = UpdateHostRequest {
        transport: Some(Transport::Local),
        ..unchanged()
    };
    assert_eq!(check_update(&current, &local, true).unwrap(), None);
    let patch = update(&current, &local, 7).unwrap();
    assert_eq!(patch.transport, Some("local"));
    assert_eq!(patch.ssh_address, Some(None));
    assert_eq!(patch.ssh_key_ref, Some(None));
    assert_eq!(patch.ssh_host_key, Some(None));
    assert_eq!(
        bad_request(check_update(&current, &local, false).unwrap_err()),
        bad_request(
            validate_transport_config(Transport::Local, None, None, false).unwrap_err()
        )
    );
    // An address that is named along with it is still held against it.
    let named = UpdateHostRequest {
        transport: Some(Transport::Local),
        ssh_address: Some(Some("a@b:22".to_owned())),
        ..unchanged()
    };
    assert!(check_update(&current, &named, true).is_err());
}

#[test]
fn a_moved_host_loses_its_key() {
    let mut current = host("ssh", "direct");
    current.ssh_address = Some("a@b:22".to_owned());
    current.ssh_host_key = Some("SHA256:x".to_owned());
    let moved = UpdateHostRequest {
        ssh_address: Some(Some("a@c:22".to_owned())),
        ..unchanged()
    };
    let patch = update(&current, &moved, 7).unwrap();
    assert_eq!(patch.ssh_address, Some(Some("a@c:22".to_owned())));
    assert_eq!(patch.ssh_host_key, Some(None));
    let same = UpdateHostRequest {
        ssh_address: Some(Some(" a@b:22 ".to_owned())),
        disabled: Some(true),
        ..unchanged()
    };
    let patch = update(&current, &same, 7).unwrap();
    assert_eq!(patch.ssh_host_key, None);
    assert_eq!(patch.disabled_at, Some(Some(7)));
    let local = UpdateHostRequest {
        transport: Some(Transport::Local),
        disabled: Some(false),
        ..unchanged()
    };
    let patch = update(&current, &local, 7).unwrap();
    assert_eq!(patch.transport, Some("local"));
    assert_eq!(patch.ssh_address, Some(None));
    assert_eq!(patch.ssh_key_ref, Some(None));
    assert_eq!(patch.ssh_host_key, Some(None));
    assert_eq!(patch.disabled_at, Some(None));
}

#[test]
fn a_listing_keeps_each_hosts_own() {
    let mut other = host("local", "direct");
    other.id = 5;
    let probe = |id: u128, host_id: u128| HostProbe {
        id,
        host_id,
        container_id: None,
        probed_at: 0,
        ok: true,
        error: None,
        os: Some("linux".to_owned()),
        arch: None,
        shell: None,
        tools: Some(Json::Null),
        root_path: None,
    };
    let responses = list(
        &vec![host("local", "direct"), other],
        &vec![container(1, 5, None), container(2, 1, Some(3)), container(3, 5, None)],
        &vec![probe(8, 5), probe(9, 5)],
    );
    let ids: Vec<Vec<u128>> = responses
        .iter()
        .map(|r| r.containers.iter().map(|c| c.id).collect())
        .collect();
    assert_eq!(ids, vec![vec![2], vec![1, 3]]);
    assert!(responses[0].containers[0].managed);
    assert!(responses[0].last_probe.is_none());
    assert_eq!(responses[1].last_probe.as_ref().unwrap().id, 8);
    assert!(!container_response(&container(1, 5, None)).managed);
}

#[test]
fn a_registration_is_told_what_is_missing() {
    let request = |container_ref: &str, root_path: &str| CreateContainerRequest {
        container_ref: container_ref.to_owned(),
        name: Some(" ".to_owned()),
        root_path: root_path.to_owned(),
    };
    assert_eq!(
        bad_request(check_container(&request(" ", "/w")).unwrap_err()),
        "container_ref is required"
    );
    assert_eq!(
        bad_request(check_container(&request("c", " ")).unwrap_err()),
        "root_path is required"
    );
    assert_eq!(
        bad_request(check_container(&request("c", "w")).unwrap_err()),
        "root_path must be absolute"
    );
    let new = create_container(&request(" c ", " /w "), &host("ssh", "docker"), 4, 2).unwrap();
    assert_eq!(new.container_ref, "c");
    assert_eq!(new.root_path, "/w");
    assert_eq!(new.name, None);
    assert_eq!(new.managed_at, None);
    assert!(create_container(&request("c", "/w"), &host("ssh", "direct"), 4, 2).is_err());

    let patch = update_container(
        &UpdateContainerRequest {
            container_ref: None,
            name: Some(Some(" n ".to_owned())),
            root_path: Some("/x".to_owned()),
            unregistered: Some(false),
        },
        1,
    )
    .unwrap();
    assert_eq!(patch.name, Some(Some("n".to_owned())));
    assert_eq!(patch.unregistered_at, Some(None));
    assert!(update_container(
        &UpdateContainerRequest {
            container_ref: Some(" ".to_owned()),
            name: None,
            root_path: None,
            unregistered: None,
        },
        1,
    )
    .is_err());
}

#[test]
fn only_a_managed_container_is_destroyed() {
    assert!(unregister_container(true, &container(1, 1, Some(5))).unwrap());
    assert!(!unregister_container(false, &container(1, 1, None)).unwrap());
    assert!(bad_request(unregister_container(true, &container(1, 1, None)).unwrap_err())
        .starts_with("faber did not create this container"));
}

fn image() -> Image {
    Image {
        id: 3,
        user_id: 2,
        name: "debian".to_owned(),
        reference: "debian:12".to_owned(),
        default_mounts: None,
        default_root_path: "/work".to_owned(),
        created_at: 0,
    }
}

#[test]
fn a_template_gives_the_root() {
    assert_eq!(
        bad_request(resolve_template(None, &None).unwrap_err()),
        "no such image"
    );
    assert_eq!(resolve_template(Some(image()), &None).unwrap().1, "/work");
    assert_eq!(
        resolve_template(Some(image()), &Some(" /srv ".to_owned())).unwrap().1,
        "/srv"
    );
    assert!(resolve_template(Some(image()), &Some("srv".to_owned())).is_err());
    assert!(
        bad_request(resolve_template(Some(image()), &Some("//".to_owned())).unwrap_err())
            .starts_with("root_path cannot be '/'")
    );
}

fn options() -> SpawnOptions {
    SpawnOptions {
        name: None,
        mounts: None,
        env: None,
        command: None,
    }
}

#[test]
fn a_spawn_falls_back_on_its_template() {
    let fresh = fresh_spawn_plan(&image(), options(), Ok(vec![])).unwrap();
    assert_eq!(fresh.name.len(), 38);
    assert_ne!(
        fresh.name,
        fresh_spawn_plan(&image(), options(), Ok(vec![])).unwrap().name
    );
    let plan = spawn_plan(&image(), options(), Ok(vec![]), 0x1a).unwrap();
    assert_eq!(plan.name, "faber-0000000000000000000000000000001a");
    assert_eq!(plan.command, idle_command());
    assert_eq!(plan.command, vec!["sleep", "infinity"]);
    assert_eq!(
        plan.labels,
        vec![
            ("dev.faber.managed".to_owned(), "true".to_owned()),
            ("dev.faber.image".to_owned(), "debian".to_owned()),
        ]
    );
    assert_eq!(
        bad_request(spawn_plan(&image(), options(), Err("eof".to_owned()), 1).unwrap_err()),
        "image 'debian' has default_mounts faber cannot read: eof"
    );
    let own = SpawnOptions {
        name: Some(" build ".to_owned()),
        mounts: Some(vec![Mount {
            source: "/a".to_owned(),
            target: "/b".to_owned(),
            read_only: true,
        }]),
        env: Some(vec![("K".to_owned(), "V".to_owned())]),
        command: Some(vec!["top".to_owned()]),
    };
    let plan = spawn_plan(&image(), own, Err("eof".to_owned()), 1).unwrap();
    assert_eq!(plan.name, "build");
    assert_eq!(plan.mounts.len(), 1);
    assert_eq!(plan.command, vec!["top"]);
    let managed = managed_container(
        1,
        &host("ssh", "docker"),
        2,
        "id".to_owned(),
        plan.name,
        "/work".to_owned(),
        &image(),
        6,
    );
    assert_eq!(managed.managed_at, Some(6));
    assert_eq!(managed.image_id, Some(3));
}

fn not_found() -> SpawnEvent {
    SpawnEvent::Fault(Fault::Denied(Denial::NotFound {
        path: "debian:12".to_owned(),
    }))
}

#[test]
fn a_missing_image_is_pulled_once() {
    let step = spawn_container(SpawnStep::Create { pulled: false }, not_found());
    assert!(matches!(step, SpawnStep::Pull));
    let step = spawn_container(step, SpawnEvent::Done);
    assert!(matches!(step, SpawnStep::Create { pulled: true }));
    let step = spawn_container(step, not_found());
    assert!(matches!(step, SpawnStep::Failed(AppError::BadRequest(_))));
}

#[test]
fn a_half_finished_spawn_is_undone() {
    let created = spawn_container(
        SpawnStep::Create { pulled: false },
        SpawnEvent::Created("id".to_owned()),
    );
    let removing = spawn_container(created, SpawnEvent::Fault(timed_out(DAEMON_TIMEOUT)));
    match &removing {
        SpawnStep::Remove { container, error } => {
            assert_eq!(container, "id");
            match error {
                AppError::ServiceUnavailable(text) => {
                    assert_eq!(text, "the docker daemon did not answer within 30s")
                }
                other => panic!("{other:?}"),
            }
        }
        other => panic!("{other:?}"),
    }
    assert!(matches!(
        spawn_container(removing, SpawnEvent::Done),
        SpawnStep::Failed(_)
    ));
    let registering = SpawnStep::Register {
        container: "id".to_owned(),
    };
    let removing = spawn_container(
        registering,
        SpawnEvent::Unstored(AppError::Database("x".to_owned())),
    );
    assert!(matches!(removing, SpawnStep::Remove { .. }));
    let registering = SpawnStep::Register {
        container: "id".to_owned(),
    };
    assert!(matches!(
        spawn_container(registering, SpawnEvent::Done),
        SpawnStep::Spawned { .. }
    ));
}

#[test]
fn a_failed_probe_says_why() {
    let request = |ok: bool, error: Option<&str>| RecordProbeRequest {
        container_id: Some(4),
        ok,
        error: error.map(str::to_owned),
        os: Some(" linux ".to_owned()),
        arch: None,
        shell: None,
        tools: None,
        root_path: None,
    };
    assert!(check_probe(&request(true, None)).is_ok());
    assert_eq!(
        bad_request(check_probe(&request(false, Some(" "))).unwrap_err()),
        "error is required when ok is false"
    );
    let probe = record_probe(request(true, None), &host("ssh", "docker"), Some(1), 6).unwrap();
    assert_eq!(probe.os.as_deref(), Some("linux"));
    assert_eq!(probe.container_id, Some(4));
    assert_eq!(
        bad_request(
            record_probe(request(true, None), &host("ssh", "docker"), Some(2), 6).unwrap_err()
        ),
        "container_id names a container on a different host"
    );
}
