use faber::environments::{
    is_announcement,
    added_labels, announcement, bind_one, bind_session, candidates, far_socket, fault, mentions,
    no_agent, reach_daemon, record_host_key, root_at, tag_environments, BindPlan, BindRows,
    Candidate, DaemonRoute, DOCKER_SOCKET,
};
use faber::error::{AppError, Capability, Denial, Fault};
use faber::message::{Message, Role};
use faber::models::host::{ExecMode, Host, HostContainer, Transport};

fn host(id: u128, name: &str, transport: &str, exec_mode: &str) -> Host {
    Host {
        id,
        user_id: 1,
        name: name.to_owned(),
        transport: transport.to_owned(),
        exec_mode: exec_mode.to_owned(),
        ssh_address: None,
        ssh_key_ref: None,
        ssh_host_key: None,
        docker_endpoint: None,
        created_at: 0,
        disabled_at: None,
        root_path: None,
        preview_network: None,
    }
}

fn container(id: u128, host_id: u128, name: Option<&str>) -> HostContainer {
    HostContainer {
        id,
        host_id,
        user_id: 1,
        container_ref: format!("ref-{id}"),
        name: name.map(str::to_owned),
        root_path: "/work".to_owned(),
        created_at: 0,
        unregistered_at: None,
        managed_at: None,
        image_id: None,
    }
}

fn bad_request(error: AppError) -> String {
    match error {
        AppError::BadRequest(text) => text,
        other => panic!("not a bad request: {other:?}"),
    }
}

#[test]
fn a_mention_is_a_name_after_an_at_that_starts_a_word() {
    assert_eq!(mentions("run it on @build please"), vec!["build"]);
    assert_eq!(mentions("@build"), vec!["build"]);
    assert_eq!(mentions("(@build)"), vec!["build"]);
    // Qualified by host, which is what a colliding name becomes.
    assert_eq!(mentions("@laptop/build"), vec!["laptop/build"]);
}

#[test]
fn an_email_address_is_not_a_mention() {
    // The `@` sits inside a word, which is what separates an address from a
    // tag.
    assert!(mentions("mail me at someone@example.com").is_empty());
    assert!(mentions("x@y").is_empty());
}

#[test]
fn a_repeat_is_tagged_once_and_punctuation_stays_out_of_the_name() {
    assert_eq!(mentions("@build and @build again"), vec!["build"]);
    assert_eq!(mentions("deploy to @staging."), vec!["staging"]);
}

#[test]
fn joined_texts_mention_what_each_does() {
    let (a, b) = ("see @x and @y", "@y, @z; @x");
    assert_eq!(mentions(&format!("{a} {b}")), vec!["x", "y", "z"]);
    assert_eq!(mentions(&format!("{a} {a}")), mentions(a));
    assert_eq!(mentions("@a\u{3000}@b\t@c"), vec!["a", "b", "c"]);
}

#[test]
fn an_announcement_is_told_from_a_notice() {
    let added = announcement(&["build".to_owned()]).unwrap();
    assert!(is_announcement(&added));
    let notice = Message::of_text(
        Role::User,
        "'<environments>' could not be reached for this run: off".to_owned(),
    );
    assert!(!is_announcement(&notice));
}

#[test]
fn a_mention_may_hold_letters_of_any_script() {
    assert_eq!(mentions("@größe, @a-b_c.d und @"), vec!["größe", "a-b_c.d"]);
    assert!(mentions("é@x").is_empty());
    assert!(mentions("@...").is_empty());
}

#[test]
fn the_announcement_is_a_conversation_turn_and_never_a_leading_one() {
    assert!(announcement(&[]).is_none());

    let one = announcement(&["build".to_owned()]).expect("one environment");
    // Not a system turn, however much it reads like one.
    assert!(matches!(one.role, Role::User));
    assert_eq!(
        one.text(),
        "<environments>User added 'build' environment</environments>"
    );

    // Several in one turn become one message, not several.
    let two = announcement(&["build".to_owned(), "staging".to_owned()]).expect("two environments");
    assert_eq!(
        two.text(),
        "<environments>User added 'build', 'staging' environments</environments>"
    );
}

#[test]
fn a_denial_is_repaired_and_an_unreachable_machine_retried() {
    let missing = fault(Fault::Denied(Denial::NotFound {
        path: "/x".to_owned(),
    }));
    assert_eq!(bad_request(missing), "`/x` was not found on that machine");
    let denied = fault(Fault::Denied(Denial::MissingCapability(Capability::Pty)));
    assert_eq!(bad_request(denied), "this target cannot pty");
    match fault(Fault::Unreachable("gone".to_owned())) {
        AppError::ServiceUnavailable(reason) => assert_eq!(reason, "gone"),
        other => panic!("{other:?}"),
    }
}

#[test]
fn every_denial_has_a_sentence() {
    assert_eq!(
        Denial::OutOfRange {
            path: "/f".to_owned(),
            offset: 9,
            len: 4
        }
        .describe(),
        "`/f` has 4 lines; line 9 is past its end"
    );
    assert_eq!(
        Denial::Malformed {
            what: "edit".to_owned(),
            reason: "no".to_owned()
        }
        .describe(),
        "malformed edit: no"
    );
    assert_eq!(Denial::NoSuchProcess(12).describe(), "no process 12");
    assert_eq!(
        Denial::BadPattern {
            pattern: "[".to_owned(),
            reason: "unterminated `[`".to_owned()
        }
        .describe(),
        "bad pattern `[`: unterminated `[`"
    );
}

#[test]
fn a_host_out_of_docker_mode_runs_no_daemon() {
    let direct = host(1, "a", "local", "direct");
    assert_eq!(
        bad_request(reach_daemon(&direct).unwrap_err()),
        "this host's exec_mode is not 'docker', so it runs no container daemon"
    );
    let mut disabled = host(1, "a", "local", "docker");
    disabled.disabled_at = Some(5);
    assert_eq!(
        bad_request(reach_daemon(&disabled).unwrap_err()),
        "this host is disabled"
    );
    let local = host(1, "a", "local", "docker");
    assert!(bad_request(reach_daemon(&local).unwrap_err()).starts_with("this host has no docker"));
    let ssh = host(1, "a", "ssh", "docker");
    assert!(matches!(reach_daemon(&ssh), Ok(DaemonRoute::Ssh)));
    let agent = host(1, "a", "agent", "docker");
    assert!(matches!(reach_daemon(&agent), Ok(DaemonRoute::Agent)));
}

#[test]
fn a_far_daemon_is_dialed_at_a_socket_path() {
    let mut h = host(1, "a", "ssh", "docker");
    assert_eq!(far_socket(&h, "ssh").unwrap(), DOCKER_SOCKET);
    h.docker_endpoint = Some("unix://unix:///run/d.sock".to_owned());
    assert_eq!(far_socket(&h, "ssh").unwrap(), "/run/d.sock");
    h.docker_endpoint = Some("/run/d.sock".to_owned());
    assert_eq!(far_socket(&h, "ssh").unwrap(), "/run/d.sock");
    h.docker_endpoint = Some("tcp://1.2.3.4:2375".to_owned());
    assert_eq!(
        bad_request(far_socket(&h, "the agent connection").unwrap_err()),
        "`tcp://1.2.3.4:2375` cannot be reached over the agent connection; \
         name the daemon's socket path on the far side"
    );
}

#[test]
fn a_key_is_recorded_on_first_contact_only() {
    let mut h = host(1, "a", "ssh", "direct");
    assert_eq!(record_host_key(&h, "SHA256:x"), Some("SHA256:x".to_owned()));
    assert_eq!(record_host_key(&h, ""), None);
    h.ssh_host_key = Some("SHA256:y".to_owned());
    assert_eq!(record_host_key(&h, "SHA256:x"), None);
    match no_agent(&h) {
        AppError::ServiceUnavailable(text) => {
            assert_eq!(text, "no agent daemon is connected for 'a'")
        }
        other => panic!("{other:?}"),
    }
}

#[test]
fn names_are_short_until_they_collide() {
    let mut laptop = host(1, "laptop", "local", "direct");
    laptop.root_path = Some("/home".to_owned());
    let server = host(2, "server", "ssh", "docker");
    let rootless = host(3, "rootless", "local", "direct");
    let hosts = vec![laptop, server, rootless];
    let containers = vec![
        container(10, 1, Some("build")),
        container(11, 2, Some("build")),
        container(12, 2, None),
        container(13, 9, Some("orphan")),
    ];
    let labels: Vec<String> = candidates(&hosts, &containers)
        .into_iter()
        .map(|c| c.label)
        .collect();
    assert_eq!(labels, vec!["laptop", "laptop/build", "server/build", "ref-12"]);
}

#[test]
fn tagging_adds_what_is_new_and_names_something() {
    let mut h = host(1, "laptop", "local", "direct");
    h.root_path = Some("/home".to_owned());
    let available: Vec<Candidate> = candidates(&vec![h], &vec![container(10, 1, Some("build"))]);
    let tags = tag_environments("@build @laptop @nobody", &vec![], &available, 7, 99);
    let labels: Vec<&str> = tags.iter().map(|t| t.label.as_str()).collect();
    assert_eq!(labels, vec!["build", "laptop"]);
    assert_eq!(tags[0].container_id, Some(10));
    assert_eq!(tags[1].container_id, None);
    assert_eq!(tags[0].session_id, 7);
    assert_eq!(tags[0].added_at, 99);
    assert_eq!(added_labels(&tags, &vec![0, 1]), vec!["laptop"]);
    // A second time changes nothing.
    let existing = vec!["build".to_owned(), "laptop".to_owned()];
    assert!(tag_environments("@build @laptop", &existing, &available, 7, 100).is_empty());
}

#[test]
fn an_unreachable_binding_is_reported() {
    let bound = bind_session(vec![
        ("a".to_owned(), Ok(())),
        ("b".to_owned(), Err("no".to_owned())),
        ("c".to_owned(), Ok(())),
    ]);
    assert_eq!(bound.registry.labels, vec!["a", "c"]);
    assert_eq!(bound.unreachable, vec![("b".to_owned(), "no".to_owned())]);
}

#[test]
fn a_binding_follows_its_rows() {
    assert!(matches!(
        bind_one(BindRows::NoHost),
        Err(AppError::NotFound)
    ));
    let mut direct = host(1, "a", "ssh", "direct");
    assert!(bad_request(
        bind_one(BindRows::Host {
            host: host(1, "a", "ssh", "direct"),
            container: None
        })
        .unwrap_err()
    )
    .starts_with("this host has no root_path"));
    direct.root_path = Some("/srv".to_owned());
    match bind_one(BindRows::Host {
        host: direct,
        container: None,
    }) {
        Ok(BindPlan::Ssh { root }) => assert_eq!(root.as_str(), "/srv"),
        other => panic!("{other:?}"),
    }
    let gone = BindRows::Host {
        host: host(1, "a", "ssh", "docker"),
        container: Some(None),
    };
    assert_eq!(
        bad_request(bind_one(gone).unwrap_err()),
        "this environment's container is no longer registered"
    );
    let found = BindRows::Host {
        host: host(1, "a", "ssh", "docker"),
        container: Some(Some(container(4, 1, None))),
    };
    match bind_one(found) {
        Ok(BindPlan::Container {
            route: DaemonRoute::Ssh,
            container_ref,
            root_path,
        }) => {
            assert_eq!(container_ref, "ref-4");
            assert_eq!(root_path, "/work");
        }
        other => panic!("{other:?}"),
    }
    assert!(root_at("work").is_err());
    assert!(root_at("/a/../b").is_err());
    assert_eq!(root_at("/work").unwrap().as_str(), "/work");
}

#[test]
fn stored_names_of_transports_and_modes_read_back() {
    for transport in [Transport::Local, Transport::Ssh, Transport::Agent] {
        assert_eq!(Transport::parse(transport.as_str()), Some(transport));
    }
    for mode in [ExecMode::Direct, ExecMode::Docker] {
        assert_eq!(ExecMode::parse(mode.as_str()), Some(mode));
    }
    assert_eq!(Transport::parse("carrier pigeon"), None);
    assert_eq!(ExecMode::parse(""), None);
}
