use faber::environment::docker::engine::{
    archive_get, archive_get_request, archive_put, archive_put_request, archive_stat,
    archive_stat_request, container_create,
    container_create_request, container_networks, container_networks_request, container_remove,
    container_remove_request, container_start, container_start_request, encode, exec_create,
    exec_create_request, exec_inspect, exec_inspect_request, exec_start, exec_start_request, image_pull,
    image_pull_request, parse_container_networks, refused, split_tag, Create, ExecState, Mount,
};
use faber::environment::docker::files::{
    enumerate, kind_of, one_file_tar, quote, ran, single_file, size_of, DockerFiles, MODE_DIR,
    MODE_SYMLINK,
};
use faber::environment::docker::spawn::{
    parent_of, recorded_pid, signal, spawn, Demultiplexer, DockerProc, DockerSpawn,
};
use faber::environment::exec::{Outcome, Run, Signal};
use faber::environment::machine::EntryKind;
use faber::environment::path::RootedPath;
use faber::error::{Denial, Fault};
use faber::json::Json;

fn path(text: &str) -> RootedPath {
    RootedPath::new(text).unwrap()
}

fn object(members: Vec<(&str, Json)>) -> Json {
    Json::object(
        members
            .into_iter()
            .map(|(key, value)| (key.to_owned(), value))
            .collect(),
    )
}

#[test]
fn a_path_with_a_space_survives_the_query_string() {
    assert_eq!(encode("/a b/c"), "%2Fa%20b%2Fc");
    assert_eq!(encode("plain-name_1.2~"), "plain-name_1.2~");
}

#[test]
fn every_byte_of_a_character_is_encoded() {
    assert_eq!(encode("é"), "%C3%A9");
    assert_eq!(encode("%"), "%25");
    assert_eq!(encode(""), "");
    let (a, b) = ("/a b", "\u{20ac}~");
    assert_eq!(encode(&format!("{a}{b}")), format!("{}{}", encode(a), encode(b)));
    assert_ne!(encode("%20"), encode(" "));
}

#[test]
fn a_stopped_container_is_unreachable_rather_than_a_denial() {
    let fault = refused(409, br#"{"message":"is not running"}"#, "build");
    assert!(matches!(fault, Fault::Unreachable(_)));
}

#[test]
fn a_registry_port_is_not_mistaken_for_a_tag() {
    assert_eq!(split_tag("alpine"), ("alpine", "latest"));
    assert_eq!(split_tag("alpine:3.20"), ("alpine", "3.20"));
    assert_eq!(
        split_tag("registry.local:5000/app"),
        ("registry.local:5000/app", "latest")
    );
    assert_eq!(
        split_tag("registry.local:5000/app:v1"),
        ("registry.local:5000/app", "v1")
    );
    assert_eq!(split_tag("alpine@sha256:abc"), ("alpine", "sha256:abc"));
}

#[test]
fn a_missing_path_is_not_found_whatever_the_body_says() {
    let fault = refused(404, b"", "/nope");
    assert!(matches!(fault, Fault::Denied(Denial::NotFound { .. })));
}

#[test]
fn a_refusal_carries_what_the_daemon_says() {
    match refused(409, br#"{"message":"stopped"}"#, "build") {
        Fault::Unreachable(text) => assert_eq!(text, "`build` is not running: stopped"),
        other => panic!("{other:?}"),
    }
    match refused(400, b"not json", "build") {
        Fault::Denied(Denial::Malformed { what, reason }) => {
            assert_eq!(what, "docker request");
            assert_eq!(reason, "the daemon answered 400");
        }
        other => panic!("{other:?}"),
    }
    match refused(500, br#"{"message":"oops"}"#, "build") {
        Fault::Unreachable(text) => assert_eq!(text, "oops"),
        other => panic!("{other:?}"),
    }
}

#[test]
fn container_network_inspection_keeps_named_nonempty_addresses() {
    let networks = parse_container_networks(
        br#"{
            "HostConfig":{"NetworkMode":"bridge"},
            "NetworkSettings":{"Networks":{
                "z":{"IPAddress":"10.2.0.3"},
                "empty":{"IPAddress":""},
                "a":{"IPAddress":"10.1.0.3"}
            }}
        }"#,
    )
    .unwrap();
    assert_eq!(networks.mode, "bridge");
    assert_eq!(
        networks.addresses,
        vec![
            ("a".into(), "10.1.0.3".into()),
            ("z".into(), "10.2.0.3".into())
        ]
    );
}

#[test]
fn unreadable_container_state_is_unreachable() {
    assert!(matches!(
        parse_container_networks(b"{"),
        Err(Fault::Unreachable(_))
    ));
    let bare = container_networks(200, b"{}", "c").unwrap();
    assert_eq!(bare.mode, "");
    assert!(bare.addresses.is_empty());
    assert!(matches!(
        container_networks(404, b"", "c"),
        Err(Fault::Denied(Denial::NotFound { .. }))
    ));
}

#[test]
fn an_exec_is_asked_for_in_full() {
    let request = exec_create_request(
        "a/b",
        &["ls".to_owned()],
        &[("K".to_owned(), "V=1".to_owned())],
        "/work",
        false,
    );
    assert_eq!(request.method, "POST");
    assert_eq!(request.target, "/v1.41/containers/a%2Fb/exec");
    assert_eq!(
        request.body.as_deref(),
        Some(
            br#"{"AttachStderr":true,"AttachStdin":true,"AttachStdout":true,"Cmd":["ls"],"Env":["K=V=1"],"Tty":false,"WorkingDir":"/work"}"#
                .as_slice()
        )
    );
    let start = exec_start_request("id", true);
    assert_eq!(start.target, "/v1.41/exec/id/start");
    assert!(start.hijack);
    assert_eq!(
        start.body.as_deref(),
        Some(br#"{"Detach":false,"Tty":true}"#.as_slice())
    );
    assert_eq!(exec_create(201, br#"{"Id":"x"}"#, "c").unwrap(), "x");
    match exec_create(201, b"{}", "c") {
        Err(Fault::Unreachable(text)) => assert_eq!(text, "the daemon created an exec with no id"),
        other => panic!("{other:?}"),
    }
    assert!(exec_start(101, b"", "e").is_ok());
    assert!(exec_start(200, b"", "e").is_ok());
    assert!(exec_start(500, b"", "e").is_err());
}

#[test]
fn an_exec_is_inspected() {
    let request = exec_inspect_request("e");
    assert_eq!((request.method, request.target.as_str()), ("GET", "/v1.41/exec/e/json"));
    let state = exec_inspect(200, br#"{"Running":false,"ExitCode":137}"#, "e").unwrap();
    assert!(!state.running);
    assert_eq!(state.exit_code, Some(137));
    let state = exec_inspect(200, br#"{"Running":true,"ExitCode":null}"#, "e").unwrap();
    assert!(state.running);
    assert_eq!(state.exit_code, None);
    assert!(matches!(
        exec_inspect(200, b"nonsense", "e"),
        Err(Fault::Unreachable(_))
    ));
}

#[test]
fn a_container_is_asked_for_in_full() {
    let mounts = [Mount {
        source: "/src".to_owned(),
        target: "/dst".to_owned(),
        read_only: true,
    }];
    let cmd = ["sleep".to_owned()];
    let labels = [("l".to_owned(), "1".to_owned())];
    let create = Create {
        name: Some("a b"),
        image: "debian",
        cmd: &cmd,
        env: &[],
        working_dir: "/work",
        mounts: &mounts,
        labels: &labels,
    };
    let request = container_create_request(&create);
    assert_eq!(request.target, "/v1.41/containers/create?name=a%20b");
    assert_eq!(
        request.body.as_deref(),
        Some(
            br#"{"Cmd":["sleep"],"Env":[],"HostConfig":{"Mounts":[{"ReadOnly":true,"Source":"/src","Target":"/dst","Type":"bind"}]},"Image":"debian","Labels":{"l":"1"},"WorkingDir":"/work"}"#
                .as_slice()
        )
    );
    let nameless = Create {
        name: None,
        ..create
    };
    assert_eq!(
        container_create_request(&nameless).target,
        "/v1.41/containers/create"
    );
    assert_eq!(container_create(201, br#"{"Id":"c"}"#, "debian").unwrap(), "c");
    match container_create(404, b"", "debian") {
        Err(Fault::Denied(Denial::NotFound { path })) => assert_eq!(path, "debian"),
        other => panic!("{other:?}"),
    }
    assert_eq!(
        container_start_request("c").target,
        "/v1.41/containers/c/start"
    );
    assert!(container_start(304, b"", "c").is_ok());
    assert!(container_start(500, b"", "c").is_err());
    assert_eq!(
        container_remove_request("c").target,
        "/v1.41/containers/c?force=true"
    );
    assert!(container_remove(404, b"", "c").is_ok());
    assert!(container_remove(409, b"", "c").is_err());
    assert_eq!(
        container_networks_request("c").target,
        "/v1.41/containers/c/json"
    );
}

#[test]
fn a_pull_fails_inside_its_own_stream() {
    assert_eq!(
        image_pull_request("registry.local:5000/app").target,
        "/v1.41/images/create?fromImage=registry.local%3A5000%2Fapp&tag=latest"
    );
    let progress = b"{\"status\":\"Pulling\"}\n{\"status\":\"Done\"}\n";
    assert!(image_pull(200, progress, "app").is_ok());
    let failing = b"{\"status\":\"Pulling\"}\n{\"error\":\"denied\"}\n{\"error\":\"later\"}";
    match image_pull(200, failing, "app") {
        Err(Fault::Denied(Denial::Malformed { what, reason })) => {
            assert_eq!(what, "image reference");
            assert_eq!(reason, "could not pull `app`: denied");
        }
        other => panic!("{other:?}"),
    }
}

#[test]
fn a_stat_rides_in_a_header() {
    assert_eq!(
        archive_stat_request("c", "/a b").target,
        "/v1.41/containers/c/archive?path=%2Fa%20b"
    );
    assert_eq!(
        archive_get_request("c", "/a").target,
        "/v1.41/containers/c/archive?path=%2Fa"
    );
    let put = archive_put_request("c", "/", vec![7]);
    assert_eq!(put.method, "PUT");
    assert_eq!(put.body, Some(vec![7]));
    // {"mode":420,"size":5}
    let header = "eyJtb2RlIjo0MjAsInNpemUiOjV9".to_owned();
    let stat = archive_stat(200, Some(header), "/a").unwrap();
    assert_eq!(kind_of(stat.as_ref().unwrap()), EntryKind::File);
    assert_eq!(size_of(&stat), 5);
    assert!(archive_stat(200, None, "/a").unwrap().is_none());
    assert!(archive_stat(404, None, "/a").unwrap().is_none());
    match archive_stat(200, Some("***".to_owned()), "/a") {
        Err(Fault::Unreachable(text)) => assert_eq!(text, "unreadable path stat"),
        other => panic!("{other:?}"),
    }
    assert!(archive_stat(500, None, "/a").is_err());
    assert_eq!(archive_get(200, vec![1], "/a").unwrap(), vec![1]);
    assert!(archive_get(404, vec![], "/a").is_err());
    assert!(archive_put(200, b"", "/").is_ok());
    assert!(archive_put(403, b"", "/").is_err());
}

#[test]
fn a_quoted_path_survives_a_single_quote_in_a_filename() {
    assert_eq!(quote("/work/it's.txt"), r"/work/it'\''s.txt");
}

#[test]
fn an_archive_round_trips_one_file() {
    let tar = one_file_tar("work/sub/file.txt", b"hello").unwrap();
    assert_eq!(single_file(&tar).unwrap(), b"hello");
}

#[test]
fn an_archive_names_every_directory_on_the_way() {
    let tar = one_file_tar("a/b/c.txt", b"x").unwrap();
    let mut archive = tar::Archive::new(std::io::Cursor::new(tar));
    let names: Vec<String> = archive
        .entries()
        .unwrap()
        .map(|entry| {
            entry
                .unwrap()
                .path()
                .unwrap()
                .to_string_lossy()
                .into_owned()
        })
        .collect();
    assert_eq!(names, vec!["a/", "a/b/", "a/b/c.txt"]);
}

#[test]
fn a_long_name_round_trips_too() {
    let name = format!("{}/{}.txt", "d".repeat(90), "f".repeat(90));
    let tar = one_file_tar(&name, b"long").unwrap();
    assert_eq!(single_file(&tar).unwrap(), b"long");
    assert!(one_file_tar("a/../b", b"").is_err());
    assert!(single_file(b"").is_err());
}

#[test]
fn a_directory_stat_reads_as_a_directory() {
    assert_eq!(
        kind_of(&object(vec![("mode", Json::Int((MODE_DIR | 0o755) as i128))])),
        EntryKind::Dir
    );
    assert_eq!(
        kind_of(&object(vec![("mode", Json::Int(0o644))])),
        EntryKind::File
    );
    assert_eq!(
        kind_of(&object(vec![("mode", Json::Int((MODE_SYMLINK | 0o777) as i128))])),
        EntryKind::Symlink
    );
}

#[test]
fn a_listing_keeps_the_top_level_of_an_archive() {
    let tar = one_file_tar("work/sub/file.txt", b"hello").unwrap();
    let entries = enumerate(&tar).unwrap();
    assert_eq!(entries.len(), 1);
    assert_eq!(entries[0].name, "sub");
    assert_eq!(entries[0].kind, EntryKind::Dir);
    let flat = one_file_tar("work/file.txt", b"hello").unwrap();
    let entries = enumerate(&flat).unwrap();
    assert_eq!(entries[0].name, "file.txt");
    assert_eq!(entries[0].kind, EntryKind::File);
    assert_eq!(entries[0].size, Some(5));
    let mut broken = flat.clone();
    broken[0] ^= 1;
    assert!(matches!(enumerate(&broken), Err(Fault::Unreachable(_))));
}

#[test]
fn files_in_a_container_are_scripted_and_archived() {
    assert_eq!(DockerFiles::new("build").container(), "build");
    assert_eq!(DockerFiles::remove(&path("/a'b")), r"rm -f -- '/a'\''b'");
    assert_eq!(
        DockerFiles::rename(&path("/a"), &path("/d/b")),
        "mkdir -p -- '/d' && mv -- '/a' '/d/b'"
    );
    let tar = DockerFiles::store(&path("/work/x"), b"body").unwrap();
    assert_eq!(DockerFiles::fetch(200, tar, &path("/work/x")).unwrap(), b"body");
    match DockerFiles::fetch(200, vec![], &path("/work/x")) {
        Err(Fault::Denied(Denial::Malformed { reason, .. })) => {
            assert_eq!(reason, "`/work/x` is not a regular file")
        }
        other => panic!("{other:?}"),
    }
    match DockerFiles::store(&path("/"), b"body") {
        Err(Fault::Unreachable(text)) => {
            assert!(text.starts_with("could not build an archive for `/`: "), "{text}")
        }
        other => panic!("{other:?}"),
    }
    let confined = DockerFiles::confine(&path("/work"), &None);
    assert_eq!(confined.kind, None);
    let state = |running: bool, exit_code: Option<i64>| ExecState { running, exit_code };
    assert!(ran(state(true, None), &path("/a")).is_none());
    assert!(ran(state(false, Some(0)), &path("/a")).unwrap().is_ok());
    assert!(ran(state(false, Some(1)), &path("/a")).unwrap().is_err());
    assert!(ran(state(false, None), &path("/a")).unwrap().is_err());
}

#[test]
fn a_pid_file_lands_under_the_root_it_was_given() {
    let mut spawn = DockerSpawn::new("build", "/work", 0xabc);
    let path = spawn.pid_path();
    assert!(path.starts_with("/work/.faber/proc/"), "{path}");
    assert_eq!(parent_of(&path), "/work/.faber/proc");
    assert_eq!(path, "/work/.faber/proc/abc-1");
    assert_eq!(spawn.pid_path(), "/work/.faber/proc/abc-2");
    assert_eq!(spawn.container(), "build");
    let more: std::collections::HashSet<String> = (0..100).map(|_| spawn.pid_path()).collect();
    assert_eq!(more.len(), 100);
}

#[test]
fn a_root_of_slash_does_not_produce_a_doubled_separator() {
    let mut spawn = DockerSpawn::new("build", "/", 7);
    assert!(spawn.pid_path().starts_with("/.faber/proc/"));
}

#[test]
fn a_command_records_its_pid_on_the_way_in() {
    let run = Run {
        argv: vec!["ls".to_owned(), "-l".to_owned()],
        cwd: "/".to_owned(),
        env: vec![],
        pty: false,
    };
    assert_eq!(
        spawn(&run, "/p/x").unwrap(),
        vec![
            "/bin/sh",
            "-c",
            "mkdir -p '/p' 2>/dev/null; printf %s $$ > '/p/x' 2>/dev/null; exec \"$0\" \"$@\"",
            "ls",
            "-l",
        ]
    );
    let empty = Run {
        argv: vec![],
        ..run
    };
    assert!(spawn(&empty, "/p/x").is_err());
    assert_eq!(parent_of("x"), "/");
    assert_eq!(parent_of("/x"), "/");
}

#[test]
fn output_is_split_however_it_arrives() {
    let mut bytes = vec![1, 0, 0, 0, 0, 0, 0, 3];
    bytes.extend(b"out");
    bytes.extend([2, 0, 0, 0, 0, 0, 0, 2]);
    bytes.extend(b"er");
    bytes.extend([0, 0, 0, 0, 0, 0, 0, 1, 9]);
    bytes.extend([1, 0, 0, 0, 0, 0, 0, 1]);
    bytes.extend(b"!");
    let mut whole = Demultiplexer::new(false);
    assert_eq!(whole.demultiplex(&bytes), (b"out!".to_vec(), b"er".to_vec()));
    let mut pieces = Demultiplexer::new(false);
    let mut out = Vec::new();
    let mut err = Vec::new();
    for byte in &bytes {
        let (o, e) = pieces.demultiplex(&[*byte]);
        out.extend(o);
        err.extend(e);
    }
    assert_eq!(out, b"out!");
    assert_eq!(err, b"er");
    let mut tty = Demultiplexer::new(true);
    assert_eq!(tty.demultiplex(b"raw"), (b"raw".to_vec(), vec![]));
}

#[test]
fn a_container_process_ends_in_a_code() {
    let mut proc = DockerProc { outcome: None };
    let running = ExecState {
        running: true,
        exit_code: None,
    };
    assert_eq!(proc.polled(running), None);
    let ended = ExecState {
        running: false,
        exit_code: Some(137),
    };
    assert_eq!(proc.polled(ended), Some(Outcome::Completed { code: 137 }));
    assert_eq!(proc.outcome, Some(Outcome::Completed { code: 137 }));
    let lost = ExecState {
        running: false,
        exit_code: None,
    };
    assert_eq!(proc.ended(lost), Outcome::Completed { code: -1 });
}

#[test]
fn a_container_process_is_signalled_by_its_pid() {
    assert_eq!(recorded_pid(b" 42\n"), Some(42));
    assert_eq!(recorded_pid(b"4294967296"), None);
    assert_eq!(recorded_pid(b"\xff"), None);
    assert_eq!(recorded_pid(b""), None);
    assert_eq!(
        signal(Some(42), Signal::Term).unwrap(),
        vec!["/bin/sh", "-c", "kill -15 42"]
    );
    assert!(matches!(
        signal(None, Signal::Kill),
        Err(Fault::Unreachable(_))
    ));
}
