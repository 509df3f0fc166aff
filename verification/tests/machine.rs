use faber::environment::confine::{lies_in, peel, rebuild};
use faber::environment::edit::{apply, apply_replace, count_matches, lines, Replace, Window};
use faber::environment::exec::{outcome_of, Cursor, Exec, Outcome, Run, Signal};
use faber::environment::glob::{glob_matches, validate_glob};
use faber::environment::local::{
    kind_of, missing, LocalFiles, LocalProc, LocalSpawn, LocalTarget, Probed,
};
use faber::environment::machine::{
    apply_patch, Applied, capture, exec_outcome, list, resolve_cwd, slice, Confined, DirEntry,
    EntryKind, Machine, PatchOp, Patching, Stat, CAPTURE_CAP, SPILL_DIR, SPILL_THRESHOLD,
};
use faber::environment::path::{Root, RootedPath};
use faber::environment::ssh::files::{ancestors, own_entries, SftpFiles};
use faber::environment::target::Target;
use faber::error::{Capability, Denial, Fault};

fn machine() -> Machine {
    let probed = Probed {
        os: "linux".to_owned(),
        arch: "x86_64".to_owned(),
        tools: vec![],
    };
    let root = Root::new("/work").unwrap();
    Machine::new(LocalTarget::bind("work".to_owned(), root, probed, 0xbeef))
}

fn path(text: &str) -> RootedPath {
    RootedPath::new(text).unwrap()
}

fn exec(command: &str) -> Exec {
    Exec {
        command: command.to_owned(),
        cwd: None,
        env: vec![("B".to_owned(), "2".to_owned())],
        stdin: None,
        timeout_ms: 1000,
    }
}

#[test]
fn globs_match_faber_side_without_crossing_a_directory() {
    assert!(glob_matches("*.rs", "main.rs"));
    assert!(!glob_matches("*.rs", "main.md"));
    assert!(glob_matches("m?in.rs", "main.rs"));
    assert!(glob_matches("[mp]ain.rs", "main.rs"));
    assert!(!glob_matches("[!m]ain.rs", "main.rs"));
    assert!(validate_glob("src/*.rs").is_err());
}

#[test]
fn a_rejected_glob_says_why() {
    let reason = |pattern: &str| match validate_glob(pattern) {
        Err(Fault::Denied(Denial::BadPattern { reason, .. })) => reason,
        other => panic!("{other:?}"),
    };
    assert_eq!(
        reason(""),
        "an empty pattern matches nothing; omit the glob instead"
    );
    assert_eq!(reason("[abc"), "unterminated `[`");
    assert_eq!(reason("[[a]"), "nested `[`");
    assert_eq!(
        reason("a/b"),
        "`list` is non-recursive; a glob matches names in one directory"
    );
    assert!(validate_glob("[a]b]*?").is_ok());
    assert!(glob_matches("*", ""));
    assert!(glob_matches("[!]x", "ax"));
    assert!(!glob_matches("[]x", "ax"));
    assert!(glob_matches("a*b*c", "aXbYc"));
}

#[test]
fn a_path_leaving_the_root_is_refused() {
    for escape in ["/../etc/passwd", "~/.ssh/id_rsa", "relative/path"] {
        assert!(matches!(
            machine().path(escape),
            Err(Fault::Denied(Denial::PathEscape { .. }))
        ));
    }
    assert_eq!(machine().path("/a/..b").unwrap().as_str(), "/a/..b");
    assert_eq!(machine().root().as_str(), "/work");
    assert_eq!(path("/work").join("a").unwrap().as_str(), "/work/a");
    assert_eq!(path("/").join("a").unwrap().as_str(), "/a");
    assert!(path("/work").join("..").is_err());
}

#[test]
fn a_window_past_the_end_is_out_of_range_and_a_window_inside_is_flagged() {
    let body = b"a\nb\nc\nd\n";
    let span = machine().read(body, &path("/lines.txt"), Some(Window { offset: 1, limit: 2 })).unwrap();
    assert_eq!(span.bytes, b"b\nc");
    assert!(span.truncated);

    let fault = machine().read(body, &path("/lines.txt"), Some(Window { offset: 99, limit: 2 })).unwrap_err();
    assert!(matches!(
        fault,
        Fault::Denied(Denial::OutOfRange {
            offset: 99,
            len: 4,
            ..
        })
    ));
    let whole = machine().read(body, &path("/lines.txt"), Some(Window { offset: 0, limit: u64::MAX })).unwrap();
    assert_eq!(whole.bytes, b"a\nb\nc\nd");
    assert!(!whole.truncated);
    // An empty file is not a window past the end.
    let nothing = machine().read(b"", &path("/empty"), Some(Window { offset: 0, limit: 5 })).unwrap();
    assert!(nothing.bytes.is_empty());
    assert_eq!(lines("a\r\nb\rc\r"), vec!["a", "b\rc\r"]);
    let lossy = machine().read(b"\xff\n", &path("/bin"), Some(Window { offset: 0, limit: 1 })).unwrap();
    assert_eq!(lossy.bytes, "\u{fffd}".as_bytes());
}

fn replace(old_text: &str, new_text: &str, all: bool) -> Replace {
    Replace {
        path: "/dup.txt".to_owned(),
        old_text: old_text.to_owned(),
        new_text: new_text.to_owned(),
        all,
    }
}

#[test]
fn an_ambiguous_edit_is_refused_rather_than_guessed_at() {
    match apply_replace(b"x\nx\n".to_vec(), &replace("x", "y", false)) {
        Err(Fault::Denied(Denial::EditRefused { reason, .. })) => assert_eq!(
            reason,
            "the anchor text appears 2 times; pass `all` to replace every occurrence"
        ),
        other => panic!("{other:?}"),
    }
    assert_eq!(
        apply_replace(b"x\nx\n".to_vec(), &replace("x", "y", true)).unwrap(),
        b"y\ny\n"
    );
}

#[test]
fn an_absent_anchor_is_a_denial_not_a_silent_no_op() {
    assert!(matches!(
        apply_replace(b"hello\n".to_vec(), &replace("goodbye", "hi", false)),
        Err(Fault::Denied(Denial::EditRefused { .. }))
    ));
    assert!(matches!(
        apply_replace(vec![0xff], &replace("a", "b", false)),
        Err(Fault::Denied(Denial::Malformed { .. }))
    ));
}

#[test]
fn matches_do_not_overlap() {
    assert_eq!(count_matches("aaaa", "aa"), 2);
    assert_eq!(count_matches("abc", ""), 4);
    assert_eq!(apply("aaaa", "aa", "b", true), "bb");
    assert_eq!(apply("aaaa", "aa", "b", false), "baa");
    assert_eq!(apply("ab", "", "-", true), "-a-b-");
    assert_eq!(apply("ab", "", "-", false), "-ab");
    assert_eq!(apply("größe", "ö", "oe", true), "groeße");
}

#[test]
fn a_command_runs_in_the_manifests_shell() {
    let run = machine().run(&exec("true"), "/real".to_owned());
    assert_eq!(run.argv, vec!["/bin/sh", "-c", "true"]);
    assert_eq!(run.cwd, "/real");
    assert_eq!(
        run.env,
        vec![
            ("FABER_AGENT".to_owned(), "1".to_owned()),
            ("FABER_TARGET".to_owned(), "work".to_owned()),
            ("B".to_owned(), "2".to_owned()),
        ]
    );
    for background in [false, true] {
        let cwd = machine().prepare(&exec("true"), background).unwrap();
        assert_eq!(cwd.as_str(), "/work");
    }
    let asked = Exec {
        cwd: Some(path("/work/sub")),
        ..exec("true")
    };
    assert_eq!(machine().prepare(&asked, false).unwrap().as_str(), "/work/sub");
    let confined = |kind: Option<EntryKind>| Confined {
        path: "/real/work".to_owned(),
        kind,
    };
    let found = resolve_cwd(path("/work"), confined(Some(EntryKind::Dir))).unwrap();
    assert_eq!(found.1, "/real/work");
    for kind in [None, Some(EntryKind::File)] {
        assert!(matches!(
            resolve_cwd(path("/work"), confined(kind)),
            Err(Fault::Denied(Denial::NotFound { .. }))
        ));
    }
}

#[test]
fn every_exit_echoes_its_target_and_resolved_cwd() {
    let outcome = exec_outcome(Some(Ok(Outcome::Completed { code: 3 }))).unwrap();
    let exit = machine().exec(path("/work"), outcome, b"out", b"err", 12);
    assert_eq!(exit.target, "work");
    assert_eq!(exit.cwd.as_str(), "/work");
    assert_eq!(exit.outcome, Outcome::Completed { code: 3 });
    assert_eq!(exit.stdout.bytes, b"out");
    assert_eq!(exit.stderr.bytes, b"err");
    assert!(!exit.stdout.spills);
}

#[test]
fn a_timeout_is_an_outcome_rather_than_a_fault() {
    assert_eq!(exec_outcome(None).unwrap(), Outcome::TimedOut);
    assert!(exec_outcome(Some(Err(Fault::Unreachable("x".to_owned())))).is_err());
}

#[test]
fn large_output_spills_to_a_path_inside_the_target() {
    let bytes = vec![b'a'; 200_000];
    let captured = capture(&bytes);
    assert!(captured.spills);
    assert!(!captured.truncated);
    let spill = machine().spill_path("stdout", 4).unwrap();
    assert!(spill.as_str().starts_with(SPILL_DIR));
    assert_eq!(spill.as_str(), "/.faber/logs/beef-4.stdout");
    let span = machine().read(&bytes, &spill, None).unwrap();
    assert_eq!(span.bytes.len(), 200_000);
    assert!(!capture(&vec![0; SPILL_THRESHOLD - 1]).spills);
    let huge = capture(&vec![0; CAPTURE_CAP + 1]);
    assert_eq!(huge.bytes.len(), CAPTURE_CAP);
    assert!(huge.truncated);
}

#[test]
fn a_background_process_reads_forward_from_a_cursor() {
    let first = slice(b"got one", 0);
    assert_eq!(first.bytes, b"got one");
    assert_eq!(first.next, 7);
    let second = slice(b"got one, two", first.next);
    assert_eq!(second.bytes, b", two");
    assert_eq!(slice(b"abc", 99).bytes, b"");
    let big = vec![1; CAPTURE_CAP + 5];
    let part = slice(&big, 0);
    assert!(part.truncated);
    assert_eq!(slice(&big, part.next).bytes.len(), 5);
    let from = Cursor {
        stdout: 1,
        stderr: 0,
    };
    let chunk = machine().chunk(b"xy", b"z", from, None);
    assert_eq!(chunk.stdout.bytes, b"y");
    assert_eq!(chunk.stderr.bytes, b"z");
    assert_eq!(chunk.next, Cursor { stdout: 2, stderr: 1 });
    assert_eq!(chunk.target, "work");
}

#[test]
fn a_spent_handle_is_not_signalled() {
    let mut target = machine();
    let id = target.start(true);
    assert_eq!(id, 1);
    assert!(target.signal(id).is_ok());
    assert!(target.stdin(id).is_ok());
    assert_eq!(target.output(id).unwrap(), None);
    target.reap(id, Outcome::Completed { code: 0 });
    target.reap(id, Outcome::TimedOut);
    assert_eq!(target.output(id).unwrap(), Some(Outcome::Completed { code: 0 }));
    assert!(matches!(
        target.signal(id),
        Err(Fault::Denied(Denial::NoSuchProcess(1)))
    ));
    let closed = target.start(false);
    assert_eq!(closed, 2);
    assert!(matches!(
        target.stdin(closed),
        Err(Fault::Denied(Denial::Malformed { .. }))
    ));
    assert_eq!(target.allocate(), 3);
}

#[test]
fn an_unknown_process_handle_is_denied_rather_than_unreachable() {
    let target = machine();
    assert!(matches!(
        target.output(999),
        Err(Fault::Denied(Denial::NoSuchProcess(999)))
    ));
    assert!(target.signal(999).is_err());
    assert!(target.stdin(999).is_err());
}

#[test]
fn a_missing_capability_is_denied_by_name() {
    let target = machine();
    assert!(target.manifest().require(Capability::Write).is_ok());
    assert!(matches!(
        target.manifest().require(Capability::Pty),
        Err(Fault::Denied(Denial::MissingCapability(Capability::Pty)))
    ));
    assert!(target.edit(true).is_ok());
    assert!(target.edit(false).is_ok());
    assert!(target.check_list(Some("*.rs")).is_ok());
    assert!(target.check_list(Some("[")).is_err());
}

fn entry(name: &str) -> DirEntry {
    DirEntry {
        name: name.to_owned(),
        kind: EntryKind::File,
        size: Some(1),
    }
}

#[test]
fn a_listing_matches_faber_side_and_stays_in_one_directory() {
    let found = vec![entry("skip.md"), entry("b.rs"), entry("a.rs")];
    let listing = list(&path("/"), &found, Some("*.rs"), 10).unwrap();
    let names: Vec<&str> = listing.entries.iter().map(|e| e.path.as_str()).collect();
    assert_eq!(names, vec!["/a.rs", "/b.rs"]);
    assert!(!listing.truncated);
}

#[test]
fn a_capped_listing_says_so() {
    let found = vec![entry("c"), entry("b"), entry("a")];
    let listing = list(&path("/d"), &found, None, 2).unwrap();
    let names: Vec<&str> = listing.entries.iter().map(|e| e.path.as_str()).collect();
    assert_eq!(names, vec!["/d/b", "/d/c"]);
    assert!(listing.truncated);
    assert!(!list(&path("/d"), &found, None, 3).unwrap().truncated);
    assert!(list(&path("/d"), &vec![entry("..")], None, 3).is_err());
}

#[test]
fn a_patch_says_how_far_it_got() {
    let stat = |path: &str| Stat {
        path: path.to_owned(),
        size: 0,
        modified: None,
    };
    let ops = || {
        vec![
            PatchOp::Add {
                path: path("/a"),
                body: vec![],
            },
            PatchOp::Delete { path: path("/b") },
            PatchOp::Move {
                from: path("/c"),
                to: path("/d"),
            },
        ]
    };
    let mut whole = Patching::new(ops());
    assert!(matches!(whole.next(), Some(PatchOp::Add { .. })));
    apply_patch(&mut whole, Ok(Some(stat("/a"))));
    assert!(matches!(whole.next(), Some(PatchOp::Delete { .. })));
    apply_patch(&mut whole, Ok(None));
    apply_patch(&mut whole, Ok(Some(stat("/d"))));
    assert!(whole.next().is_none());
    assert!(whole.fault.is_none());
    assert!(matches!(
        whole.applied.as_slice(),
        [Applied::Wrote(_), Applied::Deleted, Applied::Wrote(_)]
    ));

    let mut stopped = Patching::new(ops());
    apply_patch(&mut stopped, Ok(Some(stat("/a"))));
    apply_patch(&mut stopped, Err(Fault::Unreachable("x".to_owned())));
    assert!(stopped.next().is_none());
    // Nothing behind the failing step is attempted or marked.
    apply_patch(&mut stopped, Ok(Some(stat("/d"))));
    assert_eq!(stopped.applied.len(), 1);
    assert!(matches!(stopped.fault, Some(Fault::Unreachable(_))));
}

#[test]
fn a_local_command_needs_a_program_and_no_terminal() {
    let run = |argv: Vec<String>, pty: bool| Run {
        argv,
        cwd: "/".to_owned(),
        env: vec![],
        pty,
    };
    assert!(LocalSpawn::spawn(&run(vec!["ls".to_owned()], false)).is_ok());
    assert!(matches!(
        LocalSpawn::spawn(&run(vec![], true)),
        Err(Fault::Denied(Denial::MissingCapability(Capability::Pty)))
    ));
    assert!(matches!(
        LocalSpawn::spawn(&run(vec![], false)),
        Err(Fault::Denied(Denial::Malformed { .. }))
    ));
}

#[test]
fn a_local_process_is_reaped_once() {
    let mut process = LocalProc {
        held: true,
        pid: Some(7),
        outcome: None,
    };
    assert_eq!(process.wait().unwrap(), None);
    assert_eq!(process.signal().unwrap(), 7);
    let ended = outcome_of(Some(9), None);
    assert_eq!(
        ended,
        Outcome::Signaled {
            signal: Signal::Kill
        }
    );
    process.reaped(ended);
    assert_eq!(process.wait().unwrap(), Some(ended));
    assert!(process.signal().is_err());
    let spent = LocalProc {
        held: false,
        pid: None,
        outcome: None,
    };
    assert!(spent.wait().is_err());
    assert_eq!(outcome_of(Some(77), None), Outcome::Completed { code: -1 });
    assert_eq!(outcome_of(None, Some(3)), Outcome::Completed { code: 3 });
    assert_eq!(Signal::from_number(15).unwrap().number(), 15);
}

#[test]
fn a_new_file_is_confined_by_its_deepest_ancestor() {
    let files = LocalFiles {
        real_root: "/real/work".to_owned(),
    };
    let wanted = path("/work/new/file");
    let state = LocalFiles::begin(&wanted);
    assert_eq!(state.existing, "/work/new/file");
    let state = LocalFiles::climb(state, &wanted).unwrap();
    let state = LocalFiles::climb(state, &wanted).unwrap();
    assert_eq!(state.existing, "/work");
    assert_eq!(state.trailing, vec!["file", "new"]);
    let (full, whole) = files.resolve(&state, "/real/work", &wanted).unwrap();
    assert_eq!(full, "/real/work/new/file");
    assert!(!whole);
    // A link that leads out of the root.
    assert!(matches!(
        files.resolve(&state, "/etc", &wanted),
        Err(Fault::Denied(Denial::PathEscape { .. }))
    ));
    // A directory beside the root is not inside it.
    assert!(files
        .resolve(&LocalFiles::begin(&wanted), "/real/workbench", &wanted)
        .is_err());
    let state = LocalFiles::climb(state, &wanted).unwrap();
    assert_eq!(state.existing, "/");
    assert!(LocalFiles::climb(state, &wanted).is_err());
}

#[test]
fn a_far_file_is_confined_the_same_way() {
    let files = SftpFiles {
        real_root: "/".to_owned(),
    };
    let wanted = path("/a/b");
    let state = SftpFiles::climb(SftpFiles::begin(&wanted), &wanted).unwrap();
    assert_eq!(
        files.resolve(&state, "/x", &wanted).unwrap(),
        ("/x/b".to_owned(), false)
    );
    let state = SftpFiles::climb(state, &wanted).unwrap();
    assert_eq!(state.existing, "/");
    assert!(SftpFiles::climb(state, &wanted).is_err());
    assert!(lies_in("/w", "/w/x"));
    assert!(!lies_in("/w", "/wx"));
    assert_eq!(peel("/a"), Some(("/".to_owned(), "a".to_owned())));
    assert_eq!(rebuild("/", &vec!["b".to_owned(), "a".to_owned()]), "/a/b");
}

#[test]
fn directories_are_made_outermost_first() {
    assert_eq!(ancestors("/a/b/c.txt"), vec!["/a", "/a/b"]);
    assert_eq!(ancestors("/c.txt"), Vec::<String>::new());
    assert_eq!(ancestors("//a//b"), vec!["/a"]);
    let own: Vec<String> = own_entries(vec![entry("."), entry("x"), entry("..")])
        .into_iter()
        .map(|e| e.name)
        .collect();
    assert_eq!(own, vec!["x"]);
    let far = faber::environment::ssh::files::missing(&path("/a"), "No such file".to_owned());
    assert!(matches!(far, Fault::Denied(Denial::NotFound { .. })));
    let far = faber::environment::ssh::files::missing(&path("/a"), "timeout".to_owned());
    assert!(matches!(far, Fault::Unreachable(_)));
    assert!(matches!(
        missing(&path("/a"), false, "x".to_owned()),
        Fault::Unreachable(_)
    ));
    assert_eq!(kind_of(false, false, true), EntryKind::Symlink);
}
