use faber::error::AppError;
use faber::json::Json;
use faber::message::{transcript_to_message, ContentBlock, Message, Role};
use faber::models::model_config::{ModelConfig, Wire};
use faber::models::session::Session;
use faber::models::thinking::{Effort, ThinkingSelection};
use faber::routes::runs::{
    check_completed, check_failed, interrupt, plan_retry, retry, retry_mode, retry_selection,
    transcript_response, RetryMode, Transcript,
};
use faber::run::client::{build_client, client_at};
use faber::run::execute::{execute, open, Happening, Phase};
use faber::run::history::{
    committed_position, fold_model_frames, load_seed, put_blob, record_history,
    record_recovery_history, recover, recovered_exchange, recovered_position, spine_position, usage_json, CoreEvent, FrameDetail, Outcome, Seed, Usage,
};
use faber::run::registry::{
    close_interrupt, close_run, observe, open_interrupt, open_run, raise_interrupt, subscribe,
    InterruptRegistry, RunRegistry,
};
use faber::run::{
    notice, record_input, title_from, title_value, wind_up, Folded, Joined, Publication,
    RunResult, TurnMessage, KIND_ENVIRONMENTS, KIND_INPUT, KIND_MESSAGE, KIND_RUN_END,
    KIND_RUN_ERROR, KIND_RUN_INTERRUPTED,
};

fn json(text: &str) -> Json {
    Json::parse(text.as_bytes()).unwrap()
}

fn encoded(json: &Json) -> String {
    String::from_utf8(json.encode()).unwrap()
}

fn config(base_url: &str, wire: &str) -> ModelConfig {
    ModelConfig {
        id: 0,
        user_id: 0,
        alias: "fast".to_owned(),
        base_url: base_url.to_owned(),
        wire: wire.to_owned(),
        wire_id: "opus-5".to_owned(),
        family: None,
        credential_id: None,
        params: Json::object(vec![]),
        capabilities: Json::object(vec![]),
        created_at: 0,
    }
}

fn said(publications: &[Publication]) -> Vec<(i64, &str, bool)> {
    publications
        .iter()
        .map(|p| (p.event.seq, p.event.kind.as_str(), p.persist))
        .collect()
}

fn raw(event: &str) -> Happening {
    Happening::Yielded {
        event: json(event),
        folded: Folded {
            flushed: None,
            persist_raw: false,
            completed: None,
        },
    }
}

#[test]
fn a_client_needs_an_address_and_a_known_wire() {
    let plan = build_client(&config("https://api.example.com", "openai")).unwrap();
    assert_eq!(plan.wire, Wire::Openai);
    // The address is written back in its normal form.
    assert_eq!(plan.base_url, "https://api.example.com/");
    match build_client(&config("not a url", "openai")) {
        Err(AppError::BadRequest(text)) => assert_eq!(text, "model fast has an invalid base_url"),
        other => panic!("{other:?}"),
    }
    match client_at(&config("x", "telnet"), Some("https://x/".to_owned())) {
        Err(AppError::BadRequest(text)) => assert_eq!(text, "model fast has an unknown wire"),
        other => panic!("{other:?}"),
    }
}

#[test]
fn a_run_is_numbered_from_its_input_to_its_end() {
    let input = vec![
        TurnMessage {
            kind: KIND_INPUT,
            message: Message::of_text(Role::User, "hi".to_owned()),
        },
        TurnMessage {
            kind: KIND_ENVIRONMENTS,
            message: Message::of_text(Role::User, "added".to_owned()),
        },
    ];
    let recorded = record_input(7, &input);
    assert_eq!(
        said(&recorded),
        vec![(0, KIND_INPUT, true), (1, KIND_ENVIRONMENTS, true)]
    );
    assert_eq!(
        encoded(&recorded[0].event.payload),
        r#"{"content":[{"text":"hi","type":"text"}],"role":"user"}"#
    );

    let opened = open(7, 2, false, &config("https://x", "anthropic"));
    assert_eq!(opened.client.unwrap().base_url, "https://x/");
    let (phase, told) = execute(opened.phase, Happening::Seeded);
    assert!(told.is_empty());
    let missing = vec![("box".to_owned(), "it is off".to_owned())];
    let (phase, told) = execute(phase, Happening::Bound(missing));
    assert_eq!(said(&told), vec![(2, KIND_ENVIRONMENTS, true)]);
    assert_eq!(
        encoded(&told[0].event.payload),
        r#"{"content":[{"text":"'box' could not be reached for this run: it is off","type":"text"}],"role":"user"}"#
    );
    let (phase, told) = execute(phase, raw(r#"{"type":"text_delta"}"#));
    assert_eq!(said(&told), vec![(3, "text_delta", false)]);
    let (phase, told) = execute(
        phase,
        Happening::Yielded {
            event: json(r#"{"no":"type"}"#),
            folded: Folded {
                flushed: Some(Json::Null),
                persist_raw: true,
                completed: Some(Json::Null),
            },
        },
    );
    assert_eq!(
        said(&told),
        vec![(4, KIND_MESSAGE, true), (5, "unknown", true), (6, KIND_MESSAGE, true)]
    );
    let (phase, told) = execute(phase, Happening::Quiet(Some(Json::Null)));
    assert_eq!(said(&told), vec![(7, KIND_MESSAGE, true)]);
    // A late event changes nothing.
    let (phase, told) = execute(phase, raw("{}"));
    assert!(told.is_empty());
    let (phase, _) = execute(
        phase,
        Happening::Returned(Joined::Finished {
            error: None,
            committed_frame: Some("f1".to_owned()),
        }),
    );
    match &phase {
        Phase::Recording {
            committed_frame, ..
        } => assert_eq!(committed_frame.as_deref(), Some("f1")),
        other => panic!("{other:?}"),
    }
    let (phase, _) = execute(phase, Happening::Recorded(Ok(true)));
    match phase {
        Phase::Ended(Ok((committed, seq))) => {
            assert!(committed);
            assert_eq!(seq, 8);
            let end = wind_up(7, RunResult::Finished { committed, seq }, false, None);
            assert!(!end.recover);
            assert_eq!(said(&[end.terminal]), vec![(8, KIND_RUN_END, true)]);
        }
        other => panic!("{other:?}"),
    }
}

#[test]
fn a_run_stopped_before_it_starts_touches_no_provider() {
    let opened = open(1, 1, true, &config("nonsense", "x"));
    assert!(opened.client.is_none());
    assert!(matches!(opened.phase, Phase::Ended(Ok((false, 1)))));
    let refused = open(1, 1, false, &config("nonsense", "x"));
    assert!(matches!(
        refused.phase,
        Phase::Ended(Err(AppError::BadRequest(_)))
    ));
}

fn joining() -> Phase {
    let phase = open(1, 1, false, &config("https://x", "openai")).phase;
    let (phase, _) = execute(phase, Happening::Seeded);
    let (phase, _) = execute(phase, Happening::Bound(vec![]));
    execute(phase, Happening::Quiet(None)).0
}

#[test]
fn an_errored_run_keeps_its_log_and_not_its_lineage() {
    let (phase, _) = execute(
        joining(),
        Happening::Returned(Joined::Finished {
            error: Some("boom".to_owned()),
            committed_frame: Some("f1".to_owned()),
        }),
    );
    match &phase {
        Phase::Recording {
            committed_frame,
            error,
            ..
        } => {
            assert_eq!(*committed_frame, None);
            assert_eq!(error.as_deref(), Some("boom"));
        }
        other => panic!("{other:?}"),
    }
    match execute(phase, Happening::Recorded(Ok(false))).0 {
        Phase::Ended(Err(AppError::Harness(text))) => assert_eq!(text, "boom"),
        other => panic!("{other:?}"),
    }
    assert!(matches!(
        execute(joining(), Happening::Returned(Joined::Panicked)).0,
        Phase::Ended(Err(AppError::Internal))
    ));
    assert!(matches!(
        execute(joining(), Happening::Returned(Joined::Failed("x".to_owned()))).0,
        Phase::Ended(Err(AppError::Harness(_)))
    ));
    // A row that could not be stored ends the run where it stands.
    let (phase, _) = execute(joining(), Happening::Failed(AppError::Internal));
    let (phase, told) = execute(phase, raw("{}"));
    assert!(told.is_empty());
    assert!(matches!(phase, Phase::Ended(Err(AppError::Internal))));
}

#[test]
fn a_stop_is_reported_ahead_of_the_error_it_causes() {
    let failed = || RunResult::Failed {
        message: "boom".to_owned(),
    };
    let end = wind_up(1, failed(), false, Some(4));
    assert!(end.recover);
    assert_eq!(end.terminal.event.seq, 5);
    assert_eq!(end.terminal.event.kind, KIND_RUN_ERROR);
    assert_eq!(encoded(&end.terminal.event.payload), r#"{"message":"boom"}"#);
    let stopped = wind_up(1, failed(), true, None);
    assert_eq!(stopped.terminal.event.seq, 0);
    assert_eq!(stopped.terminal.event.kind, KIND_RUN_INTERRUPTED);
    assert_eq!(encoded(&stopped.terminal.event.payload), "null");
    let uncommitted = RunResult::Finished {
        committed: false,
        seq: 3,
    };
    assert!(wind_up(1, uncommitted, false, None).recover);
}

#[test]
fn a_title_is_trimmed_and_bounded() {
    assert_eq!(title_from(&Json::text("  My title ")).unwrap(), "My title");
    assert_eq!(
        title_from(&Json::Null).unwrap_err(),
        "session.set_title expects a string"
    );
    assert_eq!(title_from(&Json::text(" ")).unwrap_err(), "title cannot be empty");
    assert!(title_from(&Json::text(&"é".repeat(200))).is_ok());
    assert_eq!(
        title_from(&Json::text(&"é".repeat(201))).unwrap_err(),
        "title must be 200 characters or fewer"
    );
    assert_eq!(encoded(&title_value(None)), "null");
    assert_eq!(encoded(&title_value(Some("t".to_owned()))), r#""t""#);
    assert_eq!(
        encoded(&notice("n".to_owned())),
        r#"{"content":[{"text":"n","type":"text"}],"role":"user"}"#
    );
}

#[test]
fn a_channel_lives_while_something_uses_it() {
    let mut registry = RunRegistry::new();
    let first = open_run(&mut registry, 1);
    assert_eq!(subscribe(&mut registry, 1), first);
    assert_eq!(open_run(&mut registry, 1), first);
    close_run(&mut registry, 1);
    // One run is still publishing.
    assert_eq!(subscribe(&mut registry, 1), first);
    let other = subscribe(&mut registry, 2);
    assert_ne!(other, first);
    observe(&mut registry, 1, 0);
    close_run(&mut registry, 1);
    // Nothing publishes and nobody listens: the next channel is another one.
    assert_ne!(subscribe(&mut registry, 1), first);
}

#[test]
fn a_stop_reaches_an_open_run_only() {
    let mut registry = InterruptRegistry::new();
    assert!(!raise_interrupt(&mut registry, 1));
    open_interrupt(&mut registry, 1);
    assert!(!registry.raised(1));
    assert!(raise_interrupt(&mut registry, 1));
    assert!(raise_interrupt(&mut registry, 1));
    assert!(registry.raised(1));
    close_interrupt(&mut registry, 1);
    assert!(!raise_interrupt(&mut registry, 1));
    assert!(interrupt(true, None).is_ok());
    assert!(matches!(interrupt(false, None), Err(AppError::NotFound)));
    assert!(matches!(
        interrupt(false, Some(Some(1))),
        Err(AppError::Conflict(_))
    ));
    assert!(matches!(
        interrupt(false, Some(None)),
        Err(AppError::ServiceUnavailable(_))
    ));
}

fn log() -> Vec<CoreEvent> {
    let frame = |id: &str| id.to_owned();
    vec![
        CoreEvent::FrameStart {
            frame: frame("t"),
            detail: FrameDetail::Tool,
        },
        CoreEvent::FrameStart {
            frame: frame("a"),
            detail: FrameDetail::Model,
        },
        CoreEvent::ModelRequest {
            frame: frame("b"),
            body: b"req".to_vec(),
        },
        CoreEvent::ModelEvent {
            frame: frame("b"),
            event: Json::Int(1),
        },
        CoreEvent::ModelEvent {
            frame: frame("t"),
            event: Json::Int(2),
        },
        CoreEvent::ModelUsage {
            frame: frame("b"),
            usage: Usage {
                input_tokens: 1,
                output_tokens: 2,
                cache_read_input_tokens: 3,
                cache_creation_input_tokens: 4,
                reasoning_tokens: 5,
            },
        },
        CoreEvent::FrameStop {
            frame: frame("a"),
            outcome: Outcome::Failed {
                error: "no".to_owned(),
            },
        },
        CoreEvent::FrameStop {
            frame: frame("b"),
            outcome: Outcome::Succeeded,
        },
        CoreEvent::Other,
    ]
}

#[test]
fn a_log_folds_into_its_model_frames() {
    let frames = fold_model_frames(&log());
    let ids: Vec<&str> = frames.iter().map(|f| f.0.as_str()).collect();
    assert_eq!(ids, vec!["a", "b"]);
    assert_eq!(
        encoded(frames[0].1.outcome.as_ref().unwrap()),
        r#"{"error":"no","type":"failed"}"#
    );
    assert_eq!(frames[1].1.request.as_deref(), Some(b"req".as_slice()));
    assert_eq!(frames[1].1.events.len(), 1);
    assert_eq!(
        encoded(&usage_json(frames[1].1.usage.unwrap())),
        r#"{"cache_read_tokens":3,"cache_write_tokens":4,"input_tokens":1,"output_tokens":2,"reasoning_tokens":5}"#
    );
}

const EMPTY_SHA256: [u8; 32] = [
    0xe3, 0xb0, 0xc4, 0x42, 0x98, 0xfc, 0x1c, 0x14, 0x9a, 0xfb, 0xf4, 0xc8, 0x99, 0x6f, 0xb9, 0x24,
    0x27, 0xae, 0x41, 0xe4, 0x64, 0x9b, 0x93, 0x4c, 0xa4, 0x95, 0x99, 0x1b, 0x78, 0x52, 0xb8, 0x55,
];

#[test]
fn a_blob_is_stored_under_its_digest() {
    let blob = put_blob(b"", 9);
    assert_eq!(blob.digest, EMPTY_SHA256);
    assert_eq!(blob.byte_length, 0);
    assert_eq!(blob.created_at, 9);
    assert_ne!(put_blob(b"x", 9).digest, EMPTY_SHA256);
}

#[test]
fn only_the_committed_frame_carries_the_lineage() {
    let ids: Vec<u128> = (1..=9).collect();
    let lineage = Some(b"lineage".to_vec());
    let history = record_history(5, &log(), &Some("b".to_owned()), &lineage, &ids, 10, 20);
    assert_eq!(history.committed, Some(2));
    assert_eq!(history.exchanges.len(), 2);
    assert!(history.exchanges[0].lineage.is_none());
    assert_eq!(
        history.exchanges[0].exchange.request_blob_digest,
        EMPTY_SHA256
    );
    let second = &history.exchanges[1];
    assert_eq!(second.lineage.as_ref().unwrap().data, b"lineage");
    assert_eq!(second.events.as_ref().unwrap().data, b"[1]");
    assert_eq!(second.exchange.started_at, 10);
    assert_eq!(second.exchange.completed_at, Some(20));
    let nothing = record_history(5, &log(), &None, &lineage, &ids, 10, 20);
    assert_eq!(nothing.committed, None);
    assert!(nothing.exchanges[1].lineage.is_none());
    let position = spine_position(3, 5, 2, true, 20);
    assert_eq!(position.seq, 4);
    assert_eq!(committed_position(3, 5, 2, 20), position);
    let recovered = recovered_position(3, 5, 2, 20);
    assert!(!recovered.explicit_commit);
    assert_eq!(recovered.seq, 4);
}

#[test]
fn what_the_assistant_said_is_recovered() {
    let payloads = vec![
        json(r#"{"role":"user","content":[{"type":"text","text":"q"}]}"#),
        json(r#"{"role":"assistant","content":[{"type":"thinking","text":"t"},{"type":"text","text":"a"}]}"#),
        json(r#"{"role":"assistant","content":[{"type":"tool_use"},{"type":"text","text":"b"}]}"#),
    ];
    let message = recover(&payloads).unwrap();
    assert_eq!(message.role, Role::Assistant);
    assert_eq!(message.text(), "ab");
    assert!(load_seed(&None).messages.is_empty());
    assert!(load_seed(&Some(b"{".to_vec())).messages.is_empty());
    assert!(load_seed(&Some(br#"{"messages":1}"#.to_vec())).messages.is_empty());
    let document = br#"{"messages":[{"content":[{"type":"image"}],"role":"user"}]}"#.to_vec();
    let seed = load_seed(&Some(document.clone()));
    assert_eq!(load_seed(&Some(document.clone())).encode(), document);
    let extended = record_recovery_history(seed, &payloads).unwrap();
    let stored: Vec<String> = extended.messages.iter().map(encoded).collect();
    assert_eq!(
        stored,
        vec![
            r#"{"content":[{"type":"image"}],"role":"user"}"#,
            r#"{"content":[{"text":"ab","type":"text"}],"role":"assistant"}"#,
        ]
    );
    assert!(record_recovery_history(Seed { messages: vec![] }, &vec![]).is_none());
    let stored = recovered_exchange(1, 2, &b"l".to_vec(), 3);
    assert_eq!(stored.exchange.request_blob_digest, EMPTY_SHA256);
    assert_eq!(
        encoded(stored.exchange.outcome.as_ref().unwrap()),
        r#"{"type":"recovered_text"}"#
    );
}

#[test]
fn a_transcript_row_reads_back_as_a_message() {
    let original = Message::of_text(Role::Assistant, "hello".to_owned());
    let read = transcript_to_message(&original.to_json());
    assert_eq!(read.role, Role::Assistant);
    assert_eq!(read.text(), "hello");
    let system = transcript_to_message(&json(r#"{"role":"system","content":"plain"}"#));
    assert_eq!(system.role, Role::User);
    match &system.content[0] {
        ContentBlock::Text { text } => assert_eq!(text, "plain"),
        other => panic!("{other:?}"),
    }
    assert!(transcript_to_message(&json(r#"{"content":5}"#)).content.is_empty());
    // Every block is kept, in its place.
    let stored = r#"{"content":[{"text":"a","type":"text"},{"id":"t1","input":{},"type":"tool_use"},{"type":"text"}],"role":"assistant"}"#;
    let kept = transcript_to_message(&json(stored));
    assert_eq!(kept.content.len(), 3);
    assert_eq!(kept.text(), "a");
    assert_eq!(encoded(&kept.to_json()), stored);
}

fn row(seq: i64, kind: &str, payload: &str) -> Transcript {
    Transcript {
        id: seq as u128,
        run_id: 1,
        seq,
        kind: kind.to_owned(),
        payload: json(payload),
        created_at: 0,
    }
}

fn failed_run() -> Vec<Transcript> {
    vec![
        row(0, KIND_INPUT, r#"{"role":"user","content":[{"type":"text","text":"q"}]}"#),
        row(
            1,
            KIND_ENVIRONMENTS,
            r#"{"role":"user","content":"<environments>User added 'box' environment</environments>"}"#,
        ),
        Transcript {
            payload: notice("'box' could not be reached for this run: off".to_owned()),
            ..row(2, KIND_ENVIRONMENTS, "null")
        },
        row(
            5,
            KIND_MESSAGE,
            r#"{"role":"assistant","content":[{"type":"text","text":"half"},{"type":"tool_use","id":"t1"}]}"#,
        ),
        row(6, "tool_result", "{}"),
        row(7, KIND_RUN_ERROR, "{}"),
        row(8, KIND_MESSAGE, r#"{"role":"assistant","content":"late"}"#),
    ]
}

const ADDED: &str = "<environments>User added 'box' environment</environments>";

fn resent(mode: RetryMode) -> Vec<(&'static str, String)> {
    retry(mode, &failed_run())
        .unwrap()
        .iter()
        .map(|turn| (turn.kind, turn.message.text()))
        .collect()
}

#[test]
fn a_retry_sends_the_input_or_resumes_from_a_checkpoint() {
    assert_eq!(
        resent(RetryMode::Full),
        vec![(KIND_INPUT, "q".to_owned()), (KIND_ENVIRONMENTS, ADDED.to_owned())]
    );
    assert_eq!(
        resent(RetryMode::FromCheckpoint),
        vec![
            (KIND_INPUT, "q".to_owned()),
            (KIND_ENVIRONMENTS, ADDED.to_owned()),
            (KIND_INPUT, "half".to_owned()),
        ]
    );
    // The completed exchange comes with the tool it called.
    let resumed = retry(RetryMode::FromCheckpoint, &failed_run()).unwrap();
    assert_eq!(
        encoded(&resumed[2].message.to_json()),
        r#"{"content":[{"text":"half","type":"text"},{"id":"t1","type":"tool_use"}],"role":"assistant"}"#
    );
    assert!(retry(RetryMode::Full, &vec![row(0, KIND_RUN_ERROR, "{}")]).is_err());
    let response = transcript_response(&failed_run()[5]);
    assert_eq!((response.seq, response.kind.as_str()), (7, KIND_RUN_ERROR));
}

fn session() -> Session {
    Session {
        id: 1,
        workspace_id: 2,
        title: None,
        created_at: 0,
        closed_at: None,
        model_alias: Some("fast".to_owned()),
        thinking_effort: Some("high".to_owned()),
    }
}

#[test]
fn only_a_run_that_ended_badly_is_retried() {
    let plan = plan_retry(None, Some(Some(9)), &failed_run(), &session()).unwrap();
    assert_eq!(plan.mode, RetryMode::Full);
    assert_eq!(plan.alias, "fast");
    assert_eq!(plan.thinking, Some(ThinkingSelection::Effort(Effort::High)));
    let refused = |mode: Option<&str>, run: Option<Option<i64>>, rows: &Vec<Transcript>| {
        plan_retry(mode.map(str::to_owned), run, rows, &session()).unwrap_err()
    };
    match refused(Some("half"), None, &vec![]) {
        AppError::BadRequest(text) => {
            assert_eq!(text, "mode must be \"full\" or \"from_checkpoint\"")
        }
        other => panic!("{other:?}"),
    }
    assert!(matches!(refused(None, None, &vec![]), AppError::NotFound));
    assert!(matches!(
        refused(Some("full"), Some(None), &failed_run()),
        AppError::Conflict(_)
    ));
    match refused(None, Some(Some(1)), &vec![row(0, KIND_RUN_END, "null")]) {
        AppError::BadRequest(text) => {
            assert_eq!(text, "only failed or interrupted runs can be retried")
        }
        other => panic!("{other:?}"),
    }
    assert!(retry_selection(&Session {
        closed_at: Some(1),
        ..session()
    })
    .is_err());
    assert!(retry_selection(&Session {
        model_alias: None,
        ..session()
    })
    .is_err());
    assert_eq!(
        retry_mode(Some("from_checkpoint".to_owned())).unwrap(),
        RetryMode::FromCheckpoint
    );
    assert!(check_completed(None).is_err());
    assert!(check_failed(&vec![row(0, KIND_RUN_INTERRUPTED, "null")]).is_ok());
}
