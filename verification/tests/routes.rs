use faber::access::{
    insert_error, personal_workspace_error, scope_error, touched, update_error, RowError,
};
use faber::agent::handler::{default_shell, tcp_port, Handler, Launch, PtySize};
use faber::agent::routes::{
    check_host_key, exchange, generate_token, issue_enrollment, owned_agent_host, renew_credential, session_name,
    supersede, token_from, token_of, Credential, Enrollment, ENROLLMENT_TTL,
};
use faber::blobs::{read_blob, spilled, Blob, BlobSource};
use faber::encoding::fresh_id;
use faber::environments::Candidate;
use faber::error::AppError;
use faber::json::Json;
use faber::models::host::{Host, Image};
use faber::models::model_config::{ModelConfig, Wire};
use faber::models::model_provider::ModelProviderRow;
use faber::models::now_epoch;
use faber::models::session::{Session, SessionEnvironment, Thread};
use faber::models::thinking::{Effort, ThinkingSelection};
use faber::routes::environments::{bound_response, list_candidates};
use faber::routes::images;
use faber::routes::model_presets;
use faber::routes::model_providers;
use faber::routes::models;
use faber::routes::sessions::{
    create_thread, fork_request, new_title, passes, plan_message, replay, replayed_through,
    resolve_thread, send_message, session_response, sse_event, stream, stream_cursor, turn_input,
    update, validate_title, verify_model_alias, Live, SendMessageRequest, Sent, ThreadRows,
    UpdateRequest,
};
use faber::routes::runs::Transcript;
use faber::routes::{clamp_limit, clear_cookie, config_response, me_response};
use faber::run::{StreamEvent, KIND_ENVIRONMENTS, KIND_INPUT};
use faber::state::MasterKey;

fn bad_request(error: AppError) -> String {
    match error {
        AppError::BadRequest(text) => text,
        other => panic!("not a bad request: {other:?}"),
    }
}

fn encoded(json: &Json) -> String {
    String::from_utf8(json.encode()).unwrap()
}

#[test]
fn config_response_exposes_only_the_local_host_policy() {
    assert_eq!(
        encoded(&config_response(true)),
        r#"{"allow_local_hosts":true}"#
    );
    assert_eq!(
        encoded(&config_response(false)),
        r#"{"allow_local_hosts":false}"#
    );
}

#[test]
fn limits_are_clamped() {
    assert_eq!(clamp_limit(None), 100);
    assert_eq!(clamp_limit(Some(0)), 1);
    assert_eq!(clamp_limit(Some(-5)), 1);
    assert_eq!(clamp_limit(Some(7)), 7);
    assert_eq!(clamp_limit(Some(501)), 500);
}

#[test]
fn the_caller_is_named_by_their_id() {
    assert_eq!(
        me_response(0x0123456789abcdef0123456789abcdef).id,
        "01234567-89ab-cdef-0123-456789abcdef"
    );
    assert_eq!(
        clear_cookie("faber.dev"),
        "surge_session=; Domain=faber.dev; Path=/; Max-Age=0; HttpOnly; Secure; SameSite=Lax"
    );
}

#[test]
fn ids_and_times_are_fresh() {
    let (first, second) = (fresh_id(), fresh_id());
    assert!(first < second);
    assert_eq!((first >> 76) & 0xf, 7);
    assert_eq!((first >> 62) & 0x3, 2);
    assert!(now_epoch() > 1_600_000_000);
}

#[test]
fn documents_are_read_and_written() {
    let text = r#"{"b":[1,-2,18446744073709551615,1.5,null,true],"a":"x\n"}"#;
    let value = Json::parse(text.as_bytes()).unwrap();
    assert_eq!(
        encoded(&value),
        r#"{"a":"x\n","b":[1,-2,18446744073709551615,1.5,null,true]}"#
    );
    assert_eq!(value.str_at("a"), Some("x\n"));
    assert_eq!(value.str_at("b"), None);
    assert_eq!(value.get("b").unwrap().as_list().unwrap().len(), 6);
    assert_eq!(value.as_object().unwrap().len(), 2);
    assert!(Json::parse(b"{").is_none());
    assert!(Json::parse(b"\xff").is_none());
    // The last member of a name wins, in a value as in a document.
    let twice = Json::object(vec![
        ("k".to_owned(), Json::Int(1)),
        ("k".to_owned(), Json::Int(2)),
    ]);
    assert!(matches!(twice.get("k"), Some(Json::Int(2))));
    assert_eq!(encoded(&twice), r#"{"k":2}"#);
    assert_eq!(encoded(&twice.duplicate()), r#"{"k":2}"#);
}

fn session() -> Session {
    Session {
        id: 1,
        workspace_id: 2,
        title: Some("t".to_owned()),
        created_at: 3,
        closed_at: None,
        model_alias: Some("fast".to_owned()),
        thinking_effort: Some("on".to_owned()),
    }
}

#[test]
fn a_session_is_answered_as_it_is_stored() {
    let response = session_response(&session());
    assert_eq!(response.model.as_deref(), Some("fast"));
    assert_eq!(response.title.as_deref(), Some("t"));
    assert_eq!(response.workspace_id, 2);
}

#[test]
fn a_session_title_is_bounded() {
    assert!(validate_title("x").is_ok());
    assert!(validate_title("").is_err());
    assert!(validate_title(&"x".repeat(201)).is_err());
    assert_eq!(new_title(&Some(" x ".to_owned())).unwrap().as_deref(), Some("x"));
    assert_eq!(new_title(&None).unwrap(), None);
    assert!(new_title(&Some(" ".to_owned())).is_err());
}

#[test]
fn a_session_change_is_checked_before_it_is_stored() {
    let request = |effort: Option<Option<&str>>, closed: Option<bool>| UpdateRequest {
        title: Some(None),
        closed,
        model: Some(Some(" slow ".to_owned())),
        thinking_effort: effort.map(|e| e.map(str::to_owned)),
    };
    let patch = update(&request(None, Some(true)), 9).unwrap();
    assert_eq!(patch.title, Some(None));
    assert_eq!(patch.closed_at, Some(Some(9)));
    assert_eq!(patch.model_alias, Some(Some("slow".to_owned())));
    assert_eq!(patch.thinking_effort, None);
    assert_eq!(update(&request(None, Some(false)), 9).unwrap().closed_at, Some(None));
    assert!(update(&request(Some(Some("loud")), None), 9).is_err());
    assert_eq!(
        bad_request(verify_model_alias(false, "slow").unwrap_err()),
        "no model named 'slow'"
    );
    assert!(verify_model_alias(true, "slow").is_ok());
}

#[test]
fn a_fork_leaves_its_parent_where_it_has_been() {
    assert_eq!(fork_request(Some(1), Some(2)).unwrap(), Some((1, 2)));
    assert_eq!(fork_request(None, None).unwrap(), None);
    assert!(fork_request(Some(1), None).is_err());
    let parent = |next_seq: i32| {
        Some(Thread {
            id: 1,
            session_id: 2,
            parent_id: None,
            forked_at_seq: None,
            next_seq,
            created_at: 0,
        })
    };
    assert!(create_thread(parent(3), 2).is_ok());
    assert_eq!(
        bad_request(create_thread(parent(3), 3).unwrap_err()),
        "forked_at_seq must be between 0 and 2"
    );
    assert!(create_thread(parent(3), -1).is_err());
    assert_eq!(
        bad_request(create_thread(parent(0), 0).unwrap_err()),
        "parent thread has no history to fork from"
    );
    assert_eq!(
        bad_request(create_thread(None, 0).unwrap_err()),
        "parent thread not found in this session"
    );
}

fn threads(named: Option<u128>, candidates: Vec<u128>) -> ThreadRows {
    ThreadRows { named, candidates }
}

#[test]
fn a_message_runs_in_the_thread_it_names_or_the_only_one() {
    assert_eq!(resolve_thread(Some(5), &threads(Some(5), vec![])).unwrap(), 5);
    assert_eq!(
        bad_request(resolve_thread(Some(5), &threads(None, vec![1])).unwrap_err()),
        "thread not found in this session"
    );
    assert_eq!(resolve_thread(None, &threads(None, vec![1])).unwrap(), 1);
    assert_eq!(
        bad_request(resolve_thread(None, &threads(None, vec![])).unwrap_err()),
        "session has no thread to run in"
    );
    assert_eq!(
        bad_request(resolve_thread(None, &threads(None, vec![1, 2])).unwrap_err()),
        "session has more than one thread; name one with thread_id"
    );
}

#[test]
fn a_message_remembers_only_what_it_names() {
    let plan = plan_message(&session(), &None, &None).unwrap();
    assert_eq!(plan.alias, "fast");
    assert_eq!(plan.thinking, Some(ThinkingSelection::On));
    assert_eq!(plan.remembered.model_alias, None);
    assert_eq!(plan.remembered.thinking_effort, None);
    let plan = plan_message(
        &session(),
        &Some(" ".to_owned()),
        &Some(" high ".to_owned()),
    )
    .unwrap();
    assert_eq!(plan.alias, "fast");
    assert_eq!(plan.thinking, Some(ThinkingSelection::Effort(Effort::High)));
    assert_eq!(plan.remembered.model_alias, Some(Some("fast".to_owned())));
    assert_eq!(plan.remembered.thinking_effort, Some(Some("high".to_owned())));
    assert!(plan_message(&session(), &None, &Some("loud".to_owned())).is_err());
    let bare = Session {
        model_alias: None,
        ..session()
    };
    assert!(
        bad_request(plan_message(&bare, &None, &None).unwrap_err())
            .starts_with("no model is selected for this session;")
    );
}

#[test]
fn a_message_is_refused_in_order() {
    let input = |content: &str| SendMessageRequest {
        content: content.to_owned(),
        model: None,
        thinking_effort: None,
        thread_id: None,
    };
    let accepted = send_message(&input(" hi "), Some(session()), &threads(None, vec![4])).unwrap();
    assert_eq!(accepted.content, "hi");
    assert_eq!(accepted.thread_id, 4);
    assert_eq!(accepted.plan.alias, "fast");
    assert_eq!(
        bad_request(send_message(&input(" "), None, &threads(None, vec![])).unwrap_err()),
        "content cannot be empty"
    );
    assert!(matches!(
        send_message(&input("x"), None, &threads(None, vec![])),
        Err(AppError::NotFound)
    ));
    let closed = Session {
        closed_at: Some(1),
        ..session()
    };
    assert_eq!(
        bad_request(send_message(&input("x"), Some(closed), &threads(None, vec![])).unwrap_err()),
        "session is closed; reopen it with PATCH { \"closed\": false }"
    );
}

#[test]
fn a_turn_is_the_message_and_then_the_announcement() {
    let turn = turn_input("hi".to_owned(), &["box".to_owned()]);
    assert_eq!(turn.len(), 2);
    assert_eq!(turn[0].kind, KIND_INPUT);
    assert_eq!(turn[0].message.text(), "hi");
    assert_eq!(turn[1].kind, KIND_ENVIRONMENTS);
    assert_eq!(turn_input("hi".to_owned(), &[]).len(), 1);
}

fn event(run_id: u128, seq: i64) -> StreamEvent {
    StreamEvent {
        run_id,
        seq,
        kind: "text".to_owned(),
        payload: Json::Null,
    }
}

#[test]
fn what_was_replayed_is_not_delivered_again() {
    assert_eq!(stream_cursor(Some(1), Some(2)).unwrap(), Some((1, 2)));
    assert_eq!(stream_cursor(None, None).unwrap(), None);
    assert!(stream_cursor(None, Some(2)).is_err());
    let rows = vec![Transcript {
        id: 1,
        run_id: 1,
        seq: 7,
        kind: "text".to_owned(),
        payload: Json::Null,
        created_at: 0,
    }];
    let replayed = replay(1, rows);
    let through = replayed_through(Some((1, 2)), &replayed);
    assert_eq!(through, Some((1, 7)));
    assert!(!passes(through, &event(1, 7)));
    assert!(passes(through, &event(1, 8)));
    assert!(passes(through, &event(2, 1)));
    assert_eq!(replayed_through(None, &replayed), None);
    assert_eq!(replayed_through(Some((1, 2)), &vec![]), Some((1, i64::MIN)));
    assert!(stream(through, &Live::Event(event(1, 3))).is_none());
    let document = r#"{"kind":"text","payload":null,"run_id":"00000000-0000-0000-0000-000000000002","seq":3}"#;
    assert_eq!(sse_event(&event(2, 3)), document.as_bytes());
    let sent = stream(through, &Live::Event(event(2, 3))).unwrap();
    assert_eq!(sent.name(), "transcript");
    let lagged = stream(through, &Live::Lagged(12)).unwrap();
    assert_eq!(lagged.name(), "lagged");
    assert!(matches!(lagged, Sent::Lagged(text) if text == "12"));
}

fn model_request() -> models::CreateRequest {
    models::CreateRequest {
        alias: " fast ".to_owned(),
        base_url: " https://x ".to_owned(),
        wire: Wire::Openai,
        wire_id: "id".to_owned(),
        family: Some(" f ".to_owned()),
        credential_id: None,
        params: Json::object(vec![]),
        preset_id: Some(4),
    }
}

#[test]
fn a_model_is_checked_before_it_is_stored() {
    let new = models::create(model_request(), 1, 2).unwrap();
    assert_eq!(new.alias, "fast");
    assert_eq!(new.base_url, "https://x");
    assert_eq!(new.wire, "openai");
    assert_eq!(new.preset_id, Some(4));
    let refused = |request: models::CreateRequest| {
        bad_request(models::create(request, 1, 2).unwrap_err())
    };
    assert_eq!(
        refused(models::CreateRequest {
            alias: " ".to_owned(),
            ..model_request()
        }),
        "alias is required"
    );
    assert_eq!(
        refused(models::CreateRequest {
            alias: "a".repeat(101),
            ..model_request()
        }),
        "alias must be 100 characters or fewer"
    );
    assert_eq!(
        refused(models::CreateRequest {
            base_url: " ".to_owned(),
            ..model_request()
        }),
        "base_url is required"
    );
    assert_eq!(
        refused(models::CreateRequest {
            wire_id: String::new(),
            ..model_request()
        }),
        "wire_id is required"
    );
    let misspelt = Json::object(vec![("reasoning_history".to_owned(), Json::text("nope"))]);
    assert!(models::validate_params(&misspelt).is_err());
    assert_eq!(
        bad_request(models::taken("fast")),
        "a model named 'fast' already exists"
    );
    assert!(models::verify_credential(false).is_err());
    assert!(models::verify_preset(false).is_err());
    assert!(models::verify_credential(true).is_ok());
    assert!(models::verify_preset(true).is_ok());
}

#[test]
fn a_model_change_leaves_nothing_empty() {
    let request = || models::UpdateRequest {
        alias: None,
        base_url: None,
        wire: Some(Wire::Anthropic),
        wire_id: None,
        family: None,
        credential_id: Some(None),
        params: None,
        preset_id: None,
    };
    let patch = models::update(request()).unwrap();
    assert_eq!(patch.wire, Some("anthropic"));
    assert_eq!(patch.credential_id, Some(None));
    assert_eq!(
        bad_request(
            models::update(models::UpdateRequest {
                base_url: Some(" ".to_owned()),
                ..request()
            })
            .unwrap_err()
        ),
        "base_url cannot be empty"
    );
    assert_eq!(
        bad_request(
            models::update(models::UpdateRequest {
                wire_id: Some(" ".to_owned()),
                ..request()
            })
            .unwrap_err()
        ),
        "wire_id cannot be empty"
    );
}

#[test]
fn a_model_without_a_preset_is_described_by_an_empty_one() {
    let preset = models::display_preset(None);
    assert_eq!(preset.name, "");
    assert!(!preset.capabilities.reasoning);
    let stored = ModelConfig {
        id: 3,
        user_id: 1,
        alias: "fast".to_owned(),
        base_url: "https://x".to_owned(),
        wire: "openai".to_owned(),
        wire_id: "id".to_owned(),
        family: None,
        credential_id: Some(2),
        params: Json::Bool(true),
        capabilities: Json::Null,
        created_at: 7,
    };
    let response = models::model_response(&stored, Some(4), preset);
    assert_eq!(response.alias, "fast");
    assert_eq!(response.preset_id, Some(4));
    assert_eq!(encoded(&response.params), "true");
}

#[test]
fn an_image_names_where_it_works() {
    let request = |name: &str, reference: &str, root: &str| images::CreateRequest {
        name: name.to_owned(),
        reference: reference.to_owned(),
        default_mounts: None,
        default_root_path: root.to_owned(),
    };
    let new = images::create(request(" deb ", " debian:12 ", " /w "), 1, 2).unwrap();
    assert_eq!(new.name, "deb");
    assert_eq!(new.reference, "debian:12");
    assert_eq!(new.default_root_path, "/w");
    let refused =
        |request: images::CreateRequest| bad_request(images::create(request, 1, 2).unwrap_err());
    assert_eq!(refused(request("", "r", "/w")), "name is required");
    assert_eq!(refused(request("n", " ", "/w")), "reference is required");
    assert_eq!(refused(request("n", "r", "")), "default_root_path is required");
    assert_eq!(refused(request("n", "r", "w")), "default_root_path must be absolute");
    assert!(images::validate_root_path("/").is_ok());
    assert!(images::validate_name("n").is_ok());
    let patch = images::update(images::UpdateRequest {
        name: None,
        reference: Some(" r ".to_owned()),
        default_mounts: Some(None),
        default_root_path: None,
    })
    .unwrap();
    assert_eq!(patch.reference.as_deref(), Some("r"));
    assert!(matches!(patch.default_mounts, Some(None)));
    assert!(images::update(images::UpdateRequest {
        name: None,
        reference: Some(" ".to_owned()),
        default_mounts: None,
        default_root_path: None,
    })
    .is_err());
    assert_eq!(
        bad_request(images::taken("deb")),
        "an image named 'deb' already exists"
    );
    let response = images::image_response(&Image {
        id: 1,
        user_id: 2,
        name: "deb".to_owned(),
        reference: "debian:12".to_owned(),
        default_mounts: Some(Json::list(vec![])),
        default_root_path: "/w".to_owned(),
        created_at: 3,
    });
    assert_eq!(encoded(response.default_mounts.as_ref().unwrap()), "[]");
}

#[test]
fn a_provider_belongs_to_the_caller_or_to_everyone() {
    let row = |id: u128, user_id: Option<u128>| ModelProviderRow {
        id,
        user_id,
        provider_id: "p".to_owned(),
        name: "P".to_owned(),
        website: None,
        api_base_url: None,
        created_at: 0,
    };
    let rows = model_providers::list(
        &vec![row(1, Some(9)), row(2, None)],
        &vec![(2, 5)],
        9,
    );
    assert!(rows[0].owned);
    assert_eq!(rows[0].model_count, 0);
    assert!(!rows[1].owned);
    assert_eq!(rows[1].model_count, 5);
    let request = |id: &str, name: &str| model_providers::CreateRequest {
        id: id.to_owned(),
        name: name.to_owned(),
        website: None,
        api_base_url: None,
    };
    let new = model_providers::create(request(" p ", " P "), 1, 9).unwrap();
    assert_eq!(new.provider_id, "p");
    assert_eq!(new.user_id, Some(9));
    assert_eq!(
        bad_request(model_providers::create(request(" ", "P"), 1, 9).unwrap_err()),
        "id is required"
    );
    assert_eq!(
        bad_request(model_providers::create(request("p", " "), 1, 9).unwrap_err()),
        "name is required"
    );
    assert_eq!(
        bad_request(
            model_providers::update(model_providers::UpdateRequest {
                name: Some(" ".to_owned()),
                website: None,
                api_base_url: None,
            })
            .unwrap_err()
        ),
        "name cannot be empty"
    );
    assert_eq!(
        bad_request(model_providers::taken("p")),
        "a provider named 'p' already exists"
    );
}

#[test]
fn a_page_lies_within_the_catalog() {
    let page = model_presets::list(250, Some(100), Some(200));
    assert_eq!((page.from, page.to, page.total), (200, 250, 250));
    let beyond = model_presets::list(10, None, Some(20));
    assert_eq!((beyond.from, beyond.to, beyond.offset), (10, 10, 20));
    assert_eq!(model_presets::list(10, None, Some(-3)).from, 0);
    assert!(model_presets::catalog(true).is_ok());
    assert!(matches!(
        model_presets::catalog(false),
        Err(AppError::ServiceUnavailable(_))
    ));
}

#[test]
fn candidates_and_bindings_are_answered_as_they_are() {
    let found = vec![Candidate {
        label: "box".to_owned(),
        host_id: 1,
        host_name: "box".to_owned(),
        container_id: None,
        root_path: "/".to_owned(),
        kind: "host",
        disabled: false,
    }];
    let listed = list_candidates(&found);
    assert_eq!(listed[0].label, "box");
    assert_eq!(listed[0].container_id, None);
    let bound = bound_response(&SessionEnvironment {
        session_id: 1,
        label: "box".to_owned(),
        host_id: 2,
        container_id: Some(3),
        added_at: 4,
        removed_at: None,
    });
    assert_eq!((bound.host_id, bound.container_id), (2, Some(3)));
}

#[test]
fn a_missing_row_is_told_from_a_failing_database() {
    assert!(matches!(scope_error(RowError::NotFound, "x"), AppError::NotFound));
    assert!(matches!(
        scope_error(RowError::Failed, "x"),
        AppError::Database(context) if context == "x"
    ));
    assert!(matches!(
        personal_workspace_error(RowError::NotFound),
        AppError::Internal
    ));
    assert!(matches!(
        insert_error(RowError::UniqueViolation, AppError::Internal, "x"),
        AppError::Internal
    ));
    assert_eq!(
        bad_request(update_error(RowError::UniqueViolation, "taken", "x")),
        "taken"
    );
    assert!(matches!(touched(0), Err(AppError::NotFound)));
    assert!(touched(1).is_ok());
}

#[test]
fn a_blob_is_inline_or_spilled_and_never_quietly_empty() {
    let blob = |data: Option<&[u8]>, path: Option<&str>| {
        Some(Blob {
            data: data.map(<[u8]>::to_vec),
            storage_path: path.map(str::to_owned),
        })
    };
    assert!(matches!(
        read_blob(blob(Some(b"x"), Some("p"))),
        BlobSource::Inline(bytes) if bytes == b"x"
    ));
    assert!(matches!(
        read_blob(blob(None, Some("p"))),
        BlobSource::Spilled(path) if path == "p"
    ));
    assert!(matches!(read_blob(blob(None, None)), BlobSource::Missing));
    assert!(matches!(read_blob(None), BlobSource::Missing));
    assert!(matches!(spilled(None), Err(AppError::Internal)));
    assert_eq!(spilled(Some(vec![1])).unwrap(), Some(vec![1]));
}

#[test]
fn a_master_key_is_32_bytes() {
    let key = MasterKey::parse(" AQEBAQEBAQEBAQEBAQEBAQEBAQEBAQEBAQEBAQEBAQE=\n").unwrap();
    assert_eq!(key.as_bytes(), &[1; 32]);
    assert_eq!(key.redacted(), "[redacted]");
    assert_eq!(
        MasterKey::parse("AQE=").err(),
        Some("FABER_MASTER_KEY must decode to exactly 32 bytes")
    );
    assert_eq!(
        MasterKey::parse("***").err(),
        Some("FABER_MASTER_KEY must be valid base64")
    );
}

#[test]
fn a_token_is_random_and_url_safe() {
    assert_eq!(
        token_of(&[0xff; 32]),
        "__________________________________________8"
    );
    assert_eq!(token_from(Some([0xff; 32])), Some(token_of(&[0xff; 32])));
    assert_eq!(token_from(None), None);
    let (first, second) = (generate_token().unwrap(), generate_token().unwrap());
    assert_eq!(first.len(), 43);
    assert_ne!(first, second);
    assert!(first
        .chars()
        .all(|c| c.is_ascii_alphanumeric() || c == '-' || c == '_'));
}

#[test]
fn an_enrollment_is_exchanged_once() {
    let issued = issue_enrollment("https://f", "tok".to_owned(), 10);
    assert_eq!(issued.expires_at, 10 + ENROLLMENT_TTL);
    assert_eq!(
        issued.install_command,
        "curl -fsSL https://f/api/agent/install.sh | sh -s -- --token tok"
    );
    let enrollment = Enrollment {
        host_id: 4,
        expires_at: 100,
        consumed_at: None,
    };
    let used = exchange(Some(enrollment), 99).unwrap();
    assert_eq!(used.host_id, 4);
    assert_eq!(used.consumed_at, Some(99));
    for found in [Some(used), Some(supersede(enrollment, 50)), None] {
        assert!(matches!(
            exchange(found, 99),
            Err(AppError::Unauthorized(_))
        ));
    }
    assert!(exchange(Some(enrollment), 100).is_err());
    assert_eq!(supersede(used, 50), used);
    let credential = |id: u128, host_id: u128, revoked_at: Option<i64>| Credential {
        id,
        host_id,
        token_hash: format!("h{id}"),
        host_pubkey: "k".to_owned(),
        issued_at: 1,
        revoked_at,
    };
    let mut log = vec![
        credential(1, 4, Some(5)),
        credential(2, 4, None),
        credential(3, 9, None),
    ];
    renew_credential(&mut log, 7, 4, "h7".to_owned(), "k".to_owned(), 60);
    let revoked: Vec<(u128, Option<i64>)> = log.iter().map(|c| (c.id, c.revoked_at)).collect();
    assert_eq!(revoked, vec![(1, Some(5)), (2, Some(60)), (3, None), (7, None)]);
    assert_eq!(log[1].token_hash, "h2");
    assert_eq!(log[3].issued_at, 60);
    assert_eq!(session_name(1), "agent:00000000-0000-0000-0000-000000000001");
    assert!(check_host_key(true).is_ok());
    assert!(check_host_key(false).is_err());
}

#[test]
fn only_an_agent_host_is_enrolled() {
    let host = |transport: &str| Host {
        id: 1,
        user_id: 2,
        name: "box".to_owned(),
        transport: transport.to_owned(),
        exec_mode: "direct".to_owned(),
        ssh_address: None,
        ssh_key_ref: None,
        ssh_host_key: None,
        docker_endpoint: None,
        created_at: 0,
        disabled_at: None,
        root_path: None,
        preview_network: None,
    };
    assert!(owned_agent_host(Some(host("agent"))).is_ok());
    assert_eq!(
        bad_request(owned_agent_host(Some(host("ssh"))).unwrap_err()),
        "this host's transport is not 'agent'"
    );
    assert!(matches!(owned_agent_host(None), Err(AppError::NotFound)));
}

#[test]
fn a_channel_becomes_what_is_asked_of_it_first() {
    let mut handler = Handler::new();
    handler.channel_open_session(1);
    handler.pty_request(1, 80, 0x1_0018, 0, 0);
    assert_eq!(
        handler.exec_request(1),
        Launch::Pty(PtySize {
            rows: 24,
            cols: 80,
            pixel_width: 0,
            pixel_height: 0
        })
    );
    assert_eq!(handler.exec_request(1), Launch::Piped);
    assert!(!handler.data(1));
    handler.started(1);
    assert!(handler.data(1));
    assert!(!handler.subsystem_request(1, "sftp"));
    handler.channel_open_session(2);
    assert!(!handler.subsystem_request(2, "netconf"));
    assert!(handler.subsystem_request(2, "sftp"));
    assert_eq!(tcp_port(65536), None);
    assert_eq!(tcp_port(80), Some(80));
    assert_eq!(default_shell(None), "/bin/sh");
    assert_eq!(default_shell(Some("/bin/zsh".to_owned())), "/bin/zsh");
}
