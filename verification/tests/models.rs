use faber::json::Json;
use faber::models::model_config::{
    parse_advanced_options, parse_reasoning_history, ModelConfig, ReasoningHistory, Wire,
    ADVANCED_KEY, REASONING_HISTORY_KEY, THINKING_KEY,
};
use faber::models::model_preset::{
    insert_chunks, limit_from_db, limit_to_db, modalities_from_db, modalities_to_db,
    ModelPresetRow, NewModelPreset, Price,
};
use faber::models::catalog::{replace_all, Catalog, Tables};
use faber::models::model_provider::{system_providers, ModelProviderRow, Provider};
use faber::models::thinking::{
    parse_thinking_capability, Effort, ResolvedThinking, Thinking, ThinkingCapability,
    ThinkingDisplay, ThinkingSelection,
};

fn object(members: Vec<(&str, Json)>) -> Json {
    Json::object(
        members
            .into_iter()
            .map(|(key, value)| (key.to_owned(), value))
            .collect(),
    )
}

fn strings(items: &[&str]) -> Json {
    Json::list(items.iter().map(|item| Json::text(item)).collect())
}

fn empty() -> Json {
    object(vec![])
}

fn config(capabilities: Json) -> ModelConfig {
    config_with(empty(), capabilities)
}

fn config_with(params: Json, capabilities: Json) -> ModelConfig {
    ModelConfig {
        id: 0,
        user_id: 0,
        alias: "fast".into(),
        base_url: "https://api.anthropic.com".into(),
        wire: "anthropic".into(),
        wire_id: "opus-5".into(),
        family: None,
        credential_id: None,
        params,
        capabilities,
        created_at: 0,
    }
}

#[test]
fn a_row_that_says_nothing_leaves_the_wire_its_default() {
    assert!(config(empty()).reasoning_history().is_none());
    assert!(config(Json::Null).reasoning_history().is_none());
}

#[test]
fn each_setting_reaches_the_run_as_itself() {
    for (written, expected) in [
        ("full", ReasoningHistory::Full),
        ("text", ReasoningHistory::Text),
        ("omitted", ReasoningHistory::Omitted),
    ] {
        let config = config(object(vec![(REASONING_HISTORY_KEY, Json::text(written))]));
        assert_eq!(config.reasoning_history(), Some(expected));
    }
}

#[test]
fn model_config_a_row_written_around_the_api_falls_back_rather_than_failing_the_run() {
    // The write path refuses this value; the wire default beats refusing to
    // run.
    let config = config(object(vec![(REASONING_HISTORY_KEY, Json::text("sometimes"))]));
    assert!(config.reasoning_history().is_none());
}

#[test]
fn the_write_path_gets_told_what_is_wrong_with_the_value() {
    assert!(parse_reasoning_history(&Json::text("sometimes")).is_err());
    assert!(parse_reasoning_history(&Json::Bool(true)).is_err());
    assert_eq!(parse_reasoning_history(&Json::Null), Ok(None));
}

#[test]
fn other_capabilities_are_left_alone() {
    let config = config(object(vec![
        ("context_window", Json::Int(200000)),
        (REASONING_HISTORY_KEY, Json::text("text")),
    ]));
    assert_eq!(config.reasoning_history(), Some(ReasoningHistory::Text));
    assert!(matches!(
        config.capabilities.get("context_window"),
        Some(Json::Int(200000))
    ));
}

#[test]
fn a_row_that_says_nothing_has_no_thinking_knob() {
    assert_eq!(config(empty()).thinking(), ThinkingCapability::default());
    assert!(!config(empty()).thinking().supported);
}

#[test]
fn the_thinking_knob_reaches_the_run_as_written() {
    let config = config(object(vec![(
        THINKING_KEY,
        object(vec![
            ("supported", Json::Bool(true)),
            ("efforts", strings(&["low", "high"])),
            ("default_effort", Json::text("high")),
        ]),
    )]));
    assert_eq!(
        config.thinking(),
        ThinkingCapability {
            supported: true,
            efforts: vec![Effort::Low, Effort::High],
            default_effort: Some(Effort::High),
        }
    );
}

#[test]
fn a_thinking_knob_written_around_the_api_leaves_the_model_without_one() {
    assert_eq!(
        config(object(vec![(THINKING_KEY, Json::text("sometimes"))])).thinking(),
        ThinkingCapability::default()
    );
    // A definition that reads well but would have been refused is no better.
    let contradictory = object(vec![
        ("supported", Json::Bool(true)),
        ("default_effort", Json::text("low")),
    ]);
    assert!(parse_thinking_capability(&contradictory).is_err());
    let refused = config(object(vec![(THINKING_KEY, contradictory)])).thinking();
    assert_eq!(refused, ThinkingCapability::default());
    assert!(refused.resolve(None).is_none());
    // And it does not take the rest of the row down with it.
    let mixed = config(object(vec![
        (THINKING_KEY, Json::text("sometimes")),
        (REASONING_HISTORY_KEY, Json::text("text")),
    ]));
    assert_eq!(mixed.reasoning_history(), Some(ReasoningHistory::Text));
}

#[test]
fn a_row_that_cannot_be_read_at_all_says_nothing() {
    let unreadable = config(object(vec![
        ("tools", Json::text("yes")),
        (REASONING_HISTORY_KEY, Json::text("text")),
    ]));
    assert_eq!(unreadable.reasoning_history(), None);
    let negative = config(object(vec![
        ("context_window", Json::Int(-1)),
        (REASONING_HISTORY_KEY, Json::text("text")),
    ]));
    assert_eq!(negative.reasoning_history(), None);
}

#[test]
fn a_row_that_says_nothing_gets_the_no_op_advanced_options() {
    let options = config_with(empty(), empty()).advanced_options();
    assert!(!options.reasoning_split);
    assert!(options.extra.is_empty());
}

#[test]
fn advanced_options_reach_the_run_as_written() {
    let config = config_with(
        object(vec![(
            ADVANCED_KEY,
            object(vec![
                ("reasoning_split", Json::Bool(true)),
                ("extra", object(vec![("top_k", Json::Int(5))])),
            ]),
        )]),
        empty(),
    );
    let options = config.advanced_options();
    assert!(options.reasoning_split);
    assert_eq!(options.extra.len(), 1);
    assert_eq!(options.extra[0].0, "top_k");
    assert!(matches!(options.extra[0].1, Json::Int(5)));
}

#[test]
fn a_row_written_around_the_api_falls_back_to_the_no_op_value() {
    let config = config_with(object(vec![(ADVANCED_KEY, Json::text("yes please"))]), empty());
    let options = config.advanced_options();
    assert!(!options.reasoning_split);
    assert!(options.extra.is_empty());
}

#[test]
fn the_write_path_gets_told_what_is_wrong_with_advanced_options() {
    assert!(parse_advanced_options(&Json::text("yes please")).is_err());
    assert!(
        parse_advanced_options(&object(vec![("reasoning_split", Json::text("yes"))])).is_err()
    );
    let options = parse_advanced_options(&Json::Null).unwrap();
    assert!(!options.reasoning_split);
    assert!(options.extra.is_empty());
}

#[test]
fn other_params_are_left_alone() {
    let config = config_with(
        object(vec![
            ("temperature", Json::Decimal("0.5".to_owned())),
            (
                ADVANCED_KEY,
                object(vec![("reasoning_split", Json::Bool(true))]),
            ),
        ]),
        empty(),
    );
    assert!(config.advanced_options().reasoning_split);
    assert_eq!(config.params.encode(), br#"{"advanced":{"reasoning_split":true},"temperature":0.5}"#);
}

#[test]
fn a_wire_reads_back_from_its_stored_name() {
    for wire in [Wire::Openai, Wire::Anthropic] {
        assert_eq!(Wire::from_db(wire.as_str()), Some(wire));
    }
    assert_eq!(Wire::from_db("smoke signals"), None);
}

fn price(dollars: f64) -> Option<Price> {
    Some(Price {
        bits: dollars.to_bits(),
    })
}

fn row() -> ModelPresetRow {
    ModelPresetRow {
        id: 0,
        user_id: None,
        model_provider_id: 0,
        model_id: "opus-5".into(),
        name: "Opus 5".into(),
        vision: true,
        attachment: true,
        reasoning: true,
        tools: true,
        structured_output: true,
        temperature: false,
        price_input: price(3.0),
        price_output: price(15.0),
        price_cache_read: price(0.3),
        price_cache_write: None,
        price_input_audio: None,
        price_output_audio: None,
        price_reasoning: None,
        limit_context: Some(200_000),
        limit_input: None,
        limit_output: Some(64_000),
        modalities_input: strings(&["text", "image"]),
        modalities_output: strings(&["text"]),
        release_date: Some(1_729_036_800),
        last_updated: None,
        knowledge_cutoff: None,
        open_weights: Some(false),
        created_at: 0,
    }
}

#[test]
fn a_row_reads_back_as_the_preset_it_stored() {
    let preset = row().to_preset("anthropic", "Anthropic");

    assert_eq!(preset.provider, "anthropic");
    assert_eq!(preset.provider_name, "Anthropic");
    assert_eq!(preset.id, "opus-5");
    assert_eq!(preset.name, "Opus 5");
    assert!(preset.capabilities.vision);
    assert!(preset.capabilities.reasoning);
    assert!(!preset.capabilities.temperature);
    assert_eq!(preset.pricing.input, price(3.0));
    assert_eq!(preset.pricing.cache_write, None);
    assert_eq!(preset.limits.context, Some(200_000));
    assert_eq!(preset.limits.input, None);
    assert_eq!(preset.limits.output, Some(64_000));
    assert_eq!(preset.modalities.input, vec!["text", "image"]);
    assert_eq!(preset.modalities.output, vec!["text"]);
    assert_eq!(preset.release_date, Some(1_729_036_800));
    assert_eq!(preset.open_weights, Some(false));
}

#[test]
fn the_insert_shape_round_trips_through_the_read_shape() {
    let provider_id = 77;
    let id = 78;
    let original = row().to_preset("anthropic", "Anthropic");

    let new = NewModelPreset::owned(id, 0, provider_id, &original);

    assert_eq!(new.id, id);
    assert_eq!(new.user_id, Some(0));
    assert_eq!(new.model_provider_id, provider_id);
    assert_eq!(new.model_id, original.id);
    assert_eq!(new.limit_context, original.limits.context.map(|v| v as i64));
    assert_eq!(new.modalities_input.encode(), br#"["text","image"]"#);
}

#[test]
fn a_system_preset_has_no_owner() {
    let new = NewModelPreset::system(1, 2, &row().to_preset("a", "A"));
    assert_eq!(new.user_id, None);
}

#[test]
fn an_unparseable_modalities_blob_reads_as_empty_not_a_failure() {
    assert!(modalities_from_db(&Json::text("text")).is_empty());
    assert!(modalities_from_db(&Json::Null).is_empty());
    assert!(modalities_from_db(&Json::list(vec![Json::text("a"), Json::Int(1)])).is_empty());
}

#[test]
fn limits_that_do_not_fit_are_dropped() {
    assert_eq!(limit_to_db(Some(u64::MAX)), None);
    assert_eq!(limit_to_db(Some(i64::MAX as u64)), Some(i64::MAX));
    assert_eq!(limit_from_db(Some(-1)), None);
    assert_eq!(limit_from_db(limit_to_db(Some(5))), Some(5));
    assert_eq!(
        modalities_from_db(&modalities_to_db(&["a".to_owned(), "b".to_owned()])),
        vec!["a", "b"]
    );
}

#[test]
fn a_refresh_is_inserted_in_pieces_that_cover_it() {
    assert_eq!(insert_chunks(0), vec![]);
    assert_eq!(insert_chunks(1000), vec![(0, 1000)]);
    assert_eq!(insert_chunks(2001), vec![(0, 1000), (1000, 2000), (2000, 2001)]);
}

fn provider(id: &str, name: &str) -> Provider {
    Provider {
        id: id.to_owned(),
        name: name.to_owned(),
        website: None,
        api_base_url: Some("https://x".to_owned()),
    }
}

fn provider_row(id: u128, user_id: Option<u128>, key: &str) -> ModelProviderRow {
    ModelProviderRow {
        id,
        user_id,
        provider_id: key.to_owned(),
        name: "old".to_owned(),
        website: Some("https://old".to_owned()),
        api_base_url: None,
        created_at: 1,
    }
}

#[test]
fn a_system_provider_has_no_owner() {
    let providers = system_providers(&vec![provider("anthropic", "Anthropic")], &vec![9]);
    assert_eq!(providers[0].id, 9);
    assert_eq!(providers[0].user_id, None);
    assert_eq!(providers[0].provider_id, "anthropic");
}

#[test]
fn a_refresh_keeps_ids_and_leaves_the_rest_alone() {
    let mut old = row();
    old.id = 40;
    old.model_provider_id = 11;
    old.name = "old".to_owned();
    old.created_at = 1;
    let mut tables = Tables {
        providers: vec![
            provider_row(10, Some(7), "anthropic"),
            provider_row(11, None, "anthropic"),
            provider_row(12, None, "retired"),
        ],
        presets: vec![old],
    };
    let mut second = row().to_preset("second", "Second");
    second.id = "other".to_owned();
    let catalog = Catalog {
        providers: vec![provider("anthropic", "Anthropic"), provider("second", "Second")],
        presets: vec![
            row().to_preset("anthropic", "Anthropic"),
            row().to_preset("nobody", "Nobody"),
            second,
        ],
    };
    replace_all(&mut tables, &catalog, &vec![100, 101], &vec![200, 201, 202], 5);

    let providers: Vec<(u128, &str, i64)> = tables
        .providers
        .iter()
        .map(|p| (p.id, p.name.as_str(), p.created_at))
        .collect();
    assert_eq!(
        providers,
        vec![(10, "old", 1), (11, "Anthropic", 1), (12, "old", 1), (101, "Second", 5)]
    );
    assert_eq!(tables.providers[1].website, None);
    let presets: Vec<(u128, u128, &str, i64)> = tables
        .presets
        .iter()
        .map(|p| (p.id, p.model_provider_id, p.name.as_str(), p.created_at))
        .collect();
    assert_eq!(presets, vec![(40, 11, "Opus 5", 1), (202, 101, "Opus 5", 5)]);

    // Publishing the same again changes nothing.
    replace_all(&mut tables, &catalog, &vec![300, 301], &vec![400, 401, 402], 6);
    assert_eq!(tables.providers.len(), 4);
    assert_eq!(tables.presets.len(), 2);
    assert_eq!(tables.presets[1].id, 202);
}

fn capability(supported: bool, efforts: &[Effort], default: Option<Effort>) -> ThinkingCapability {
    ThinkingCapability {
        supported,
        efforts: efforts.to_vec(),
        default_effort: default,
    }
}

fn adaptive() -> Thinking {
    Thinking::Adaptive {
        display: ThinkingDisplay::Summarized,
    }
}

#[test]
fn a_model_that_does_not_reason_leaves_the_run_alone() {
    let capability = ThinkingCapability::default();
    assert_eq!(capability.resolve(None), None);
    // Even a selection cannot give a model a knob its definition says it does
    // not have.
    assert_eq!(
        capability.resolve(Some(ThinkingSelection::Effort(Effort::High))),
        None
    );
}

#[test]
fn each_selection_reaches_the_run_as_itself() {
    let capability = capability(true, &[Effort::Low, Effort::High], None);

    assert_eq!(
        capability.resolve(Some(ThinkingSelection::Off)),
        Some(ResolvedThinking {
            thinking: Some(Thinking::Disabled),
            effort: None,
        })
    );
    assert_eq!(
        capability.resolve(Some(ThinkingSelection::On)),
        Some(ResolvedThinking {
            thinking: Some(adaptive()),
            effort: None,
        })
    );
    assert_eq!(
        capability.resolve(Some(ThinkingSelection::Effort(Effort::High))),
        Some(ResolvedThinking {
            thinking: Some(adaptive()),
            effort: Some(Effort::High),
        })
    );
}

#[test]
fn nothing_picked_falls_to_the_models_own_default() {
    let with_default = capability(true, &[Effort::Low, Effort::Medium], Some(Effort::Medium));
    assert_eq!(
        with_default.resolve(None),
        Some(ResolvedThinking {
            thinking: Some(adaptive()),
            effort: Some(Effort::Medium),
        })
    );

    // Supported, but with nothing to default to: the run says it has an
    // opinion and that opinion is to send neither field.
    let without_default = capability(true, &[], None);
    assert_eq!(
        without_default.resolve(None),
        Some(ResolvedThinking::default())
    );
}

#[test]
fn a_level_this_model_does_not_offer_is_clamped_rather_than_refused() {
    let capability = capability(true, &[Effort::Low], Some(Effort::Low));
    assert_eq!(
        capability.resolve(Some(ThinkingSelection::Effort(Effort::Max))),
        capability.resolve(None),
        "a selection made against another model must not fail this one"
    );
}

#[test]
fn a_selection_round_trips_through_its_stored_form() {
    for selection in [
        ThinkingSelection::Off,
        ThinkingSelection::On,
        ThinkingSelection::Effort(Effort::Low),
        ThinkingSelection::Effort(Effort::Medium),
        ThinkingSelection::Effort(Effort::High),
        ThinkingSelection::Effort(Effort::XHigh),
        ThinkingSelection::Effort(Effort::Max),
    ] {
        assert_eq!(ThinkingSelection::parse(selection.as_str()), Ok(selection));
    }
}

#[test]
fn thinking_a_row_written_around_the_api_falls_back_rather_than_failing_the_run() {
    assert_eq!(ThinkingSelection::from_stored(Some("sometimes")), None);
    assert_eq!(ThinkingSelection::from_stored(None), None);
    assert_eq!(
        ThinkingSelection::from_stored(Some("high")),
        Some(ThinkingSelection::Effort(Effort::High))
    );
}

#[test]
fn the_write_path_gets_told_what_is_wrong_with_the_capability() {
    assert_eq!(
        parse_thinking_capability(&Json::Null),
        Ok(ThinkingCapability::default())
    );
    assert_eq!(
        parse_thinking_capability(&object(vec![
            ("supported", Json::Bool(true)),
            ("efforts", strings(&["low", "high"])),
        ])),
        Ok(capability(true, &[Effort::Low, Effort::High], None))
    );

    assert!(parse_thinking_capability(&Json::text("yes please")).is_err());
    assert!(
        parse_thinking_capability(&object(vec![("efforts", strings(&["sometimes"]))])).is_err()
    );
    // Levels without support are a contradiction, not a default.
    assert!(parse_thinking_capability(&object(vec![("efforts", strings(&["low"]))])).is_err());
    assert!(parse_thinking_capability(&object(vec![
        ("supported", Json::Bool(true)),
        ("efforts", strings(&["low", "low"])),
    ]))
    .is_err());
    assert!(parse_thinking_capability(&object(vec![
        ("supported", Json::Bool(true)),
        ("efforts", strings(&["low"])),
        ("default_effort", Json::text("high")),
    ]))
    .is_err());
}

#[test]
fn a_complaint_names_what_is_wrong() {
    assert_eq!(
        ThinkingSelection::parse("hard"),
        Err("'hard' is not a thinking selection — use \"off\", \"on\", or one of \
             \"low\", \"medium\", \"high\", \"xhigh\", \"max\""
            .to_owned())
    );
    assert_eq!(
        parse_thinking_capability(&object(vec![("efforts", strings(&["low"]))])),
        Err("thinking.efforts and thinking.default_effort need thinking.supported: true".to_owned())
    );
}
