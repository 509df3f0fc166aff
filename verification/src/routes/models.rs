//! The models a user runs on.
use vstd::prelude::*;
use crate::error::{bad_request, refusal, AppError, ErrorModel};
use crate::json::{opt_json, Json, JsonModel};
use crate::models::model_config::{
    history_in, parse_advanced_options, parse_reasoning_history, written_advanced, ModelConfig,
    Wire, ADVANCED_KEY, REASONING_HISTORY_KEY, THINKING_KEY,
};
use crate::models::model_preset::{
    Capabilities, Limits, Modalities, ModelPresetRow, Preset, Pricing,
};
use crate::models::thinking::{capability_complaint, parse_thinking_capability};
use crate::text::{
    change, copy_opt, join3, opt, opt_str, texts, trim, trim_opt, trimmed, trimmed_opt,
};

verus! {

/// Why an alias is refused.
pub open spec fn alias_refusal(alias: Seq<char>) -> Option<ErrorModel> {
    if alias.len() == 0 {
        Some(ErrorModel::BadRequest("alias is required"@))
    } else if alias.len() > 100 {
        Some(ErrorModel::BadRequest("alias must be 100 characters or fewer"@))
    } else {
        None
    }
}

pub fn validate_alias(alias: &str) -> (r: Result<(), AppError>)
    ensures
        refusal(r) == alias_refusal(alias@),
{
    let len: usize = alias.unicode_len();
    if len == 0 {
        Err(bad_request("alias is required"))
    } else if len > 100 {
        Err(bad_request("alias must be 100 characters or fewer"))
    } else {
        Ok(())
    }
}

/// Why a `params` value is refused: one of its settings is not one this
/// service understands.
pub open spec fn params_refusal(params: JsonModel) -> Option<ErrorModel> {
    let history = params.get(REASONING_HISTORY_KEY@);
    let thinking = params.get(THINKING_KEY@);
    let advanced = params.get(ADVANCED_KEY@);
    if history is Some && !(history->0 is Null) && history_in(history->0) is None {
        Some(
            ErrorModel::BadRequest(
                "reasoning_history must be one of \"full\", \"text\", or \"omitted\""@,
            ),
        )
    } else if thinking is Some && capability_complaint(thinking->0) is Some {
        Some(ErrorModel::BadRequest(capability_complaint(thinking->0)->0))
    } else if advanced is Some && !(advanced->0 is Null) && written_advanced(
        advanced->0,
    ) is None {
        Some(
            ErrorModel::BadRequest(
                "advanced must be an object with an optional \"reasoning_split\" boolean and an optional \"extra\" object"@,
            ),
        )
    } else {
        None
    }
}

/// Checked here rather than at run time: a typo that quietly means "the wire
/// default" is a setting the user believes they made and cannot see fail.
pub fn validate_params(params: &Json) -> (r: Result<(), AppError>)
    ensures
        refusal(r) == params_refusal(params@),
{
    if let Some(value) = params.get(REASONING_HISTORY_KEY) {
        if let Err(complaint) = parse_reasoning_history(value) {
            return Err(AppError::BadRequest(complaint));
        }
    }
    if let Some(value) = params.get(THINKING_KEY) {
        if let Err(complaint) = parse_thinking_capability(value) {
            return Err(AppError::BadRequest(complaint));
        }
    }
    if let Some(value) = params.get(ADVANCED_KEY) {
        if let Err(complaint) = parse_advanced_options(value) {
            return Err(AppError::BadRequest(complaint));
        }
    }
    Ok(())
}

#[derive(Debug)]
pub struct CreateRequest {
    pub alias: String,
    pub base_url: String,
    pub wire: Wire,
    pub wire_id: String,
    pub family: Option<String>,
    pub credential_id: Option<u128>,
    pub params: Json,
    /// The preset that describes this model, when the caller knows one.
    pub preset_id: Option<u128>,
}

/// A model as it is written.
#[derive(Debug)]
pub struct NewModelConfig {
    pub id: u128,
    pub user_id: u128,
    pub alias: String,
    pub base_url: String,
    pub wire: &'static str,
    pub wire_id: String,
    pub family: Option<String>,
    pub credential_id: Option<u128>,
    pub params: Json,
    pub preset_id: Option<u128>,
}

/// Why a new model is refused before any row is read.
pub open spec fn create_refusal(input: CreateRequest) -> Option<ErrorModel> {
    if alias_refusal(trimmed(input.alias@)) is Some {
        alias_refusal(trimmed(input.alias@))
    } else if trimmed(input.base_url@).len() == 0 {
        Some(ErrorModel::BadRequest("base_url is required"@))
    } else if trimmed(input.wire_id@).len() == 0 {
        Some(ErrorModel::BadRequest("wire_id is required"@))
    } else {
        params_refusal(input.params@)
    }
}

/// The model to store, once its credential and its preset were looked up.
pub fn create(input: CreateRequest, id: u128, user_id: u128) -> (r: Result<
    NewModelConfig,
    AppError,
>)
    ensures
        refusal(r) == create_refusal(input),
        r matches Ok(model) ==> {
            &&& model.id == id
            &&& model.user_id == user_id
            &&& model.alias@ == trimmed(input.alias@)
            &&& model.base_url@ == trimmed(input.base_url@)
            &&& model.wire@ == input.wire.text()
            &&& model.wire_id@ == trimmed(input.wire_id@)
            &&& opt(model.family) == opt(input.family)
            &&& model.credential_id == input.credential_id
            &&& model.params@ == input.params@
            &&& model.preset_id == input.preset_id
        },
{
    let alias = trim(input.alias.as_str()).to_owned();
    if let Err(error) = validate_alias(alias.as_str()) {
        return Err(error);
    }
    let base_url = trim(input.base_url.as_str()).to_owned();
    if base_url.as_str().is_empty() {
        return Err(bad_request("base_url is required"));
    }
    let wire_id = trim(input.wire_id.as_str()).to_owned();
    if wire_id.as_str().is_empty() {
        return Err(bad_request("wire_id is required"));
    }
    if let Err(error) = validate_params(&input.params) {
        return Err(error);
    }
    Ok(
        NewModelConfig {
            id,
            user_id,
            alias,
            base_url,
            wire: input.wire.as_str(),
            wire_id,
            family: input.family,
            credential_id: input.credential_id,
            params: input.params,
            preset_id: input.preset_id,
        },
    )
}

/// A change to a model, as it is asked for.
#[derive(Debug)]
pub struct UpdateRequest {
    pub alias: Option<String>,
    pub base_url: Option<String>,
    pub wire: Option<Wire>,
    pub wire_id: Option<String>,
    /// `Some(None)` clears the field; `None` leaves it unchanged.
    pub family: Option<Option<String>>,
    pub credential_id: Option<Option<u128>>,
    pub params: Option<Json>,
    pub preset_id: Option<Option<u128>>,
}

/// A change to a model, as it is written.
#[derive(Debug)]
pub struct UpdateModelConfig {
    pub alias: Option<String>,
    pub base_url: Option<String>,
    pub wire: Option<&'static str>,
    pub wire_id: Option<String>,
    pub family: Option<Option<String>>,
    pub credential_id: Option<Option<u128>>,
    pub params: Option<Json>,
    pub preset_id: Option<Option<u128>>,
}

/// Why a change is refused before any row is read.
pub open spec fn update_refusal(input: UpdateRequest) -> Option<ErrorModel> {
    let alias = trimmed_opt(opt(input.alias));
    let base_url = trimmed_opt(opt(input.base_url));
    let wire_id = trimmed_opt(opt(input.wire_id));
    if alias is Some && alias_refusal(alias->0) is Some {
        alias_refusal(alias->0)
    } else if base_url is Some && base_url->0.len() == 0 {
        Some(ErrorModel::BadRequest("base_url cannot be empty"@))
    } else if wire_id is Some && wire_id->0.len() == 0 {
        Some(ErrorModel::BadRequest("wire_id cannot be empty"@))
    } else {
        match input.params {
            Some(params) => params_refusal(params@),
            None => None,
        }
    }
}

/// The change to store, once a new credential and a new preset were looked up.
pub fn update(input: UpdateRequest) -> (r: Result<UpdateModelConfig, AppError>)
    ensures
        refusal(r) == update_refusal(input),
        r matches Ok(patch) ==> {
            &&& opt(patch.alias) == trimmed_opt(opt(input.alias))
            &&& opt(patch.base_url) == trimmed_opt(opt(input.base_url))
            &&& opt_str(patch.wire) == match input.wire {
                Some(wire) => Some(wire.text()),
                None => None,
            }
            &&& opt(patch.wire_id) == trimmed_opt(opt(input.wire_id))
            &&& change(patch.family) == change(input.family)
            &&& patch.credential_id == input.credential_id
            &&& opt_json(patch.params) == opt_json(input.params)
            &&& patch.preset_id == input.preset_id
        },
{
    let alias = trim_opt(&input.alias);
    if let Some(text) = &alias {
        if let Err(error) = validate_alias(text.as_str()) {
            return Err(error);
        }
    }
    let base_url = trim_opt(&input.base_url);
    if let Some(text) = &base_url {
        if text.as_str().is_empty() {
            return Err(bad_request("base_url cannot be empty"));
        }
    }
    let wire_id = trim_opt(&input.wire_id);
    if let Some(text) = &wire_id {
        if text.as_str().is_empty() {
            return Err(bad_request("wire_id cannot be empty"));
        }
    }
    if let Some(params) = &input.params {
        if let Err(error) = validate_params(params) {
            return Err(error);
        }
    }
    let wire = match input.wire {
        Some(wire) => Some(wire.as_str()),
        None => None,
    };
    Ok(
        UpdateModelConfig {
            alias,
            base_url,
            wire,
            wire_id,
            family: input.family,
            credential_id: input.credential_id,
            params: input.params,
            preset_id: input.preset_id,
        },
    )
}

/// Checks that a credential was found among the caller's API keys.
pub fn verify_credential(found: bool) -> (r: Result<(), AppError>)
    ensures
        refusal(r) == if found {
            None
        } else {
            Some(ErrorModel::BadRequest("API key credential not found"@))
        },
{
    if found {
        Ok(())
    } else {
        Err(bad_request("API key credential not found"))
    }
}

/// Checks that a preset was found among those the caller may reference.
pub fn verify_preset(found: bool) -> (r: Result<(), AppError>)
    ensures
        refusal(r) == if found {
            None
        } else {
            Some(ErrorModel::BadRequest("preset not found"@))
        },
{
    if found {
        Ok(())
    } else {
        Err(bad_request("preset not found"))
    }
}

/// What a name that is taken is answered with.
pub fn taken(alias: &str) -> (r: AppError)
    ensures
        r@ == ErrorModel::BadRequest("a model named '"@ + alias@ + "' already exists"@),
{
    AppError::BadRequest(join3("a model named '", alias, "' already exists"))
}

/// Whether a preset says nothing.
pub open spec fn says_nothing(preset: Preset) -> bool {
    &&& preset.provider@.len() == 0
    &&& preset.provider_name@.len() == 0
    &&& preset.id@.len() == 0
    &&& preset.name@.len() == 0
    &&& preset.capabilities == (Capabilities {
        vision: false,
        attachment: false,
        reasoning: false,
        tools: false,
        structured_output: false,
        temperature: false,
    })
    &&& preset.pricing == (Pricing {
        input: None,
        output: None,
        cache_read: None,
        cache_write: None,
        input_audio: None,
        output_audio: None,
        reasoning: None,
    })
    &&& preset.limits == (Limits { context: None, input: None, output: None })
    &&& texts(preset.modalities.input@).len() == 0
    &&& texts(preset.modalities.output@).len() == 0
    &&& preset.release_date is None
    &&& preset.last_updated is None
    &&& preset.knowledge_cutoff is None
    &&& preset.open_weights is None
}

/// The built-in empty preset.
pub fn empty_preset() -> (r: Preset)
    ensures
        says_nothing(r),
{
    Preset {
        provider: String::new(),
        provider_name: String::new(),
        id: String::new(),
        name: String::new(),
        capabilities: Capabilities {
            vision: false,
            attachment: false,
            reasoning: false,
            tools: false,
            structured_output: false,
            temperature: false,
        },
        pricing: Pricing {
            input: None,
            output: None,
            cache_read: None,
            cache_write: None,
            input_audio: None,
            output_audio: None,
            reasoning: None,
        },
        limits: Limits { context: None, input: None, output: None },
        modalities: Modalities { input: Vec::new(), output: Vec::new() },
        release_date: None,
        last_updated: None,
        knowledge_cutoff: None,
        open_weights: None,
    }
}

/// The preset a model is described by, as the response carries it. `row` is
/// the preset of the model's id, with its provider's key and name; a model
/// that has none is described by one that says nothing.
pub fn display_preset(row: Option<(ModelPresetRow, String, String)>) -> (r: Preset)
    ensures
        match row {
            Some(found) => found.0.reads_as(r) && r.provider@ == found.1@ && r.provider_name@
                == found.2@,
            None => says_nothing(r),
        },
{
    match row {
        Some(found) => found.0.to_preset(found.1.as_str(), found.2.as_str()),
        None => empty_preset(),
    }
}

/// A model as the client sees it.
#[derive(Debug)]
pub struct ModelResponse {
    pub id: u128,
    pub alias: String,
    pub base_url: String,
    pub wire: String,
    pub wire_id: String,
    pub family: Option<String>,
    pub credential_id: Option<u128>,
    pub params: Json,
    pub preset_id: Option<u128>,
    pub preset: Preset,
    pub created_at: i64,
}

pub fn model_response(m: &ModelConfig, preset_id: Option<u128>, preset: Preset) -> (r:
    ModelResponse)
    ensures
        r.id == m.id,
        r.alias@ == m.alias@,
        r.base_url@ == m.base_url@,
        r.wire@ == m.wire@,
        r.wire_id@ == m.wire_id@,
        opt(r.family) == opt(m.family),
        r.credential_id == m.credential_id,
        r.params@ == m.params@,
        r.preset_id == preset_id,
        r.preset == preset,
        r.created_at == m.created_at,
{
    ModelResponse {
        id: m.id,
        alias: m.alias.clone(),
        base_url: m.base_url.clone(),
        wire: m.wire.clone(),
        wire_id: m.wire_id.clone(),
        family: copy_opt(&m.family),
        credential_id: m.credential_id,
        params: m.params.duplicate(),
        preset_id,
        preset,
        created_at: m.created_at,
    }
}

/// An alias has between 1 and 100 characters.
pub proof fn an_alias_fits_its_column(alias: Seq<char>)
    ensures
        alias_refusal(alias) is None <==> 1 <= alias.len() <= 100,
        alias.len() == 0 ==> alias_refusal(alias) == Some(
            ErrorModel::BadRequest("alias is required"@),
        ),
        alias.len() > 100 ==> alias_refusal(alias) == Some(
            ErrorModel::BadRequest("alias must be 100 characters or fewer"@),
        ),
{
}

/// Settings are accepted just where each of those that are given is one this
/// service understands, whatever else is given.
pub proof fn settings_are_accepted_one_by_one(params: JsonModel)
    ensures
        params_refusal(params) is None <==> {
            &&& params.get("reasoning_history"@) matches Some(value) ==> (value is Null || value
                == JsonModel::Str("full"@) || value == JsonModel::Str("text"@) || value
                == JsonModel::Str("omitted"@))
            &&& params.get("thinking"@) matches Some(value) ==> capability_complaint(value) is None
            &&& params.get("advanced"@) matches Some(value) ==> (value is Null || written_advanced(
                value,
            ) is Some)
        },
{
    if let Some(value) = params.get("reasoning_history"@) {
        crate::models::model_config::a_policy_goes_by_its_name(value);
    }
}

/// A model is accepted just where it has an alias that fits, an address, a name
/// on the wire, each with more than white space in it, and settings that are
/// understood.
pub proof fn a_model_needs_its_fields(input: CreateRequest)
    ensures
        create_refusal(input) is None <==> {
            &&& 1 <= trimmed(input.alias@).len() <= 100
            &&& trimmed(input.base_url@).len() > 0
            &&& trimmed(input.wire_id@).len() > 0
            &&& params_refusal(input.params@) is None
        },
{
}

/// A change is accepted just where each field that it gives would be; a field
/// that it does not give is not asked for.
pub proof fn a_change_is_held_to_what_it_gives(input: UpdateRequest)
    ensures
        update_refusal(input) is None <==> {
            &&& input.alias matches Some(alias) ==> 1 <= trimmed(alias@).len() <= 100
            &&& input.base_url matches Some(url) ==> trimmed(url@).len() > 0
            &&& input.wire_id matches Some(name) ==> trimmed(name@).len() > 0
            &&& input.params matches Some(params) ==> params_refusal(params@) is None
        },
{
}

/// The preset of a model that has none says nothing: not a word, not a price,
/// not a limit, and nothing that the model could do.
pub proof fn the_empty_preset_says_nothing(preset: Preset)
    requires
        says_nothing(preset),
    ensures
        preset.provider@.len() + preset.provider_name@.len() + preset.id@.len() + preset.name@.len()
            == 0,
        !preset.capabilities.vision && !preset.capabilities.attachment
            && !preset.capabilities.reasoning && !preset.capabilities.tools
            && !preset.capabilities.structured_output && !preset.capabilities.temperature,
        preset.pricing.input is None && preset.pricing.output is None
            && preset.pricing.cache_read is None && preset.pricing.cache_write is None
            && preset.pricing.input_audio is None && preset.pricing.output_audio is None
            && preset.pricing.reasoning is None,
        preset.limits.context is None && preset.limits.input is None
            && preset.limits.output is None,
        preset.modalities.input@.len() + preset.modalities.output@.len() == 0,
        preset.release_date is None && preset.last_updated is None
            && preset.knowledge_cutoff is None && preset.open_weights is None,
{
}

} // verus!
