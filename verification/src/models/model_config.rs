//! A user's model: where it is served, on which wire, and what is known of it.
use vstd::prelude::*;
use crate::json::{member_models, members_map, Json, JsonModel};
use crate::models::thinking::{
    capability_complaint, parse_thinking_capability, written_capability, CapabilityModel,
    ThinkingCapability, ThinkingSelection,
};
use crate::text::same;

verus! {

/// The protocol a model is spoken to in.
#[derive(Debug, Clone, Copy, PartialEq, Eq, Structural)]
pub enum Wire {
    Openai,
    Anthropic,
}

impl Wire {
    pub open spec fn text(self) -> Seq<char> {
        match self {
            Wire::Openai => "openai"@,
            Wire::Anthropic => "anthropic"@,
        }
    }

    /// The wire a stored name stands for.
    pub open spec fn named(s: Seq<char>) -> Option<Wire> {
        if s == "openai"@ {
            Some(Wire::Openai)
        } else if s == "anthropic"@ {
            Some(Wire::Anthropic)
        } else {
            None
        }
    }

    pub fn as_str(&self) -> (r: &'static str)
        ensures
            r@ == self.text(),
    {
        match self {
            Wire::Openai => "openai",
            Wire::Anthropic => "anthropic",
        }
    }

    pub fn from_db(s: &str) -> (r: Option<Wire>)
        ensures
            r == Wire::named(s@),
    {
        if same(s, "openai") {
            Some(Wire::Openai)
        } else if same(s, "anthropic") {
            Some(Wire::Anthropic)
        } else {
            None
        }
    }
}

/// A wire is read back from its stored name unchanged.
pub proof fn a_wire_round_trips(wire: Wire)
    ensures
        Wire::named(wire.text()) == Some(wire),
{
    reveal_strlit("openai");
    reveal_strlit("anthropic");
    assert("openai"@.len() == 6 && "anthropic"@.len() == 9);
}

/// The key under `capabilities` that carries the reasoning-history policy.
pub const REASONING_HISTORY_KEY: &'static str = "reasoning_history";

/// The key under `capabilities` that carries the thinking knob's definition.
pub const THINKING_KEY: &'static str = "thinking";

/// The key under `params` that carries per-endpoint request tweaks.
pub const ADVANCED_KEY: &'static str = "advanced";

/// How much of a replayed assistant turn's reasoning a model wants back.
#[derive(Debug, Clone, Copy, PartialEq, Eq, Structural)]
pub enum ReasoningHistory {
    Full,
    Text,
    Omitted,
}

/// The policy that a value names.
pub open spec fn history_in(value: JsonModel) -> Option<ReasoningHistory> {
    match value {
        JsonModel::Str(name) => if name == "full"@ {
            Some(ReasoningHistory::Full)
        } else if name == "text"@ {
            Some(ReasoningHistory::Text)
        } else if name == "omitted"@ {
            Some(ReasoningHistory::Omitted)
        } else {
            None
        },
        _ => None,
    }
}

fn history_of(value: &Json) -> (r: Option<ReasoningHistory>)
    ensures
        r == history_in(value@),
{
    match value.as_str() {
        Some(name) => if same(name, "full") {
            Some(ReasoningHistory::Full)
        } else if same(name, "text") {
            Some(ReasoningHistory::Text)
        } else if same(name, "omitted") {
            Some(ReasoningHistory::Omitted)
        } else {
            None
        },
        None => None,
    }
}

/// Request tweaks that a model's endpoint wants on every call.
#[derive(Debug)]
pub struct AdvancedOptions {
    pub reasoning_split: bool,
    pub extra: Vec<(String, Json)>,
}

/// What [`AdvancedOptions`] say.
pub struct AdvancedModel {
    pub reasoning_split: bool,
    pub extra: Map<Seq<char>, JsonModel>,
}

impl View for AdvancedOptions {
    type V = AdvancedModel;

    open spec fn view(&self) -> AdvancedModel {
        AdvancedModel {
            reasoning_split: self.reasoning_split,
            extra: members_map(member_models(self.extra@)),
        }
    }
}

impl AdvancedModel {
    /// No tweak at all.
    pub open spec fn none() -> AdvancedModel {
        AdvancedModel { reasoning_split: false, extra: Map::empty() }
    }
}

impl Default for AdvancedOptions {
    fn default() -> (r: AdvancedOptions)
        ensures
            r@ == AdvancedModel::none(),
    {
        AdvancedOptions { reasoning_split: false, extra: Vec::new() }
    }
}

/// Tweaks as they are written down: an object whose members may be left out,
/// each of the right kind where it is not.
pub open spec fn written_advanced(value: JsonModel) -> Option<AdvancedModel> {
    if !(value is Object) {
        None
    } else {
        let reasoning_split = match value.get("reasoning_split"@) {
            None => Some(false),
            Some(JsonModel::Bool(b)) => Some(b),
            _ => None,
        };
        let extra = match value.get("extra"@) {
            None => Some(Map::empty()),
            Some(JsonModel::Object(members)) => Some(members),
            _ => None,
        };
        match (reasoning_split, extra) {
            (Some(reasoning_split), Some(extra)) => Some(
                AdvancedModel { reasoning_split, extra },
            ),
            _ => None,
        }
    }
}

fn copy_members(members: &Vec<(String, Json)>) -> (r: Vec<(String, Json)>)
    ensures
        member_models(r@) == member_models(members@),
{
    let mut copy: Vec<(String, Json)> = Vec::new();
    let mut i: usize = 0;
    while i < members.len()
        invariant
            i <= members@.len(),
            copy@.len() == i,
            forall|k: int|
                0 <= k < i ==> copy@[k].0@ == members@[k].0@ && copy@[k].1@ == members@[k].1@,
        decreases members@.len() - i,
    {
        copy.push((members[i].0.clone(), members[i].1.duplicate()));
        i += 1;
    }
    assert(member_models(copy@) =~= member_models(members@));
    copy
}

fn read_advanced(value: &Json) -> (r: Option<AdvancedOptions>)
    ensures
        match r {
            Some(options) => written_advanced(value@) == Some(options@),
            None => written_advanced(value@) is None,
        },
{
    if value.as_object().is_none() {
        return None;
    }
    let reasoning_split = match value.get("reasoning_split") {
        None => false,
        Some(Json::Bool(b)) => *b,
        Some(_) => {
            return None;
        },
    };
    let extra = match value.get("extra") {
        None => Vec::new(),
        Some(found) => match found.as_object() {
            Some(members) => copy_members(members),
            None => {
                return None;
            },
        },
    };
    Some(AdvancedOptions { reasoning_split, extra })
}

#[derive(Debug)]
pub struct ModelConfig {
    pub id: u128,
    pub user_id: u128,
    pub alias: String,
    pub base_url: String,
    pub wire: String,
    pub wire_id: String,
    pub family: Option<String>,
    pub credential_id: Option<u128>,
    pub params: Json,
    pub capabilities: Json,
    pub created_at: i64,
}

/// Whether an optional member is a boolean where it is there.
pub open spec fn flag_or_absent(value: JsonModel, key: Seq<char>) -> bool {
    match value.get(key) {
        None => true,
        Some(found) => found is Bool,
    }
}

/// Whether a value is a count of 32 bits.
pub open spec fn is_count(value: JsonModel) -> bool {
    value matches JsonModel::Int(n) && 0 <= n <= u32::MAX
}

/// Whether `capabilities` can be read at all: an object in which the members
/// that are not read leniently have the right kind. A row with no opinion on
/// one of them still can.
pub open spec fn readable_capabilities(value: JsonModel) -> bool {
    &&& value is Object
    &&& match value.get("context_window"@) {
        None => true,
        Some(found) => is_count(found),
    }
    &&& flag_or_absent(value, "tools"@)
    &&& flag_or_absent(value, "streaming"@)
    &&& flag_or_absent(value, "vision"@)
}

/// Whether `params` can be read at all.
pub open spec fn readable_params(value: JsonModel) -> bool {
    &&& value is Object
    &&& match value.get("temperature"@) {
        None => true,
        Some(found) => found is Null || found is Int || found is Decimal,
    }
    &&& match value.get("max_output_tokens"@) {
        None => true,
        Some(found) => found is Null || is_count(found),
    }
}

fn flag_fits(value: &Json, key: &str) -> (r: bool)
    ensures
        r == flag_or_absent(value@, key@),
{
    match value.get(key) {
        None => true,
        Some(Json::Bool(_)) => true,
        Some(_) => false,
    }
}

fn count_fits(value: &Json) -> (r: bool)
    ensures
        r == is_count(value@),
{
    match value {
        Json::Int(n) => 0 <= *n && *n <= 4294967295,
        _ => false,
    }
}

fn capabilities_read(value: &Json) -> (r: bool)
    ensures
        r == readable_capabilities(value@),
{
    if value.as_object().is_none() {
        return false;
    }
    let window = match value.get("context_window") {
        None => true,
        Some(found) => count_fits(found),
    };
    window && flag_fits(value, "tools") && flag_fits(value, "streaming") && flag_fits(
        value,
        "vision",
    )
}

fn params_read(value: &Json) -> (r: bool)
    ensures
        r == readable_params(value@),
{
    if value.as_object().is_none() {
        return false;
    }
    let temperature = match value.get("temperature") {
        None => true,
        Some(Json::Null) => true,
        Some(Json::Int(_)) => true,
        Some(Json::Decimal(_)) => true,
        Some(_) => false,
    };
    let tokens = match value.get("max_output_tokens") {
        None => true,
        Some(Json::Null) => true,
        Some(found) => count_fits(found),
    };
    temperature && tokens
}

/// The policy a `capabilities` row carries.
pub open spec fn history_of_row(capabilities: JsonModel) -> Option<ReasoningHistory> {
    match capabilities.get(REASONING_HISTORY_KEY@) {
        Some(value) => if readable_capabilities(capabilities) {
            history_in(value)
        } else {
            None
        },
        None => None,
    }
}

/// The thinking knob a `capabilities` row defines: none where the write path
/// would have refused the definition.
pub open spec fn thinking_of_row(capabilities: JsonModel) -> CapabilityModel {
    match capabilities.get(THINKING_KEY@) {
        Some(value) => if readable_capabilities(capabilities) && !(value is Null)
            && capability_complaint(value) is None {
            written_capability(value)->0
        } else {
            CapabilityModel::none()
        },
        None => CapabilityModel::none(),
    }
}

/// The tweaks a `params` row carries.
pub open spec fn advanced_of_row(params: JsonModel) -> AdvancedModel {
    match params.get(ADVANCED_KEY@) {
        Some(value) => if readable_params(params) && written_advanced(value) is Some {
            written_advanced(value)->0
        } else {
            AdvancedModel::none()
        },
        None => AdvancedModel::none(),
    }
}

impl ModelConfig {
    /// How much of a replayed assistant turn's reasoning this model wants
    /// back. `None` means the row says nothing, or nothing that can be read,
    /// and the wire's own default applies.
    pub fn reasoning_history(&self) -> (r: Option<ReasoningHistory>)
        ensures
            r == history_of_row(self.capabilities@),
    {
        match self.capabilities.get(REASONING_HISTORY_KEY) {
            Some(value) => if capabilities_read(&self.capabilities) {
                history_of(value)
            } else {
                None
            },
            None => None,
        }
    }

    /// Whether this model reasons, and at which levels. A definition that the
    /// write path would have rejected leaves this model without a thinking
    /// knob rather than taking the run down with it.
    pub fn thinking(&self) -> (r: ThinkingCapability)
        ensures
            r@ == thinking_of_row(self.capabilities@),
    {
        if let Some(value) = self.capabilities.get(THINKING_KEY) {
            if capabilities_read(&self.capabilities) {
                if let Ok(capability) = parse_thinking_capability(value) {
                    return capability;
                }
            }
        }
        ThinkingCapability::default()
    }

    /// Per-endpoint request tweaks this model wants applied to every call.
    pub fn advanced_options(&self) -> (r: AdvancedOptions)
        ensures
            r@ == advanced_of_row(self.params@),
    {
        if let Some(value) = self.params.get(ADVANCED_KEY) {
            if params_read(&self.params) {
                if let Some(options) = read_advanced(value) {
                    return options;
                }
            }
        }
        AdvancedOptions::default()
    }
}

/// Reads a reasoning-history value, naming what is wrong with it rather than
/// falling back: the write path wants the complaint.
pub fn parse_reasoning_history(value: &Json) -> (r: Result<Option<ReasoningHistory>, String>)
    ensures
        match r {
            Ok(history) => if value@ is Null {
                history is None
            } else {
                history is Some && history_in(value@) == history
            },
            Err(complaint) => !(value@ is Null) && history_in(value@) is None && complaint@
                == "reasoning_history must be one of \"full\", \"text\", or \"omitted\""@,
        },
{
    if let Json::Null = value {
        return Ok(None);
    }
    match history_of(value) {
        Some(history) => Ok(Some(history)),
        None => Err(
            "reasoning_history must be one of \"full\", \"text\", or \"omitted\"".to_owned(),
        ),
    }
}

/// Reads an advanced value, naming what is wrong with it rather than falling
/// back.
pub fn parse_advanced_options(value: &Json) -> (r: Result<AdvancedOptions, String>)
    ensures
        match r {
            Ok(options) => if value@ is Null {
                options@ == AdvancedModel::none()
            } else {
                written_advanced(value@) == Some(options@)
            },
            Err(complaint) => !(value@ is Null) && written_advanced(value@) is None && complaint@
                == "advanced must be an object with an optional \"reasoning_split\" boolean and an optional \"extra\" object"@,
        },
{
    if let Json::Null = value {
        return Ok(AdvancedOptions::default());
    }
    match read_advanced(value) {
        Some(options) => Ok(options),
        None => Err(
            "advanced must be an object with an optional \"reasoning_split\" boolean and an optional \"extra\" object".to_owned(),
        ),
    }
}

/// One setting that cannot be read does not take the others on its row down
/// with it.
pub proof fn settings_degrade_one_at_a_time(capabilities: JsonModel)
    requires
        readable_capabilities(capabilities),
    ensures
        capabilities.get(REASONING_HISTORY_KEY@) matches Some(value) ==> history_of_row(
            capabilities,
        ) == history_in(value),
        capabilities.get(THINKING_KEY@) matches Some(value) ==> thinking_of_row(capabilities)
            == if value is Null || capability_complaint(value) is Some {
            CapabilityModel::none()
        } else {
            written_capability(value)->0
        },
{
}

/// A definition that the write path would refuse leaves a model without a knob,
/// whatever is selected.
pub proof fn a_refused_definition_gives_no_knob(
    capabilities: JsonModel,
    value: JsonModel,
    selection: Option<ThinkingSelection>,
)
    requires
        capabilities.get(THINKING_KEY@) == Some(value),
        capability_complaint(value) is Some,
    ensures
        thinking_of_row(capabilities) == CapabilityModel::none(),
        thinking_of_row(capabilities).resolved(selection) is None,
{
}

/// A policy goes by its name, and nothing but a text names one.
pub proof fn a_policy_goes_by_its_name(value: JsonModel)
    ensures
        history_in(value) == Some(ReasoningHistory::Full) <==> value == JsonModel::Str("full"@),
        history_in(value) == Some(ReasoningHistory::Text) <==> value == JsonModel::Str("text"@),
        history_in(value) == Some(ReasoningHistory::Omitted) <==> value == JsonModel::Str(
            "omitted"@,
        ),
{
    reveal_strlit("full");
    reveal_strlit("text");
    reveal_strlit("omitted");
    assert("full"@.len() == 4 && "full"@[0] == 'f');
    assert("text"@.len() == 4 && "text"@[0] == 't');
    assert("omitted"@.len() == 7);
}

/// Tweaks that were written down are read as they were written, whatever is in
/// them; a member that is left out is none, and one of another kind is refused.
pub proof fn written_tweaks_are_read_back(value: JsonModel, options: AdvancedModel, found: JsonModel)
    ensures
        value is Object && value.get("reasoning_split"@) == Some(
            JsonModel::Bool(options.reasoning_split),
        ) && value.get("extra"@) == Some(JsonModel::Object(options.extra)) ==> written_advanced(
            value,
        ) == Some(options),
        value is Object && value.get("reasoning_split"@) is None && value.get("extra"@) is None
            ==> written_advanced(value) == Some(
            AdvancedModel { reasoning_split: false, extra: Map::empty() },
        ),
        value.get("reasoning_split"@) == Some(found) && !(found is Bool) ==> written_advanced(
            value,
        ) is None,
        value.get("extra"@) == Some(found) && !(found is Object) ==> written_advanced(
            value,
        ) is None,
        !(value is Object) ==> written_advanced(value) is None,
{
}

/// A row cannot be read where one of its plain members has another kind, or a
/// count does not fit; and where each of them is left out or fits, it can.
pub proof fn a_row_is_read_by_its_kinds(capabilities: JsonModel, params: JsonModel)
    ensures
        readable_capabilities(capabilities) <==> {
            &&& capabilities is Object
            &&& capabilities.get("tools"@) matches Some(found) ==> found is Bool
            &&& capabilities.get("streaming"@) matches Some(found) ==> found is Bool
            &&& capabilities.get("vision"@) matches Some(found) ==> found is Bool
            &&& capabilities.get("context_window"@) matches Some(found) ==> (found
                matches JsonModel::Int(n) && 0 <= n <= 0xffff_ffff)
        },
        readable_params(params) <==> {
            &&& params is Object
            &&& params.get("temperature"@) matches Some(found) ==> (found is Null || found is Int
                || found is Decimal)
            &&& params.get("max_output_tokens"@) matches Some(found) ==> (found is Null || (found
                matches JsonModel::Int(n) && 0 <= n <= 0xffff_ffff))
        },
{
}

/// What a row that can be read says of a setting is what its model runs with;
/// one that says nothing of it leaves it alone, and so does one that cannot be
/// read.
pub proof fn a_row_says_what_its_model_runs_with(
    capabilities: JsonModel,
    params: JsonModel,
    history: ReasoningHistory,
    options: AdvancedModel,
    tweaks: JsonModel,
)
    ensures
        readable_capabilities(capabilities) && capabilities.get("reasoning_history"@) == Some(
            JsonModel::Str(
                match history {
                    ReasoningHistory::Full => "full"@,
                    ReasoningHistory::Text => "text"@,
                    ReasoningHistory::Omitted => "omitted"@,
                },
            ),
        ) ==> history_of_row(capabilities) == Some(history),
        !readable_capabilities(capabilities) || capabilities.get("reasoning_history"@) is None
            ==> history_of_row(capabilities) is None,
        !readable_capabilities(capabilities) || capabilities.get("thinking"@) is None
            ==> !thinking_of_row(capabilities).supported,
        readable_params(params) && params.get("advanced"@) == Some(tweaks) && written_advanced(
            tweaks,
        ) == Some(options) ==> advanced_of_row(params) == options,
        !readable_params(params) || params.get("advanced"@) is None ==> advanced_of_row(params)
            == (AdvancedModel { reasoning_split: false, extra: Map::empty() }),
{
    a_policy_goes_by_its_name(JsonModel::Str("full"@));
    a_policy_goes_by_its_name(JsonModel::Str("text"@));
    a_policy_goes_by_its_name(JsonModel::Str("omitted"@));
}

} // verus!
