//! The thinking knob: what a model offers, what a session picked, and what the
//! two together mean for a run.
//!
//! *Whether a model reasons at all, and at which levels*, is a fact about the
//! endpoint behind it and belongs to the model definition. *How hard this
//! conversation should think* is the user's, and belongs to the session.
//! Neither half is meaningful alone.
use vstd::prelude::*;
use crate::json::{models, Json, JsonModel};
use crate::text::{join3, same};

verus! {

/// How hard a model is asked to think.
#[derive(Debug, Clone, Copy, PartialEq, Eq, Structural)]
pub enum Effort {
    Low,
    Medium,
    High,
    XHigh,
    Max,
}

impl Effort {
    pub open spec fn name(self) -> Seq<char> {
        match self {
            Effort::Low => "low"@,
            Effort::Medium => "medium"@,
            Effort::High => "high"@,
            Effort::XHigh => "xhigh"@,
            Effort::Max => "max"@,
        }
    }

    pub fn as_str(&self) -> (r: &'static str)
        ensures
            r@ == self.name(),
    {
        match self {
            Effort::Low => "low",
            Effort::Medium => "medium",
            Effort::High => "high",
            Effort::XHigh => "xhigh",
            Effort::Max => "max",
        }
    }

    /// The level a name stands for.
    pub open spec fn named(name: Seq<char>) -> Option<Effort> {
        if name == "low"@ {
            Some(Effort::Low)
        } else if name == "medium"@ {
            Some(Effort::Medium)
        } else if name == "high"@ {
            Some(Effort::High)
        } else if name == "xhigh"@ {
            Some(Effort::XHigh)
        } else if name == "max"@ {
            Some(Effort::Max)
        } else {
            None
        }
    }

    /// The level a name stands for.
    pub fn parse(name: &str) -> (r: Option<Effort>)
        ensures
            r == Effort::named(name@),
    {
        if same(name, "low") {
            Some(Effort::Low)
        } else if same(name, "medium") {
            Some(Effort::Medium)
        } else if same(name, "high") {
            Some(Effort::High)
        } else if same(name, "xhigh") {
            Some(Effort::XHigh)
        } else if same(name, "max") {
            Some(Effort::Max)
        } else {
            None
        }
    }
}

/// How much of the reasoning a reader is shown.
#[derive(Debug, Clone, Copy, PartialEq, Eq, Structural)]
pub enum ThinkingDisplay {
    Summarized,
    Omitted,
}

/// The reasoning field of a request.
#[derive(Debug, Clone, Copy, PartialEq, Eq, Structural)]
pub enum Thinking {
    Disabled,
    Adaptive { display: ThinkingDisplay },
}

/// The reasoning half of a request, as one run resolved it.
///
/// Both fields `None` is a real value and not an empty one: it says this run
/// has an opinion, and that opinion is to send neither field.
#[derive(Debug, Clone, Copy, PartialEq, Eq, Structural)]
pub struct ResolvedThinking {
    pub thinking: Option<Thinking>,
    pub effort: Option<Effort>,
}

impl Default for ResolvedThinking {
    fn default() -> (r: ResolvedThinking)
        ensures
            r == (ResolvedThinking { thinking: None, effort: None }),
    {
        ResolvedThinking { thinking: None, effort: None }
    }
}

/// What a session picked, stored as text.
///
/// "Off" and "never picked" are different answers: one sends a disabled
/// reasoning field, the other sends nothing and lets the model's definition
/// decide.
#[derive(Debug, Clone, Copy, PartialEq, Eq, Structural)]
pub enum ThinkingSelection {
    /// Don't reason on this session's turns.
    Off,
    /// Reason, at whatever effort the provider picks for itself.
    On,
    /// Reason at this level.
    Effort(Effort),
}

impl ThinkingSelection {
    pub open spec fn text(self) -> Seq<char> {
        match self {
            ThinkingSelection::Off => "off"@,
            ThinkingSelection::On => "on"@,
            ThinkingSelection::Effort(effort) => effort.name(),
        }
    }

    /// The selection a stored or submitted value stands for.
    pub open spec fn named(value: Seq<char>) -> Option<ThinkingSelection> {
        if value == "off"@ {
            Some(ThinkingSelection::Off)
        } else if value == "on"@ {
            Some(ThinkingSelection::On)
        } else {
            match Effort::named(value) {
                Some(effort) => Some(ThinkingSelection::Effort(effort)),
                None => None,
            }
        }
    }

    /// What is wrong with a value that stands for none.
    pub open spec fn complaint(value: Seq<char>) -> Seq<char> {
        "'"@ + value
            + "' is not a thinking selection — use \"off\", \"on\", or one of \"low\", \"medium\", \"high\", \"xhigh\", \"max\""@
    }

    pub fn as_str(self) -> (r: &'static str)
        ensures
            r@ == self.text(),
    {
        match self {
            ThinkingSelection::Off => "off",
            ThinkingSelection::On => "on",
            ThinkingSelection::Effort(effort) => effort.as_str(),
        }
    }

    /// Reads a stored or submitted value, naming what is wrong with it rather
    /// than falling back.
    pub fn parse(value: &str) -> (r: Result<ThinkingSelection, String>)
        ensures
            match r {
                Ok(selection) => ThinkingSelection::named(value@) == Some(selection),
                Err(complaint) => ThinkingSelection::named(value@) is None && complaint@
                    == ThinkingSelection::complaint(value@),
            },
    {
        if same(value, "off") {
            return Ok(ThinkingSelection::Off);
        }
        if same(value, "on") {
            return Ok(ThinkingSelection::On);
        }
        match Effort::parse(value) {
            Some(effort) => Ok(ThinkingSelection::Effort(effort)),
            None => Err(
                join3(
                    "'",
                    value,
                    "' is not a thinking selection — use \"off\", \"on\", or one of \"low\", \"medium\", \"high\", \"xhigh\", \"max\"",
                ),
            ),
        }
    }

    /// A stored value that no longer parses, dropped rather than raised: the
    /// model's own default is a better answer for it than a session that
    /// refuses to run.
    pub fn from_stored(value: Option<&str>) -> (r: Option<ThinkingSelection>)
        ensures
            r == match value {
                Some(text) => ThinkingSelection::named(text@),
                None => None,
            },
    {
        match value {
            Some(text) => match ThinkingSelection::parse(text) {
                Ok(selection) => Some(selection),
                Err(_) => None,
            },
            None => None,
        }
    }
}

/// A selection is read back from its stored form unchanged.
pub proof fn a_selection_round_trips(selection: ThinkingSelection)
    ensures
        ThinkingSelection::named(selection.text()) == Some(selection),
{
    reveal_strlit("off");
    reveal_strlit("on");
    reveal_strlit("low");
    reveal_strlit("medium");
    reveal_strlit("high");
    reveal_strlit("xhigh");
    reveal_strlit("max");
    assert("off"@.len() == 3 && "off"@[0] == 'o');
    assert("on"@.len() == 2);
    assert("low"@.len() == 3 && "low"@[0] == 'l');
    assert("medium"@.len() == 6);
    assert("high"@.len() == 4);
    assert("xhigh"@.len() == 5);
    assert("max"@.len() == 3 && "max"@[0] == 'm');
}

/// What a model definition says about reasoning. A definition that says
/// nothing has no thinking knob at all.
#[derive(Debug, Clone, PartialEq)]
pub struct ThinkingCapability {
    /// Whether this model reasons at all. Everything else here is inert
    /// without it.
    pub supported: bool,
    /// The effort levels worth offering for this model, in the order a picker
    /// shows them. Empty is a real answer: a model that reasons but takes no
    /// effort field has an on/off knob and nothing more.
    pub efforts: Vec<Effort>,
    /// What a session that never picked gets. `None` leaves the provider's own
    /// default.
    pub default_effort: Option<Effort>,
}

/// What a [`ThinkingCapability`] says.
pub struct CapabilityModel {
    pub supported: bool,
    pub efforts: Seq<Effort>,
    pub default_effort: Option<Effort>,
}

impl View for ThinkingCapability {
    type V = CapabilityModel;

    open spec fn view(&self) -> CapabilityModel {
        CapabilityModel {
            supported: self.supported,
            efforts: self.efforts@,
            default_effort: self.default_effort,
        }
    }
}

impl Default for ThinkingCapability {
    fn default() -> (r: ThinkingCapability)
        ensures
            r@ == CapabilityModel::none(),
    {
        let r = ThinkingCapability { supported: false, efforts: Vec::new(), default_effort: None };
        assert(r.efforts@ =~= Seq::empty());
        r
    }
}

/// Reasoning that was asked for is reasoning somebody wants to read, so the
/// summarized display is what "on" means.
pub open spec fn adaptive_thinking() -> Thinking {
    Thinking::Adaptive { display: ThinkingDisplay::Summarized }
}

impl CapabilityModel {
    /// No thinking knob.
    pub open spec fn none() -> CapabilityModel {
        CapabilityModel { supported: false, efforts: Seq::empty(), default_effort: None }
    }

    /// What a session that picked nothing this model offers gets.
    pub open spec fn fallback(self) -> ResolvedThinking {
        match self.default_effort {
            Some(effort) => ResolvedThinking {
                thinking: Some(adaptive_thinking()),
                effort: Some(effort),
            },
            None => ResolvedThinking { thinking: None, effort: None },
        }
    }

    /// The reasoning fields a run carries, given what the session picked.
    pub open spec fn resolved(self, selection: Option<ThinkingSelection>) -> Option<
        ResolvedThinking,
    > {
        if !self.supported {
            None
        } else {
            Some(
                match selection {
                    Some(ThinkingSelection::Off) => ResolvedThinking {
                        thinking: Some(Thinking::Disabled),
                        effort: None,
                    },
                    Some(ThinkingSelection::On) => ResolvedThinking {
                        thinking: Some(adaptive_thinking()),
                        effort: None,
                    },
                    Some(ThinkingSelection::Effort(effort)) => if self.efforts.contains(effort) {
                        ResolvedThinking {
                            thinking: Some(adaptive_thinking()),
                            effort: Some(effort),
                        }
                    } else {
                        self.fallback()
                    },
                    None => self.fallback(),
                },
            )
        }
    }
}

impl ThinkingCapability {
    pub fn offers(&self, effort: Effort) -> (r: bool)
        ensures
            r == self@.efforts.contains(effort),
    {
        let mut i: usize = 0;
        while i < self.efforts.len()
            invariant
                i <= self.efforts@.len(),
                forall|k: int| 0 <= k < i ==> self.efforts@[k] != effort,
            decreases self.efforts@.len() - i,
        {
            if self.efforts[i] == effort {
                return true;
            }
            i += 1;
        }
        false
    }

    /// The reasoning fields a run should carry, given what the session picked.
    ///
    /// `None` means this model has no opinion on reasoning and the run should
    /// not acquire one. A selection this model does not offer is clamped to
    /// the model's own default rather than refused: the selection outlives the
    /// model it was made against.
    pub fn resolve(&self, selection: Option<ThinkingSelection>) -> (r: Option<ResolvedThinking>)
        ensures
            r == self@.resolved(selection),
    {
        if !self.supported {
            return None;
        }
        let adaptive = Thinking::Adaptive { display: ThinkingDisplay::Summarized };
        let fallback = match self.default_effort {
            Some(effort) => ResolvedThinking { thinking: Some(adaptive), effort: Some(effort) },
            None => ResolvedThinking { thinking: None, effort: None },
        };
        let resolved = match selection {
            Some(ThinkingSelection::Off) => ResolvedThinking {
                thinking: Some(Thinking::Disabled),
                effort: None,
            },
            Some(ThinkingSelection::On) => ResolvedThinking {
                thinking: Some(adaptive),
                effort: None,
            },
            Some(ThinkingSelection::Effort(effort)) => if self.offers(effort) {
                ResolvedThinking { thinking: Some(adaptive), effort: Some(effort) }
            } else {
                fallback
            },
            None => fallback,
        };
        Some(resolved)
    }
}

/// A model that does not reason leaves the run alone, whatever was picked.
pub proof fn no_selection_gives_a_model_a_knob(
    capability: CapabilityModel,
    selection: Option<ThinkingSelection>,
)
    requires
        !capability.supported,
    ensures
        capability.resolved(selection) is None,
{
}

/// A level the model does not offer is the same as having picked nothing, and
/// a run never asks for a level that is neither offered nor the default.
pub proof fn an_unknown_level_is_clamped(capability: CapabilityModel, effort: Effort)
    requires
        !capability.efforts.contains(effort),
    ensures
        capability.resolved(Some(ThinkingSelection::Effort(effort))) == capability.resolved(None),
{
}

// ---------------------------------------------------------------------------
// Reading a definition
// ---------------------------------------------------------------------------

/// The levels that a list names, where every item names one.
pub open spec fn efforts_in(list: Seq<JsonModel>) -> Option<Seq<Effort>>
    decreases list.len(),
{
    if list.len() == 0 {
        Some(Seq::empty())
    } else {
        match (efforts_in(list.drop_last()), effort_in(list.last())) {
            (Some(before), Some(effort)) => Some(before.push(effort)),
            _ => None,
        }
    }
}

/// The level that a value names.
pub open spec fn effort_in(value: JsonModel) -> Option<Effort> {
    match value {
        JsonModel::Str(name) => Effort::named(name),
        _ => None,
    }
}

/// A capability as it is written down: an object whose members may be left
/// out, each of the right kind where it is not.
pub open spec fn written_capability(value: JsonModel) -> Option<CapabilityModel> {
    if !(value is Object) {
        None
    } else {
        let supported = match value.get("supported"@) {
            None => Some(false),
            Some(JsonModel::Bool(b)) => Some(b),
            _ => None,
        };
        let efforts = match value.get("efforts"@) {
            None => Some(Seq::empty()),
            Some(JsonModel::List(list)) => efforts_in(list),
            _ => None,
        };
        let default_effort = match value.get("default_effort"@) {
            None => Some(None),
            Some(JsonModel::Null) => Some(None),
            Some(other) => match effort_in(other) {
                Some(effort) => Some(Some(effort)),
                None => None,
            },
        };
        match (supported, efforts, default_effort) {
            (Some(supported), Some(efforts), Some(default_effort)) => Some(
                CapabilityModel { supported, efforts, default_effort },
            ),
            _ => None,
        }
    }
}

fn effort_of(value: &Json) -> (r: Option<Effort>)
    ensures
        r == effort_in(value@),
{
    match value.as_str() {
        Some(name) => Effort::parse(name),
        None => None,
    }
}

proof fn lemma_efforts_fail(list: Seq<JsonModel>, i: int)
    requires
        0 <= i < list.len(),
        effort_in(list[i]) is None,
    ensures
        efforts_in(list) is None,
    decreases list.len(),
{
    if i < list.len() - 1 {
        assert(list.drop_last()[i] == list[i]);
        lemma_efforts_fail(list.drop_last(), i);
    }
}

fn efforts_of(list: &Vec<Json>) -> (r: Option<Vec<Effort>>)
    ensures
        match r {
            Some(efforts) => efforts_in(models(list@)) == Some(efforts@),
            None => efforts_in(models(list@)) is None,
        },
{
    let ghost all = models(list@);
    let mut efforts: Vec<Effort> = Vec::new();
    let mut i: usize = 0;
    assert(all.take(0) =~= Seq::empty());
    assert(efforts@ =~= Seq::empty());
    while i < list.len()
        invariant
            i <= list@.len(),
            all == models(list@),
            efforts_in(all.take(i as int)) == Some(efforts@),
        decreases list@.len() - i,
    {
        match effort_of(&list[i]) {
            Some(effort) => {
                assert(all.take(i + 1).drop_last() =~= all.take(i as int));
                efforts.push(effort);
            },
            None => {
                proof {
                    lemma_efforts_fail(all, i as int);
                }
                return None;
            },
        }
        i += 1;
    }
    assert(all.take(i as int) =~= all);
    Some(efforts)
}

/// A capability as it is written down, before its parts are held against each
/// other.
pub fn read_capability(value: &Json) -> (r: Option<ThinkingCapability>)
    ensures
        match r {
            Some(capability) => written_capability(value@) == Some(capability@),
            None => written_capability(value@) is None,
        },
{
    if value.as_object().is_none() {
        return None;
    }
    let supported = match value.get("supported") {
        None => false,
        Some(Json::Bool(b)) => *b,
        Some(_) => {
            return None;
        },
    };
    let efforts = match value.get("efforts") {
        None => {
            let none: Vec<Effort> = Vec::new();
            assert(none@ =~= Seq::empty());
            none
        },
        Some(found) => match found.as_list() {
            Some(list) => match efforts_of(list) {
                Some(efforts) => efforts,
                None => {
                    return None;
                },
            },
            None => {
                return None;
            },
        },
    };
    let default_effort = match value.get("default_effort") {
        None => None,
        Some(Json::Null) => None,
        Some(found) => match effort_of(found) {
            Some(effort) => Some(effort),
            None => {
                return None;
            },
        },
    };
    Some(ThinkingCapability { supported, efforts, default_effort })
}

/// What is wrong with a written capability, if anything is.
pub open spec fn capability_complaint(value: JsonModel) -> Option<Seq<char>> {
    if value is Null {
        None
    } else {
        match written_capability(value) {
            None => Some(
                "thinking must be an object with an optional \"supported\" boolean, an optional \"efforts\" array of \"low\"/\"medium\"/\"high\"/\"xhigh\"/\"max\", and an optional \"default_effort\" naming one of them"@,
            ),
            Some(capability) => if !capability.supported && (capability.efforts.len() > 0
                || capability.default_effort is Some) {
                Some("thinking.efforts and thinking.default_effort need thinking.supported: true"@)
            } else if !capability.efforts.no_duplicates() {
                Some("thinking.efforts must not list the same level twice"@)
            } else if capability.default_effort is Some && !capability.efforts.contains(
                capability.default_effort->0,
            ) {
                Some("thinking.default_effort must be one of thinking.efforts"@)
            } else {
                None
            },
        }
    }
}

fn has_repeat(efforts: &Vec<Effort>) -> (r: bool)
    ensures
        r == !efforts@.no_duplicates(),
{
    let mut i: usize = 0;
    while i < efforts.len()
        invariant
            i <= efforts@.len(),
            forall|j: int, k: int| 0 <= j < k < i ==> efforts@[j] != efforts@[k],
        decreases efforts@.len() - i,
    {
        let mut j: usize = 0;
        while j < i
            invariant
                j <= i < efforts@.len(),
                forall|k: int| 0 <= k < j ==> efforts@[k] != efforts@[i as int],
            decreases i - j,
        {
            if efforts[j] == efforts[i] {
                return true;
            }
            j += 1;
        }
        i += 1;
    }
    false
}

/// Reads a written capability, naming what is wrong with it rather than
/// falling back: a typo that quietly means "no thinking knob" is a setting the
/// user believes they made and would never see fail.
pub fn parse_thinking_capability(value: &Json) -> (r: Result<ThinkingCapability, String>)
    ensures
        match r {
            Ok(capability) => capability_complaint(value@) is None && capability@ == if value@ is Null {
                CapabilityModel::none()
            } else {
                written_capability(value@)->0
            },
            Err(complaint) => capability_complaint(value@) == Some(complaint@),
        },
{
    if let Json::Null = value {
        return Ok(ThinkingCapability::default());
    }
    let capability = match read_capability(value) {
        Some(capability) => capability,
        None => {
            return Err(
                "thinking must be an object with an optional \"supported\" boolean, an optional \"efforts\" array of \"low\"/\"medium\"/\"high\"/\"xhigh\"/\"max\", and an optional \"default_effort\" naming one of them".to_owned(),
            );
        },
    };
    if !capability.supported && (capability.efforts.len() > 0
        || capability.default_effort.is_some()) {
        return Err(
            "thinking.efforts and thinking.default_effort need thinking.supported: true".to_owned(),
        );
    }
    if has_repeat(&capability.efforts) {
        return Err("thinking.efforts must not list the same level twice".to_owned());
    }
    if let Some(default) = capability.default_effort {
        if !capability.offers(default) {
            return Err("thinking.default_effort must be one of thinking.efforts".to_owned());
        }
    }
    Ok(capability)
}

/// A definition that was accepted never resolves to a level it does not offer.
pub proof fn an_accepted_definition_stays_within_its_levels(
    value: JsonModel,
    selection: Option<ThinkingSelection>,
)
    requires
        capability_complaint(value) is None,
        !(value is Null),
    ensures
        written_capability(value)->0.resolved(selection) matches Some(resolved) ==> (
        resolved.effort matches Some(effort) ==> written_capability(value)->0.efforts.contains(
            effort,
        )),
{
}

/// A level goes by its name, and nothing else names one.
pub proof fn a_level_goes_by_its_name(name: Seq<char>)
    ensures
        Effort::named(name) == Some(Effort::Low) <==> name == "low"@,
        Effort::named(name) == Some(Effort::Medium) <==> name == "medium"@,
        Effort::named(name) == Some(Effort::High) <==> name == "high"@,
        Effort::named(name) == Some(Effort::XHigh) <==> name == "xhigh"@,
        Effort::named(name) == Some(Effort::Max) <==> name == "max"@,
        ThinkingSelection::named(name) == Some(ThinkingSelection::Off) <==> name == "off"@,
        ThinkingSelection::named(name) == Some(ThinkingSelection::On) <==> name == "on"@,
        forall|effort: Effort|
            ThinkingSelection::named(name) == Some(ThinkingSelection::Effort(effort)) <==> name
                == #[trigger] effort.name(),
{
    a_selection_round_trips(ThinkingSelection::Effort(Effort::Low));
    a_selection_round_trips(ThinkingSelection::Effort(Effort::Medium));
    a_selection_round_trips(ThinkingSelection::Effort(Effort::High));
    a_selection_round_trips(ThinkingSelection::Effort(Effort::XHigh));
    a_selection_round_trips(ThinkingSelection::Effort(Effort::Max));
    a_selection_round_trips(ThinkingSelection::Off);
    a_selection_round_trips(ThinkingSelection::On);
}

/// A model that reasons is asked to in the way that was picked: at the level
/// that was picked where it offers that level, at none of its own choosing where
/// only "on" was, not at all where "off" was, and at the model's default where
/// nothing was.
pub proof fn what_was_picked_is_asked_for(capability: CapabilityModel, effort: Effort)
    requires
        capability.supported,
    ensures
        ({
            let shown = Some(Thinking::Adaptive { display: ThinkingDisplay::Summarized });
            let asked = |selection: Option<ThinkingSelection>| capability.resolved(selection)->0;
            let off = asked(Some(ThinkingSelection::Off));
            let on = asked(Some(ThinkingSelection::On));
            let level = asked(Some(ThinkingSelection::Effort(effort)));
            let unpicked = asked(None);
            &&& forall|selection: Option<ThinkingSelection>| #[trigger]
                capability.resolved(selection) is Some
            &&& off.thinking == Some(Thinking::Disabled) && off.effort is None
            &&& on.thinking == shown && on.effort is None
            &&& capability.efforts.contains(effort) ==> level.thinking == shown && level.effort
                == Some(effort)
            &&& unpicked.effort == capability.default_effort
            &&& capability.default_effort is Some ==> unpicked.thinking == shown
            &&& capability.default_effort is None ==> unpicked.thinking is None
        }),
{
}

/// A list of levels is read item by item, and not at all where one of them is
/// no level.
pub proof fn levels_are_read_one_by_one(list: Seq<JsonModel>)
    ensures
        efforts_in(list) is Some <==> forall|i: int|
            0 <= i < list.len() ==> effort_in(#[trigger] list[i]) is Some,
        efforts_in(list) matches Some(efforts) ==> efforts.len() == list.len() && forall|i: int|
            0 <= i < list.len() ==> Some(#[trigger] efforts[i]) == effort_in(list[i]),
    decreases list.len(),
{
    if list.len() > 0 {
        let before = list.drop_last();
        levels_are_read_one_by_one(before);
        if efforts_in(list) is Some {
            assert forall|i: int| 0 <= i < list.len() implies effort_in(
                #[trigger] list[i],
            ) is Some by {
                if i < before.len() {
                    assert(before[i] == list[i]);
                }
            }
            let efforts = efforts_in(list)->0;
            assert forall|i: int| 0 <= i < list.len() implies Some(#[trigger] efforts[i])
                == effort_in(list[i]) by {
                if i < before.len() {
                    assert(before[i] == list[i]);
                    assert(efforts[i] == efforts_in(before)->0[i]);
                }
            }
        } else if forall|i: int| 0 <= i < list.len() ==> effort_in(#[trigger] list[i]) is Some {
            assert forall|i: int| 0 <= i < before.len() implies effort_in(
                #[trigger] before[i],
            ) is Some by {
                assert(effort_in(list[i]) is Some);
            }
            assert(effort_in(list[list.len() - 1]) is Some);
        }
    }
}

/// A capability that was written down member by member is read as it was
/// written, and it is accepted just where its parts fit: nothing is offered by a
/// model that does not reason, no level twice, and the default is among the
/// levels.
pub proof fn a_written_capability_is_read_back(value: JsonModel, capability: CapabilityModel)
    requires
        value is Object,
        value.get("supported"@) == Some(JsonModel::Bool(capability.supported)),
        value.get("efforts"@) == Some(
            JsonModel::List(capability.efforts.map_values(|e: Effort| JsonModel::Str(e.name()))),
        ),
        value.get("default_effort"@) == match capability.default_effort {
            Some(effort) => Some(JsonModel::Str(effort.name())),
            None => Some(JsonModel::Null),
        },
    ensures
        written_capability(value) == Some(capability),
        capability_complaint(value) is None <==> {
            &&& capability.supported || (capability.efforts.len() == 0
                && capability.default_effort is None)
            &&& forall|i: int, j: int|
                0 <= i < j < capability.efforts.len() ==> #[trigger] capability.efforts[i]
                    != #[trigger] capability.efforts[j]
            &&& capability.default_effort matches Some(effort) ==> exists|i: int|
                0 <= i < capability.efforts.len() && #[trigger] capability.efforts[i] == effort
        },
{
    let list = capability.efforts.map_values(|e: Effort| JsonModel::Str(e.name()));
    assert forall|i: int| 0 <= i < list.len() implies effort_in(#[trigger] list[i]) == Some(
        capability.efforts[i],
    ) by {
        a_level_goes_by_its_name(capability.efforts[i].name());
    }
    levels_are_read_one_by_one(list);
    let efforts = efforts_in(list)->0;
    assert forall|i: int| 0 <= i < efforts.len() implies efforts[i] == capability.efforts[i] by {
        assert(effort_in(list[i]) == Some(capability.efforts[i]));
    }
    assert(efforts =~= capability.efforts);
    if let Some(effort) = capability.default_effort {
        a_level_goes_by_its_name(effort.name());
    }
}

/// A capability of which nothing is written down offers nothing, and one with a
/// member of another kind is refused.
pub proof fn a_capability_is_read_by_its_kinds(value: JsonModel, found: JsonModel)
    ensures
        !(value is Object) ==> written_capability(value) is None,
        value.get("supported"@) == Some(found) && !(found is Bool) ==> written_capability(
            value,
        ) is None,
        value.get("efforts"@) == Some(found) && !(found is List) ==> written_capability(
            value,
        ) is None,
        value.get("default_effort"@) == Some(found) && !(found is Str) && !(found is Null)
            ==> written_capability(value) is None,
        value is Object && value.get("supported"@) is None && value.get("efforts"@) is None
            && value.get("default_effort"@) is None ==> written_capability(value) == Some(
            CapabilityModel { supported: false, efforts: Seq::empty(), default_effort: None },
        ),
{
}

} // verus!
