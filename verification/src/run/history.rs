//! What a run leaves behind: the exchanges its model calls were recorded in,
//! and the lineage the thread's next run starts from.
use vstd::prelude::*;
use crate::json::{member_models, models, object_of, opt_json, parsed, Json, JsonModel};
use crate::message::{joined, text_blocks, text_message, text_of_block, Message, Role};
use crate::text::{opt, same};

verus! {

/// What a model call cost.
#[derive(Debug, Clone, Copy, PartialEq, Eq, Structural)]
pub struct Usage {
    pub input_tokens: u64,
    pub output_tokens: u64,
    pub cache_read_input_tokens: u64,
    pub cache_creation_input_tokens: u64,
    pub reasoning_tokens: u64,
}

/// How a frame ended.
#[derive(Debug)]
pub enum Outcome {
    Succeeded,
    Failed { error: String },
}

/// What a frame was opened for.
#[derive(Debug, Clone, Copy, PartialEq, Eq, Structural)]
pub enum FrameDetail {
    Model,
    Tool,
    Harness,
}

/// One entry of the frame log that was recorded at the capability boundary.
#[derive(Debug)]
pub enum CoreEvent {
    FrameStart { frame: String, detail: FrameDetail },
    ModelRequest { frame: String, body: Vec<u8> },
    ModelEvent { frame: String, event: Json },
    ModelUsage { frame: String, usage: Usage },
    FrameStop { frame: String, outcome: Outcome },
    Other,
}

/// One model frame, folded out of the frame log.
#[derive(Debug)]
pub struct ModelFrame {
    pub request: Option<Vec<u8>>,
    pub events: Vec<Json>,
    pub usage: Option<Usage>,
    pub outcome: Option<Json>,
}

/// What a [`ModelFrame`] says.
#[verifier::ext_equal]
pub struct FrameModel {
    pub request: Option<Seq<u8>>,
    pub events: Seq<JsonModel>,
    pub usage: Option<Usage>,
    pub outcome: Option<JsonModel>,
}

pub open spec fn opt_bytes(o: Option<Vec<u8>>) -> Option<Seq<u8>> {
    match o {
        Some(bytes) => Some(bytes@),
        None => None,
    }
}

impl View for ModelFrame {
    type V = FrameModel;

    open spec fn view(&self) -> FrameModel {
        FrameModel {
            request: opt_bytes(self.request),
            events: models(self.events@),
            usage: self.usage,
            outcome: opt_json(self.outcome),
        }
    }
}

/// The models of a list of frames.
pub open spec fn frame_models(frames: Seq<(String, ModelFrame)>) -> Seq<(Seq<char>, FrameModel)> {
    Seq::new(frames.len(), |i: int| (frames[i].0@, frames[i].1@))
}

/// Where `id` stands in a list of frames, or its length where it does not.
pub open spec fn frame_at(frames: Seq<(Seq<char>, FrameModel)>, id: Seq<char>) -> int
    decreases frames.len(),
{
    if frames.len() == 0 {
        0
    } else if frame_at(frames.drop_last(), id) < frames.len() - 1 {
        frame_at(frames.drop_last(), id)
    } else if frames.last().0 == id {
        frames.len() - 1
    } else {
        frames.len() as int
    }
}

/// A frame nothing was recorded of yet.
pub open spec fn empty_frame() -> FrameModel {
    FrameModel { request: None, events: Seq::empty(), usage: None, outcome: None }
}

/// `frames` with one for `id`, at the end where there was none.
pub open spec fn touched(frames: Seq<(Seq<char>, FrameModel)>, id: Seq<char>) -> Seq<
    (Seq<char>, FrameModel),
> {
    if frame_at(frames, id) < frames.len() {
        frames
    } else {
        frames.push((id, empty_frame()))
    }
}

/// How an ended frame is recorded.
pub open spec fn outcome_json(outcome: Outcome) -> JsonModel {
    match outcome {
        Outcome::Succeeded => object_of(seq![("type"@, JsonModel::Str("ok"@))]),
        Outcome::Failed { error } => object_of(
            seq![("type"@, JsonModel::Str("failed"@)), ("error"@, JsonModel::Str(error@))],
        ),
    }
}

/// The frames once one more event was folded in. A frame is opened by a model
/// frame's start or by a model request; anything else about a frame that was
/// not opened so is left out.
pub open spec fn folded_event(frames: Seq<(Seq<char>, FrameModel)>, event: CoreEvent) -> Seq<
    (Seq<char>, FrameModel),
> {
    match event {
        CoreEvent::FrameStart { frame, detail } => if detail == FrameDetail::Model {
            touched(frames, frame@)
        } else {
            frames
        },
        CoreEvent::ModelRequest { frame, body } => {
            let opened = touched(frames, frame@);
            let at = frame_at(opened, frame@);
            opened.update(
                at,
                (opened[at].0, FrameModel { request: Some(body@), ..opened[at].1 }),
            )
        },
        CoreEvent::ModelEvent { frame, event } => {
            let at = frame_at(frames, frame@);
            if at < frames.len() {
                frames.update(
                    at,
                    (
                        frames[at].0,
                        FrameModel { events: frames[at].1.events.push(event@), ..frames[at].1 },
                    ),
                )
            } else {
                frames
            }
        },
        CoreEvent::ModelUsage { frame, usage } => {
            let at = frame_at(frames, frame@);
            if at < frames.len() {
                frames.update(
                    at,
                    (frames[at].0, FrameModel { usage: Some(usage), ..frames[at].1 }),
                )
            } else {
                frames
            }
        },
        CoreEvent::FrameStop { frame, outcome } => {
            let at = frame_at(frames, frame@);
            if at < frames.len() {
                frames.update(
                    at,
                    (
                        frames[at].0,
                        FrameModel { outcome: Some(outcome_json(outcome)), ..frames[at].1 },
                    ),
                )
            } else {
                frames
            }
        },
        CoreEvent::Other => frames,
    }
}

/// The model frames of a log, in the order they were first seen.
pub open spec fn model_frames(events: Seq<CoreEvent>) -> Seq<(Seq<char>, FrameModel)>
    decreases events.len(),
{
    if events.len() == 0 {
        Seq::empty()
    } else {
        folded_event(model_frames(events.drop_last()), events.last())
    }
}

proof fn lemma_frame_at(frames: Seq<(Seq<char>, FrameModel)>, id: Seq<char>, at: int)
    requires
        0 <= at <= frames.len(),
        forall|k: int| 0 <= k < at ==> (#[trigger] frames[k]).0 != id,
        at < frames.len() ==> frames[at].0 == id,
    ensures
        frame_at(frames, id) == at,
    decreases frames.len(),
{
    if frames.len() > 0 {
        let shorter = frames.drop_last();
        if at < frames.len() {
            if at < shorter.len() {
                assert(shorter[at] == frames[at]);
                lemma_frame_at(shorter, id, at);
            } else {
                lemma_frame_at(shorter, id, shorter.len() as int);
            }
        } else {
            assert(frames[frames.len() - 1].0 != id);
            lemma_frame_at(shorter, id, shorter.len() as int);
        }
    }
}

fn find_frame(frames: &Vec<(String, ModelFrame)>, id: &str) -> (r: usize)
    ensures
        r == frame_at(frame_models(frames@), id@),
        r <= frames@.len(),
{
    let ghost all = frame_models(frames@);
    let mut i: usize = 0;
    while i < frames.len()
        invariant
            i <= frames@.len(),
            all == frame_models(frames@),
            forall|k: int| 0 <= k < i ==> (#[trigger] all[k]).0 != id@,
        decreases frames@.len() - i,
    {
        if same(frames[i].0.as_str(), id) {
            proof {
                lemma_frame_at(all, id@, i as int);
            }
            return i;
        }
        i += 1;
    }
    proof {
        lemma_frame_at(all, id@, i as int);
    }
    i
}

/// Makes sure there is a frame for `id`, and says where.
fn touch(frames: &mut Vec<(String, ModelFrame)>, id: &str) -> (r: usize)
    ensures
        frame_models(final(frames)@) == touched(frame_models(old(frames)@), id@),
        r == frame_at(frame_models(final(frames)@), id@),
        r < final(frames)@.len(),
{
    let at: usize = find_frame(frames, id);
    if at >= frames.len() {
        let ghost before = frame_models(frames@);
        let empty = ModelFrame { request: None, events: Vec::new(), usage: None, outcome: None };
        assert(empty@ =~= empty_frame());
        frames.push((id.to_owned(), empty));
        assert(frame_models(frames@) =~= before.push((id@, empty_frame())));
        assert(frame_models(frames@).drop_last() =~= before);
    }
    at
}

/// How an ended frame is recorded.
fn outcome_value(outcome: &Outcome) -> (r: Json)
    ensures
        r@ == outcome_json(*outcome),
{
    match outcome {
        Outcome::Succeeded => {
            let members = vec![("type".to_owned(), Json::text("ok"))];
            assert(member_models(members@) =~= seq![("type"@, JsonModel::Str("ok"@))]);
            Json::object(members)
        },
        Outcome::Failed { error } => {
            let members = vec![
                ("type".to_owned(), Json::text("failed")),
                ("error".to_owned(), Json::text(error.as_str())),
            ];
            assert(member_models(members@) =~= seq![
                ("type"@, JsonModel::Str("failed"@)),
                ("error"@, JsonModel::Str(error@)),
            ]);
            Json::object(members)
        },
    }
}

fn fold_event(frames: &mut Vec<(String, ModelFrame)>, event: &CoreEvent)
    ensures
        frame_models(final(frames)@) == folded_event(frame_models(old(frames)@), *event),
{
    let ghost before = frame_models(frames@);
    match event {
        CoreEvent::FrameStart { frame, detail } => {
            if *detail == FrameDetail::Model {
                touch(frames, frame.as_str());
            }
        },
        CoreEvent::ModelRequest { frame, body } => {
            let at: usize = touch(frames, frame.as_str());
            let ghost opened = frame_models(frames@);
            let copy = body.clone();
            frames[at].1.request = Some(copy);
            assert(copy@ =~= body@);
            assert(frame_models(frames@) =~= opened.update(
                at as int,
                (
                    opened[at as int].0,
                    FrameModel { request: Some(body@), ..opened[at as int].1 },
                ),
            ));
        },
        CoreEvent::ModelEvent { frame, event } => {
            let at: usize = find_frame(frames, frame.as_str());
            if at < frames.len() {
                let ghost earlier = frames@[at as int].1.events@;
                frames[at].1.events.push(event.duplicate());
                assert(models(frames@[at as int].1.events@) =~= models(earlier).push(event@));
                assert(frame_models(frames@) =~= before.update(
                    at as int,
                    (
                        before[at as int].0,
                        FrameModel {
                            events: before[at as int].1.events.push(event@),
                            ..before[at as int].1
                        },
                    ),
                ));
            }
        },
        CoreEvent::ModelUsage { frame, usage } => {
            let at: usize = find_frame(frames, frame.as_str());
            if at < frames.len() {
                frames[at].1.usage = Some(*usage);
                assert(frame_models(frames@) =~= before.update(
                    at as int,
                    (
                        before[at as int].0,
                        FrameModel { usage: Some(*usage), ..before[at as int].1 },
                    ),
                ));
            }
        },
        CoreEvent::FrameStop { frame, outcome } => {
            let at: usize = find_frame(frames, frame.as_str());
            if at < frames.len() {
                frames[at].1.outcome = Some(outcome_value(outcome));
                assert(frame_models(frames@) =~= before.update(
                    at as int,
                    (
                        before[at as int].0,
                        FrameModel {
                            outcome: Some(outcome_json(*outcome)),
                            ..before[at as int].1
                        },
                    ),
                ));
            }
        },
        CoreEvent::Other => {},
    }
}

/// Groups the frame log's model events by frame, in first-seen order.
///
/// Only `model` frames become exchanges: a `tool` or `harness` frame has no
/// request bytes and nothing an exchange holds.
pub fn fold_model_frames(events: &Vec<CoreEvent>) -> (r: Vec<(String, ModelFrame)>)
    ensures
        frame_models(r@) == model_frames(events@),
{
    let mut frames: Vec<(String, ModelFrame)> = Vec::new();
    let mut i: usize = 0;
    assert(frame_models(frames@) =~= model_frames(events@.take(0)));
    while i < events.len()
        invariant
            i <= events@.len(),
            frame_models(frames@) == model_frames(events@.take(i as int)),
        decreases events@.len() - i,
    {
        fold_event(&mut frames, &events[i]);
        assert(events@.take(i + 1).drop_last() =~= events@.take(i as int));
        i += 1;
    }
    assert(events@.take(i as int) =~= events@);
    frames
}

/// Whether no frame occurs twice.
pub open spec fn distinct(frames: Seq<(Seq<char>, FrameModel)>) -> bool {
    forall|i: int, j: int|
        0 <= i < j < frames.len() ==> (#[trigger] frames[i]).0 != (#[trigger] frames[j]).0
}

proof fn lemma_frame_at_bounds(frames: Seq<(Seq<char>, FrameModel)>, id: Seq<char>)
    ensures
        0 <= frame_at(frames, id) <= frames.len(),
        frame_at(frames, id) < frames.len() ==> frames[frame_at(frames, id)].0 == id,
        forall|k: int| 0 <= k < frame_at(frames, id) ==> (#[trigger] frames[k]).0 != id,
    decreases frames.len(),
{
    if frames.len() > 0 {
        let shorter = frames.drop_last();
        lemma_frame_at_bounds(shorter, id);
        assert forall|k: int| 0 <= k < frame_at(frames, id) implies (#[trigger] frames[k]).0
            != id by {
            if k < shorter.len() {
                assert(shorter[k] == frames[k]);
            }
        }
    }
}

/// Every model frame of a log is grouped once.
pub proof fn frames_are_distinct(events: Seq<CoreEvent>)
    ensures
        distinct(model_frames(events)),
    decreases events.len(),
{
    if events.len() > 0 {
        let before = model_frames(events.drop_last());
        frames_are_distinct(events.drop_last());
        match events.last() {
            CoreEvent::FrameStart { frame, .. } => {
                lemma_frame_at_bounds(before, frame@);
            },
            CoreEvent::ModelRequest { frame, .. } => {
                lemma_frame_at_bounds(before, frame@);
                lemma_frame_at_bounds(touched(before, frame@), frame@);
                assert(distinct(touched(before, frame@)));
            },
            CoreEvent::ModelEvent { frame, .. } => {
                lemma_frame_at_bounds(before, frame@);
            },
            CoreEvent::ModelUsage { frame, .. } => {
                lemma_frame_at_bounds(before, frame@);
            },
            CoreEvent::FrameStop { frame, .. } => {
                lemma_frame_at_bounds(before, frame@);
            },
            CoreEvent::Other => {},
        }
    }
}

/// Whether an event opens a model frame.
pub open spec fn opens_model_frame(event: CoreEvent) -> bool {
    match event {
        CoreEvent::FrameStart { detail, .. } => detail == FrameDetail::Model,
        CoreEvent::ModelRequest { .. } => true,
        _ => false,
    }
}

/// A log in which no model frame is opened has no exchanges, whatever its tool
/// and harness frames recorded.
pub proof fn only_model_frames_become_exchanges(events: Seq<CoreEvent>)
    requires
        forall|i: int| 0 <= i < events.len() ==> !opens_model_frame(#[trigger] events[i]),
    ensures
        model_frames(events).len() == 0,
    decreases events.len(),
{
    if events.len() > 0 {
        assert(!opens_model_frame(events[events.len() - 1]));
        only_model_frames_become_exchanges(events.drop_last());
        assert(model_frames(events.drop_last()) =~= Seq::empty());
        if let CoreEvent::ModelEvent { frame, .. } = events.last() {
            lemma_frame_at_bounds(model_frames(events.drop_last()), frame@);
        }
        if let CoreEvent::ModelUsage { frame, .. } = events.last() {
            lemma_frame_at_bounds(model_frames(events.drop_last()), frame@);
        }
        if let CoreEvent::FrameStop { frame, .. } = events.last() {
            lemma_frame_at_bounds(model_frames(events.drop_last()), frame@);
        }
    }
}

/// Whether an event opens the frame called `id`: a model frame's start, or a
/// request to a model.
pub open spec fn opens(event: CoreEvent, id: Seq<char>) -> bool {
    match event {
        CoreEvent::FrameStart { frame, detail } => detail == FrameDetail::Model && frame@ == id,
        CoreEvent::ModelRequest { frame, .. } => frame@ == id,
        _ => false,
    }
}

/// Whether the frame called `id` is opened in a log at `at`, and not before.
pub open spec fn opened_at(log: Seq<CoreEvent>, id: Seq<char>, at: int) -> bool {
    &&& 0 <= at < log.len()
    &&& opens(log[at], id)
    &&& forall|j: int| 0 <= j < at ==> !opens(#[trigger] log[j], id)
}

/// Whether an event is one that the model gave in the frame called `id`.
pub open spec fn given_in(event: CoreEvent, id: Seq<char>) -> bool {
    event matches CoreEvent::ModelEvent { frame, .. } && frame@ == id
}

/// What the model gave by an event.
pub open spec fn given(event: CoreEvent) -> JsonModel {
    match event {
        CoreEvent::ModelEvent { event, .. } => event@,
        _ => JsonModel::Null,
    }
}

/// Everything that the model gave in the frame called `id`, in the log's order.
pub open spec fn all_given(log: Seq<CoreEvent>, id: Seq<char>) -> Seq<JsonModel> {
    log.filter(|event: CoreEvent| given_in(event, id)).map_values(
        |event: CoreEvent| given(event),
    )
}

/// Whether `value` is what the last of some events says that says anything, or
/// nothing where none does.
pub open spec fn last_said<T>(
    log: Seq<CoreEvent>,
    said: spec_fn(CoreEvent) -> Option<T>,
    value: Option<T>,
) -> bool {
    ||| value is None && forall|j: int| 0 <= j < log.len() ==> said(#[trigger] log[j]) is None
    ||| exists|k: int|
        0 <= k < log.len() && value is Some && said(#[trigger] log[k]) == value && forall|j: int|
            k < j < log.len() ==> said(#[trigger] log[j]) is None
}

/// The request that an event records for the frame called `id`.
pub open spec fn requested(id: Seq<char>) -> spec_fn(CoreEvent) -> Option<Seq<u8>> {
    |event: CoreEvent|
        match event {
            CoreEvent::ModelRequest { frame, body } => if frame@ == id {
                Some(body@)
            } else {
                None
            },
            _ => None,
        }
}

/// The usage that an event records for the frame called `id`.
pub open spec fn used(id: Seq<char>) -> spec_fn(CoreEvent) -> Option<Usage> {
    |event: CoreEvent|
        match event {
            CoreEvent::ModelUsage { frame, usage } => if frame@ == id {
                Some(usage)
            } else {
                None
            },
            _ => None,
        }
}

/// How an event says that the frame called `id` ended.
pub open spec fn stopped(id: Seq<char>) -> spec_fn(CoreEvent) -> Option<JsonModel> {
    |event: CoreEvent|
        match event {
            CoreEvent::FrameStop { frame, outcome } => if frame@ == id {
                Some(outcome_json(outcome))
            } else {
                None
            },
            _ => None,
        }
}

proof fn lemma_last_said_push<T>(
    log: Seq<CoreEvent>,
    said: spec_fn(CoreEvent) -> Option<T>,
    value: Option<T>,
    event: CoreEvent,
)
    requires
        last_said(log, said, value),
    ensures
        last_said(
            log.push(event),
            said,
            if said(event) is Some {
                said(event)
            } else {
                value
            },
        ),
{
    let now = log.push(event);
    if said(event) is Some {
        assert(said(now[log.len() as int]) == said(event));
    } else if value is None {
        assert forall|j: int| 0 <= j < now.len() implies said(#[trigger] now[j]) is None by {
            if j < log.len() {
                assert(said(log[j]) is None);
            }
        }
    } else {
        let k = choose|k: int|
            0 <= k < log.len() && value is Some && said(#[trigger] log[k]) == value && forall|
                j: int,
            |
                k < j < log.len() ==> said(#[trigger] log[j]) is None;
        assert(said(now[k]) == value);
        assert forall|j: int| k < j < now.len() implies said(#[trigger] now[j]) is None by {
            if j < log.len() {
                assert(said(log[j]) is None);
            }
        }
    }
}

proof fn lemma_all_given_push(log: Seq<CoreEvent>, id: Seq<char>, event: CoreEvent)
    ensures
        all_given(log.push(event), id) == if given_in(event, id) {
            all_given(log, id).push(given(event))
        } else {
            all_given(log, id)
        },
{
    reveal(Seq::filter);
    let pred = |e: CoreEvent| given_in(e, id);
    assert(log.push(event).drop_last() =~= log);
    let now = log.push(event).filter(pred);
    if given_in(event, id) {
        assert(now == log.filter(pred).push(event));
        assert(all_given(log.push(event), id) =~= all_given(log, id).push(given(event)));
    } else {
        assert(now == log.filter(pred));
    }
}

/// What a frame holds is what the log says of it, from the event that opened it
/// on: everything the model gave, in the log's order and none of it twice, and
/// the last request, usage and end that were recorded.
pub open spec fn tells(log: Seq<CoreEvent>, id: Seq<char>, frame: FrameModel) -> bool {
    forall|at: int| #[trigger]
        opened_at(log, id, at) ==> {
            &&& frame.events == all_given(log.skip(at + 1), id)
            &&& last_said(log.skip(at), requested(id), frame.request)
            &&& last_said(log.skip(at), used(id), frame.usage)
            &&& last_said(log.skip(at), stopped(id), frame.outcome)
        }
}

/// Where a frame was opened before a log grew, it was opened there after.
proof fn lemma_opened_earlier(log: Seq<CoreEvent>, id: Seq<char>, at: int)
    requires
        log.len() > 0,
        opened_at(log, id, at),
        at < log.len() - 1,
    ensures
        opened_at(log.drop_last(), id, at),
        log.skip(at + 1) == log.drop_last().skip(at + 1).push(log.last()),
        log.skip(at) == log.drop_last().skip(at).push(log.last()),
{
    let before = log.drop_last();
    assert(before[at] == log[at]);
    assert forall|j: int| 0 <= j < at implies !opens(#[trigger] before[j], id) by {
        assert(!opens(log[j], id));
    }
    assert(log.skip(at + 1) =~= before.skip(at + 1).push(log.last()));
    assert(log.skip(at) =~= before.skip(at).push(log.last()));
}

/// Whether some event of a log opens the frame called `id`.
pub open spec fn ever_opened(log: Seq<CoreEvent>, id: Seq<char>) -> bool {
    exists|j: int| 0 <= j < log.len() && opens(#[trigger] log[j], id)
}

proof fn lemma_ever_opened(log: Seq<CoreEvent>, id: Seq<char>)
    requires
        log.len() > 0,
    ensures
        ever_opened(log, id) == (ever_opened(log.drop_last(), id) || opens(log.last(), id)),
{
    let before = log.drop_last();
    if ever_opened(before, id) {
        let j = choose|j: int| 0 <= j < before.len() && opens(#[trigger] before[j], id);
        assert(opens(log[j], id));
    }
    if opens(log.last(), id) {
        assert(opens(log[log.len() - 1], id));
    }
    if ever_opened(log, id) {
        let j = choose|j: int| 0 <= j < log.len() && opens(#[trigger] log[j], id);
        if j < before.len() {
            assert(opens(before[j], id));
        }
    }
}

/// One more event leaves every other frame as it was, where it was, and adds
/// one at the end just where it opens one that was not open.
proof fn lemma_fold_step(frames: Seq<(Seq<char>, FrameModel)>, event: CoreEvent)
    requires
        distinct(frames),
    ensures
        ({
            let now = folded_event(frames, event);
            &&& frames.len() <= now.len() <= frames.len() + 1
            &&& forall|i: int| 0 <= i < frames.len() ==> (#[trigger] now[i]).0 == frames[i].0
            &&& now.len() > frames.len() ==> opens(event, now[frames.len() as int].0)
                && forall|i: int|
                0 <= i < frames.len() ==> (#[trigger] frames[i]).0 != now[frames.len() as int].0
            &&& now.len() == frames.len() ==> forall|id: Seq<char>| #[trigger]
                opens(event, id) ==> exists|i: int|
                    0 <= i < frames.len() && (#[trigger] frames[i]).0 == id
            &&& forall|i: int|
                0 <= i < now.len() ==> {
                    let id = (#[trigger] now[i]).0;
                    let was = if i < frames.len() {
                        frames[i].1
                    } else {
                        empty_frame()
                    };
                    &&& now[i].1.events == if given_in(event, id) && i < frames.len() {
                        was.events.push(given(event))
                    } else {
                        was.events
                    }
                    &&& now[i].1.request == if requested(id)(event) is Some {
                        requested(id)(event)
                    } else {
                        was.request
                    }
                    &&& now[i].1.usage == if used(id)(event) is Some {
                        used(id)(event)
                    } else {
                        was.usage
                    }
                    &&& now[i].1.outcome == if stopped(id)(event) is Some {
                        stopped(id)(event)
                    } else {
                        was.outcome
                    }
                }
        }),
{
    match event {
        CoreEvent::FrameStart { frame, .. } => {
            lemma_frame_at_bounds(frames, frame@);
        },
        CoreEvent::ModelRequest { frame, .. } => {
            lemma_frame_at_bounds(frames, frame@);
            lemma_frame_at_bounds(touched(frames, frame@), frame@);
        },
        CoreEvent::ModelEvent { frame, .. } => {
            lemma_frame_at_bounds(frames, frame@);
        },
        CoreEvent::ModelUsage { frame, .. } => {
            lemma_frame_at_bounds(frames, frame@);
        },
        CoreEvent::FrameStop { frame, .. } => {
            lemma_frame_at_bounds(frames, frame@);
        },
        CoreEvent::Other => {},
    }
}

/// A log has a frame for every id that is opened in it and for no other, and
/// each tells what the log says of it.
pub proof fn a_frame_tells_its_log(log: Seq<CoreEvent>)
    ensures
        forall|id: Seq<char>| #[trigger]
            ever_opened(log, id) <==> exists|i: int|
                0 <= i < model_frames(log).len() && (#[trigger] model_frames(log)[i]).0 == id,
        forall|i: int|
            0 <= i < model_frames(log).len() ==> tells(
                log,
                (#[trigger] model_frames(log)[i]).0,
                model_frames(log)[i].1,
            ),
    decreases log.len(),
{
    let frames = model_frames(log);
    if log.len() == 0 {
        assert forall|id: Seq<char>| !#[trigger] ever_opened(log, id) by {}
    } else {
        let before = log.drop_last();
        let last = log.last();
        let earlier = model_frames(before);
        a_frame_tells_its_log(before);
        frames_are_distinct(before);
        frames_are_distinct(log);
        lemma_fold_step(earlier, last);
        assert forall|id: Seq<char>| #[trigger] ever_opened(log, id) <==> exists|i: int|
            0 <= i < frames.len() && (#[trigger] frames[i]).0 == id by {
            lemma_ever_opened(log, id);
            if ever_opened(before, id) {
                let i = choose|i: int| 0 <= i < earlier.len() && (#[trigger] earlier[i]).0 == id;
                assert(frames[i].0 == id);
            } else if opens(last, id) {
                if frames.len() == earlier.len() {
                    let i = choose|i: int|
                        0 <= i < earlier.len() && (#[trigger] earlier[i]).0 == id;
                    assert(ever_opened(before, id));
                } else {
                    lemma_opens_one(last, id, frames[earlier.len() as int].0);
                    assert(frames[earlier.len() as int].0 == id);
                }
            }
            if exists|i: int| 0 <= i < frames.len() && (#[trigger] frames[i]).0 == id {
                let i = choose|i: int| 0 <= i < frames.len() && (#[trigger] frames[i]).0 == id;
                if i < earlier.len() {
                    assert(earlier[i].0 == id);
                }
            }
        }
        assert forall|i: int| 0 <= i < frames.len() implies tells(
            log,
            (#[trigger] frames[i]).0,
            frames[i].1,
        ) by {
            let id = frames[i].0;
            assert forall|at: int| #[trigger] opened_at(log, id, at) implies {
                &&& frames[i].1.events == all_given(log.skip(at + 1), id)
                &&& last_said(log.skip(at), requested(id), frames[i].1.request)
                &&& last_said(log.skip(at), used(id), frames[i].1.usage)
                &&& last_said(log.skip(at), stopped(id), frames[i].1.outcome)
            } by {
                if i < earlier.len() {
                    assert(earlier[i].0 == id);
                    assert(ever_opened(before, id));
                    let j = choose|j: int|
                        0 <= j < before.len() && opens(#[trigger] before[j], id);
                    assert(opens(log[j], id));
                    assert(at <= j);
                    lemma_opened_earlier(log, id, at);
                    assert(tells(before, id, earlier[i].1));
                    lemma_all_given_push(before.skip(at + 1), id, last);
                    lemma_last_said_push(before.skip(at), requested(id), earlier[i].1.request, last);
                    lemma_last_said_push(before.skip(at), used(id), earlier[i].1.usage, last);
                    lemma_last_said_push(before.skip(at), stopped(id), earlier[i].1.outcome, last);
                } else {
                    assert(!ever_opened(before, id)) by {
                        if ever_opened(before, id) {
                            let k = choose|k: int|
                                0 <= k < earlier.len() && (#[trigger] earlier[k]).0 == id;
                            assert(earlier[k].0 != frames[i].0);
                        }
                    }
                    if at < before.len() {
                        assert(opens(before[at], id));
                    }
                    reveal(Seq::filter);
                    assert(log.skip(at + 1) =~= Seq::empty());
                    assert(all_given(log.skip(at + 1), id) =~= Seq::empty());
                    let none = Seq::<CoreEvent>::empty();
                    assert(log.skip(at) =~= none.push(last));
                    lemma_last_said_push(none, requested(id), None, last);
                    lemma_last_said_push(none, used(id), None, last);
                    lemma_last_said_push(none, stopped(id), None, last);
                }
            }
        }
    }
}

proof fn lemma_opens_one(event: CoreEvent, a: Seq<char>, b: Seq<char>)
    requires
        opens(event, a),
        opens(event, b),
    ensures
        a == b,
{
}

/// Frames stand in the order in which they were opened.
pub proof fn frames_stand_in_their_order(log: Seq<CoreEvent>, i: int, j: int, a: int, b: int)
    requires
        0 <= i < j < model_frames(log).len(),
        opened_at(log, model_frames(log)[i].0, a),
        opened_at(log, model_frames(log)[j].0, b),
    ensures
        a < b,
    decreases log.len(),
{
    let before = log.drop_last();
    let earlier = model_frames(before);
    let frames = model_frames(log);
    let (first, second) = (frames[i].0, frames[j].0);
    frames_are_distinct(before);
    frames_are_distinct(log);
    lemma_fold_step(earlier, log.last());
    a_frame_tells_its_log(before);
    assert(earlier[i].0 == first);
    assert(ever_opened(before, first));
    let k = choose|k: int| 0 <= k < before.len() && opens(#[trigger] before[k], first);
    assert(opens(log[k], first));
    lemma_opened_earlier(log, first, a);
    if j < earlier.len() {
        assert(earlier[j].0 == second);
        assert(ever_opened(before, second));
        let m = choose|m: int| 0 <= m < before.len() && opens(#[trigger] before[m], second);
        assert(opens(log[m], second));
        lemma_opened_earlier(log, second, b);
        frames_stand_in_their_order(before, i, j, a, b);
    } else if b < before.len() {
        assert(opens(before[b], second));
        assert(ever_opened(before, second));
        let m = choose|m: int| 0 <= m < earlier.len() && (#[trigger] earlier[m]).0 == second;
        assert(earlier[m].0 != frames[j].0);
    }
}

// ---------------------------------------------------------------------------
// Blobs, exchanges and the spine
// ---------------------------------------------------------------------------

/// The SHA-256 digest of some bytes, as `sha2::Sha256` computes it.
pub uninterp spec fn sha256(bytes: Seq<u8>) -> Seq<u8>;

/// Calls `sha2::Sha256::digest`, whose result [`sha256`] names: 32 bytes.
#[verifier::external_body]
fn digest_of(bytes: &[u8]) -> (r: Vec<u8>)
    ensures
        r@ == sha256(bytes@),
        r@.len() == 32,
{
    <sha2::Sha256 as sha2::Digest>::digest(bytes).to_vec()
}

/// A content-addressed row. A digest already present is already the same
/// bytes, so a conflict is a hit.
#[derive(Debug)]
pub struct NewBlob {
    pub digest: Vec<u8>,
    pub data: Vec<u8>,
    pub byte_length: i64,
    pub created_at: i64,
}

impl NewBlob {
    /// Whether this row keeps `bytes` under their own digest.
    pub open spec fn holds(&self, bytes: Seq<u8>, now: i64) -> bool {
        &&& self.digest@ == sha256(bytes)
        &&& self.data@ == bytes
        &&& self.byte_length == bytes.len() as i64
        &&& self.created_at == now
    }
}

/// The row that keeps some bytes.
pub fn put_blob(bytes: &[u8], now: i64) -> (r: NewBlob)
    ensures
        r.holds(bytes@, now),
{
    NewBlob {
        digest: digest_of(bytes),
        data: vstd::slice::slice_to_vec(bytes),
        byte_length: bytes.len() as i64,
        created_at: now,
    }
}

/// How a call's cost is recorded.
pub open spec fn usage_model(usage: Usage) -> JsonModel {
    object_of(
        seq![
            ("input_tokens"@, JsonModel::Int(usage.input_tokens as int)),
            ("output_tokens"@, JsonModel::Int(usage.output_tokens as int)),
            ("cache_read_tokens"@, JsonModel::Int(usage.cache_read_input_tokens as int)),
            ("cache_write_tokens"@, JsonModel::Int(usage.cache_creation_input_tokens as int)),
            ("reasoning_tokens"@, JsonModel::Int(usage.reasoning_tokens as int)),
        ],
    )
}

/// How a call's cost is recorded.
pub fn usage_json(usage: Usage) -> (r: Json)
    ensures
        r@ == usage_model(usage),
{
    let members = vec![
        ("input_tokens".to_owned(), Json::Int(usage.input_tokens as i128)),
        ("output_tokens".to_owned(), Json::Int(usage.output_tokens as i128)),
        ("cache_read_tokens".to_owned(), Json::Int(usage.cache_read_input_tokens as i128)),
        ("cache_write_tokens".to_owned(), Json::Int(usage.cache_creation_input_tokens as i128)),
        ("reasoning_tokens".to_owned(), Json::Int(usage.reasoning_tokens as i128)),
    ];
    assert(member_models(members@) =~= seq![
        ("input_tokens"@, JsonModel::Int(usage.input_tokens as int)),
        ("output_tokens"@, JsonModel::Int(usage.output_tokens as int)),
        ("cache_read_tokens"@, JsonModel::Int(usage.cache_read_input_tokens as int)),
        ("cache_write_tokens"@, JsonModel::Int(usage.cache_creation_input_tokens as int)),
        ("reasoning_tokens"@, JsonModel::Int(usage.reasoning_tokens as int)),
    ]);
    Json::object(members)
}

/// One recorded model call.
#[derive(Debug)]
pub struct NewExchange {
    pub id: u128,
    pub run_id: u128,
    pub request_blob_digest: Vec<u8>,
    pub provider_events_digest: Option<Vec<u8>>,
    pub canonical_blob_digest: Option<Vec<u8>>,
    pub usage: Option<Json>,
    pub outcome: Option<Json>,
    pub expected_cache_tokens: i64,
    pub started_at: i64,
    pub completed_at: Option<i64>,
}

/// An exchange, and the blobs that are stored ahead of it.
#[derive(Debug)]
pub struct Recorded {
    pub request: NewBlob,
    pub events: Option<NewBlob>,
    pub lineage: Option<NewBlob>,
    pub exchange: NewExchange,
}

/// The bytes of a lineage that a frame carries: only the committed one does.
pub open spec fn lineage_of(committed: bool, lineage: Option<Seq<u8>>) -> Option<Seq<u8>> {
    if committed {
        lineage
    } else {
        None
    }
}

/// Whether a stored blob, where there is one, keeps the bytes, where there are
/// some, and is the one a digest column names.
pub open spec fn stored(
    blob: Option<NewBlob>,
    digest: Option<Vec<u8>>,
    bytes: Option<Seq<u8>>,
    now: i64,
) -> bool {
    match bytes {
        Some(content) => blob is Some && blob->0.holds(content, now) && digest is Some
            && digest->0@ == sha256(content),
        None => blob is None && digest is None,
    }
}

impl Recorded {
    /// Whether this is the record of `frame`.
    pub open spec fn records(
        &self,
        run_id: u128,
        id: u128,
        frame: FrameModel,
        lineage: Option<Seq<u8>>,
        started_at: i64,
        now: i64,
    ) -> bool {
        let request = match frame.request {
            Some(body) => body,
            None => Seq::empty(),
        };
        &&& self.request.holds(request, now)
        &&& self.exchange.request_blob_digest@ == sha256(request)
        &&& stored(
            self.events,
            self.exchange.provider_events_digest,
            Some(crate::json::encoded(crate::json::built(JsonModel::List(frame.events)))),
            now,
        )
        &&& stored(self.lineage, self.exchange.canonical_blob_digest, lineage, now)
        &&& self.exchange.id == id
        &&& self.exchange.run_id == run_id
        &&& opt_json(self.exchange.usage) == match frame.usage {
            Some(usage) => Some(usage_model(usage)),
            None => None,
        }
        &&& opt_json(self.exchange.outcome) == frame.outcome
        &&& self.exchange.expected_cache_tokens == 0
        &&& self.exchange.started_at == started_at
        &&& self.exchange.completed_at == Some(now)
    }
}

/// Everything a run's frame log is stored as.
#[derive(Debug)]
pub struct History {
    pub exchanges: Vec<Recorded>,
    /// The exchange whose lineage the thread advances to.
    pub committed: Option<u128>,
}

/// Whether `committed` names `frame`.
pub open spec fn commits(committed: Option<String>, frame: Seq<char>) -> bool {
    opt(committed) == Some(frame)
}

/// Whether a stored name is `text`.
fn names(name: &Option<String>, text: &str) -> (r: bool)
    ensures
        r == commits(*name, text@),
{
    match name {
        Some(s) => same(s.as_str(), text),
        None => false,
    }
}

fn record_frame(
    run_id: u128,
    id: u128,
    frame: &ModelFrame,
    lineage: Option<&Vec<u8>>,
    started_at: i64,
    now: i64,
) -> (r: Recorded)
    ensures
        r.records(
            run_id,
            id,
            frame@,
            match lineage {
                Some(bytes) => Some(bytes@),
                None => None,
            },
            started_at,
            now,
        ),
{
    let request = match &frame.request {
        Some(body) => put_blob(body.as_slice(), now),
        None => {
            let none: Vec<u8> = Vec::new();
            assert(none@ =~= Seq::<u8>::empty());
            put_blob(none.as_slice(), now)
        },
    };
    let mut copies: Vec<Json> = Vec::new();
    let mut i: usize = 0;
    while i < frame.events.len()
        invariant
            i <= frame.events@.len(),
            copies@.len() == i,
            forall|k: int| 0 <= k < i ==> (#[trigger] copies@[k])@ == frame.events@[k]@,
        decreases frame.events@.len() - i,
    {
        copies.push(frame.events[i].duplicate());
        i += 1;
    }
    assert(models(copies@) =~= models(frame.events@));
    let events = put_blob(Json::list(copies).encode().as_slice(), now);
    let (lineage_blob, lineage_digest) = match lineage {
        Some(bytes) => {
            let blob = put_blob(bytes.as_slice(), now);
            let digest = blob.digest.clone();
            assert(digest@ =~= blob.digest@);
            (Some(blob), Some(digest))
        },
        None => (None, None),
    };
    let request_digest = request.digest.clone();
    let events_digest = events.digest.clone();
    assert(request_digest@ =~= request.digest@);
    assert(events_digest@ =~= events.digest@);
    let usage = match frame.usage {
        Some(usage) => Some(usage_json(usage)),
        None => None,
    };
    let outcome = match &frame.outcome {
        Some(outcome) => Some(outcome.duplicate()),
        None => None,
    };
    Recorded {
        request,
        events: Some(events),
        lineage: lineage_blob,
        exchange: NewExchange {
            id,
            run_id,
            request_blob_digest: request_digest,
            provider_events_digest: Some(events_digest),
            canonical_blob_digest: lineage_digest,
            usage,
            outcome,
            expected_cache_tokens: 0,
            started_at,
            completed_at: Some(now),
        },
    }
}

/// The exchange that a run commits: that of the frame it named, where the log
/// has such a frame.
pub open spec fn committed_exchange(
    frames: Seq<(Seq<char>, FrameModel)>,
    committed: Option<String>,
    ids: Seq<u128>,
) -> Option<u128> {
    match committed {
        Some(frame) => if frame_at(frames, frame@) < frames.len() {
            Some(ids[frame_at(frames, frame@)])
        } else {
            None
        },
        None => None,
    }
}

/// What a list of frames is stored as.
fn record_frames(
    run_id: u128,
    frames: &Vec<(String, ModelFrame)>,
    committed_frame: &Option<String>,
    lineage: &Option<Vec<u8>>,
    ids: &Vec<u128>,
    started_at: i64,
    now: i64,
) -> (r: History)
    requires
        distinct(frame_models(frames@)),
        ids@.len() >= frames@.len(),
    ensures
        r.exchanges@.len() == frames@.len(),
        forall|i: int|
            0 <= i < frames@.len() ==> (#[trigger] r.exchanges@[i]).records(
                run_id,
                ids@[i],
                frames@[i].1@,
                lineage_of(commits(*committed_frame, frames@[i].0@), opt_bytes(*lineage)),
                started_at,
                now,
            ),
        r.committed == committed_exchange(frame_models(frames@), *committed_frame, ids@),
{
    let ghost all = frame_models(frames@);
    let mut exchanges: Vec<Recorded> = Vec::new();
    let mut committed: Option<u128> = None;
    let mut i: usize = 0;
    while i < frames.len()
        invariant
            i <= frames@.len() <= ids@.len(),
            all == frame_models(frames@),
            distinct(all),
            exchanges@.len() == i,
            forall|k: int|
                0 <= k < i ==> (#[trigger] exchanges@[k]).records(
                    run_id,
                    ids@[k],
                    frames@[k].1@,
                    lineage_of(commits(*committed_frame, frames@[k].0@), opt_bytes(*lineage)),
                    started_at,
                    now,
                ),
            match committed {
                Some(id) => exists|k: int|
                    0 <= k < i && ids@[k] == id && commits(
                        *committed_frame,
                        (#[trigger] all[k]).0,
                    ),
                None => forall|k: int|
                    0 <= k < i ==> !commits(*committed_frame, (#[trigger] all[k]).0),
            },
        decreases frames@.len() - i,
    {
        let here = names(committed_frame, frames[i].0.as_str());
        let carried = match lineage {
            Some(bytes) => if here {
                Some(bytes)
            } else {
                None
            },
            None => None,
        };
        let recorded = record_frame(run_id, ids[i], &frames[i].1, carried, started_at, now);
        exchanges.push(recorded);
        assert(all[i as int].0 == frames@[i as int].0@);
        if here {
            committed = Some(ids[i]);
        }
        i += 1;
    }
    proof {
        if let Some(frame) = committed_frame {
            lemma_frame_at_bounds(all, frame@);
            if let Some(id) = committed {
                let k = choose|k: int|
                    0 <= k < i && ids@[k] == id && commits(*committed_frame, (#[trigger] all[k]).0);
                lemma_frame_at(all, frame@, k);
            } else if frame_at(all, frame@) < all.len() {
                assert(commits(*committed_frame, all[frame_at(all, frame@)].0));
            }
        }
    }
    History { exchanges, committed }
}

/// A log has no more model frames than events.
proof fn lemma_frames_are_few(events: Seq<CoreEvent>)
    ensures
        model_frames(events).len() <= events.len(),
    decreases events.len(),
{
    if events.len() > 0 {
        lemma_frames_are_few(events.drop_last());
        let before = model_frames(events.drop_last());
        match events.last() {
            CoreEvent::ModelRequest { frame, .. } => {
                lemma_frame_at_bounds(before, frame@);
                lemma_frame_at_bounds(touched(before, frame@), frame@);
            },
            CoreEvent::ModelEvent { frame, .. } => lemma_frame_at_bounds(before, frame@),
            CoreEvent::ModelUsage { frame, .. } => lemma_frame_at_bounds(before, frame@),
            CoreEvent::FrameStop { frame, .. } => lemma_frame_at_bounds(before, frame@),
            _ => {},
        }
    }
}

/// What a run's frame log is stored as: one exchange per model frame, of which
/// the committed one carries the lineage. `ids` are the exchanges' ids.
///
/// No commit means no position to record: the harness streamed and discarded,
/// and the lineage did not move.
pub fn record_history(
    run_id: u128,
    events: &Vec<CoreEvent>,
    committed_frame: &Option<String>,
    lineage: &Option<Vec<u8>>,
    ids: &Vec<u128>,
    started_at: i64,
    now: i64,
) -> (r: History)
    requires
        ids@.len() >= events@.len(),
    ensures
        r.exchanges@.len() == model_frames(events@).len(),
        forall|i: int|
            0 <= i < r.exchanges@.len() ==> (#[trigger] r.exchanges@[i]).records(
                run_id,
                ids@[i],
                model_frames(events@)[i].1,
                lineage_of(
                    commits(*committed_frame, model_frames(events@)[i].0),
                    opt_bytes(*lineage),
                ),
                started_at,
                now,
            ),
        r.committed == committed_exchange(model_frames(events@), *committed_frame, ids@),
{
    let frames = fold_model_frames(events);
    proof {
        frames_are_distinct(events@);
        lemma_frames_are_few(events@);
        assert(frame_models(frames@).len() == frames@.len());
        assert forall|i: int| 0 <= i < frames@.len() implies model_frames(events@)[i] == (
            (#[trigger] frames@[i]).0@,
            frames@[i].1@,
        ) by {
            assert(frame_models(frames@)[i] == (frames@[i].0@, frames@[i].1@));
        }
    }
    record_frames(run_id, &frames, committed_frame, lineage, ids, started_at, now)
}

/// A position in a thread's lineage.
#[derive(Debug, Clone, Copy, PartialEq, Eq, Structural)]
pub struct NewSpine {
    pub thread_id: u128,
    pub seq: i64,
    pub exchange_id: u128,
    pub explicit_commit: bool,
    pub created_at: i64,
}

/// The position an advanced allocator handed out: the one just behind it.
pub fn spine_position(
    thread_id: u128,
    next_seq: i32,
    exchange_id: u128,
    explicit_commit: bool,
    now: i64,
) -> (r: NewSpine)
    requires
        next_seq > i32::MIN,
    ensures
        r == (NewSpine {
            thread_id,
            seq: (next_seq - 1) as i64,
            exchange_id,
            explicit_commit,
            created_at: now,
        }),
{
    NewSpine { thread_id, seq: (next_seq - 1) as i64, exchange_id, explicit_commit, created_at: now }
}

/// The position that the exchange a run committed takes: the harness asked for
/// it.
pub fn committed_position(thread_id: u128, next_seq: i32, exchange_id: u128, now: i64) -> (r:
    NewSpine)
    requires
        next_seq > i32::MIN,
    ensures
        r == (NewSpine {
            thread_id,
            seq: (next_seq - 1) as i64,
            exchange_id,
            explicit_commit: true,
            created_at: now,
        }),
{
    spine_position(thread_id, next_seq, exchange_id, true, now)
}

/// The position that recovered text takes: nobody asked for it.
pub fn recovered_position(thread_id: u128, next_seq: i32, exchange_id: u128, now: i64) -> (r:
    NewSpine)
    requires
        next_seq > i32::MIN,
    ensures
        r == (NewSpine {
            thread_id,
            seq: (next_seq - 1) as i64,
            exchange_id,
            explicit_commit: false,
            created_at: now,
        }),
{
    spine_position(thread_id, next_seq, exchange_id, false, now)
}

/// A run that names no frame advances no lineage. One that ends in error
/// names none, which leaves recovery as the only writer for it.
pub proof fn a_run_without_a_commit_leaves_the_lineage_alone(
    frames: Seq<(Seq<char>, FrameModel)>,
    ids: Seq<u128>,
    lineage: Option<Seq<u8>>,
    frame: Seq<char>,
)
    ensures
        committed_exchange(frames, None, ids) is None,
        lineage_of(commits(None, frame), lineage) is None,
{
}

// ---------------------------------------------------------------------------
// Recovery
// ---------------------------------------------------------------------------

/// The assistant text of one transcript message.
pub open spec fn assistant_text(payload: JsonModel) -> Seq<Seq<char>> {
    if payload.str_at("role"@) == Some("assistant"@) {
        match payload.get("content"@) {
            Some(JsonModel::List(list)) => text_blocks(list),
            _ => Seq::empty(),
        }
    } else {
        Seq::empty()
    }
}

/// The assistant text of a run's transcript messages, in order.
pub open spec fn assistant_texts(payloads: Seq<JsonModel>) -> Seq<Seq<char>>
    decreases payloads.len(),
{
    if payloads.len() == 0 {
        Seq::empty()
    } else {
        assistant_texts(payloads.drop_last()) + assistant_text(payloads.last())
    }
}

proof fn lemma_joined_concat(a: Seq<Seq<char>>, b: Seq<Seq<char>>)
    ensures
        joined(a + b) == joined(a) + joined(b),
    decreases b.len(),
{
    if b.len() == 0 {
        assert(a + b =~= a);
        assert(joined(a) + joined(b) =~= joined(a));
    } else {
        assert((a + b).drop_last() =~= a + b.drop_last());
        assert((a + b).last() == b.last());
        lemma_joined_concat(a, b.drop_last());
        assert(joined(a) + (joined(b.drop_last()) + b.last()) =~= joined(a) + joined(
            b.drop_last(),
        ) + b.last());
    }
}

fn append_assistant_text(text: &mut String, payload: &Json)
    ensures
        final(text)@ == old(text)@ + joined(assistant_text(payload@)),
{
    let ghost start = text@;
    assert(start + Seq::<char>::empty() =~= start);
    let assistant = match payload.str_at("role") {
        Some(role) => same(role, "assistant"),
        None => false,
    };
    if assistant {
        if let Some(content) = payload.get("content") {
            if let Some(list) = content.as_list() {
                let ghost all = models(list@);
                let mut i: usize = 0;
                assert(text_blocks(all.take(0)) =~= Seq::empty());
                while i < list.len()
                    invariant
                        i <= list@.len(),
                        all == models(list@),
                        text@ == start + joined(text_blocks(all.take(i as int))),
                    decreases list@.len() - i,
                {
                    let ghost so_far = text_blocks(all.take(i as int));
                    assert(all.take(i + 1).drop_last() =~= all.take(i as int));
                    match text_of_block(&list[i]) {
                        Some(part) => {
                            text.append(part);
                            assert(so_far.push(part@).drop_last() =~= so_far);
                            assert(text@ =~= start + joined(so_far.push(part@)));
                        },
                        None => {},
                    }
                    i += 1;
                }
                assert(all.take(i as int) =~= all);
            }
        }
    }
}

/// What is kept of a run that ended before it could commit: the plain
/// assistant text of its transcript messages, as one assistant message, or
/// nothing where there is no such text.
///
/// Thinking and tool-call blocks are deliberately discarded: the former is not
/// reliable conversational context and the latter may hold incomplete JSON.
pub fn recover(payloads: &Vec<Json>) -> (r: Option<Message>)
    ensures
        match r {
            Some(message) => joined(assistant_texts(models(payloads@))).len() > 0 && message@ == text_message(
                Role::Assistant,
                joined(assistant_texts(models(payloads@))),
            ),
            None => joined(assistant_texts(models(payloads@))).len() == 0,
        },
{
    let ghost all = models(payloads@);
    let mut text = String::new();
    let mut i: usize = 0;
    assert(all.take(0) =~= Seq::empty());
    while i < payloads.len()
        invariant
            i <= payloads@.len(),
            all == models(payloads@),
            text@ == joined(assistant_texts(all.take(i as int))),
        decreases payloads@.len() - i,
    {
        append_assistant_text(&mut text, &payloads[i]);
        proof {
            assert(all.take(i + 1).drop_last() =~= all.take(i as int));
            lemma_joined_concat(assistant_texts(all.take(i as int)), assistant_text(all[i as int]));
        }
        i += 1;
    }
    assert(all.take(i as int) =~= all);
    if text.as_str().is_empty() {
        None
    } else {
        Some(Message::of_text(Role::Assistant, text))
    }
}

/// The exchange a recovered lineage is stored under.
pub fn recovered_exchange(run_id: u128, id: u128, lineage: &Vec<u8>, now: i64) -> (r: Recorded)
    ensures
        r.request.holds(Seq::empty(), now),
        r.exchange.request_blob_digest@ == sha256(Seq::empty()),
        r.events is None,
        r.exchange.provider_events_digest is None,
        stored(r.lineage, r.exchange.canonical_blob_digest, Some(lineage@), now),
        r.exchange.id == id,
        r.exchange.run_id == run_id,
        r.exchange.usage is None,
        opt_json(r.exchange.outcome) == Some(
            object_of(seq![("type"@, JsonModel::Str("recovered_text"@))]),
        ),
        r.exchange.expected_cache_tokens == 0,
        r.exchange.started_at == now,
        r.exchange.completed_at == Some(now),
{
    let none: Vec<u8> = Vec::new();
    assert(none@ =~= Seq::<u8>::empty());
    let request = put_blob(none.as_slice(), now);
    let kept = put_blob(lineage.as_slice(), now);
    let request_digest = request.digest.clone();
    let lineage_digest = kept.digest.clone();
    assert(request_digest@ =~= request.digest@);
    assert(lineage_digest@ =~= kept.digest@);
    let members = vec![("type".to_owned(), Json::text("recovered_text"))];
    assert(member_models(members@) =~= seq![("type"@, JsonModel::Str("recovered_text"@))]);
    Recorded {
        request,
        events: None,
        lineage: Some(kept),
        exchange: NewExchange {
            id,
            run_id,
            request_blob_digest: request_digest,
            provider_events_digest: None,
            canonical_blob_digest: Some(lineage_digest),
            usage: None,
            outcome: Some(Json::object(members)),
            expected_cache_tokens: 0,
            started_at: now,
            completed_at: Some(now),
        },
    }
}

/// The lineage a run starts from: its messages as they are stored, whatever
/// they hold besides text.
#[derive(Debug)]
pub struct Seed {
    pub messages: Vec<Json>,
}

/// The messages that a stored lineage holds: none where the document cannot be
/// read as one.
pub open spec fn stored_messages(document: Option<Seq<u8>>) -> Seq<JsonModel> {
    match document {
        Some(bytes) => match parsed(bytes) {
            Some(value) => match value.get("messages"@) {
                Some(JsonModel::List(list)) => list,
                _ => Seq::empty(),
            },
            None => Seq::empty(),
        },
        None => Seq::empty(),
    }
}

/// The lineage that a parsed document holds.
pub fn seed_in(value: &Json) -> (r: Option<Seed>)
    ensures
        match value@.get("messages"@) {
            Some(JsonModel::List(list)) => r matches Some(seed) && models(seed.messages@) == list,
            _ => r is None,
        },
{
    let list = match value.get("messages") {
        Some(found) => match found.as_list() {
            Some(list) => list,
            None => {
                return None;
            },
        },
        None => {
            return None;
        },
    };
    let mut messages: Vec<Json> = Vec::new();
    let mut i: usize = 0;
    while i < list.len()
        invariant
            i <= list@.len(),
            messages@.len() == i,
            forall|k: int| 0 <= k < i ==> (#[trigger] messages@[k])@ == list@[k]@,
        decreases list@.len() - i,
    {
        messages.push(list[i].duplicate());
        i += 1;
    }
    assert(models(messages@) =~= models(list@));
    Some(Seed { messages })
}

/// The lineage a run starts from: the one the thread's newest exchange stored.
/// A thread that has none, or whose lineage cannot be recovered, starts fresh:
/// that is a visible loss of context, where half a lineage is a silent one.
pub fn load_seed(document: &Option<Vec<u8>>) -> (r: Seed)
    ensures
        models(r.messages@) == stored_messages(opt_bytes(*document)),
{
    if let Some(bytes) = document {
        if let Some(value) = Json::parse(bytes.as_slice()) {
            if let Some(seed) = seed_in(&value) {
                return seed;
            }
        }
    }
    let messages: Vec<Json> = Vec::new();
    assert(models(messages@) =~= Seq::empty());
    Seed { messages }
}

/// The document a lineage is stored as.
pub open spec fn lineage_json(messages: Seq<JsonModel>) -> JsonModel {
    object_of(seq![("messages"@, JsonModel::List(messages))])
}

impl Seed {
    /// The bytes a lineage is stored as.
    pub fn encode(self) -> (r: Vec<u8>)
        ensures
            r@ == crate::json::encoded(crate::json::built(lineage_json(models(self.messages@)))),
    {
        let members = vec![("messages".to_owned(), Json::list(self.messages))];
        assert(member_models(members@) =~= seq![
            ("messages"@, JsonModel::List(models(self.messages@))),
        ]);
        Json::object(members).encode()
    }
}

/// A lineage document holds the messages it was made of.
pub proof fn a_lineage_holds_its_messages(messages: Seq<JsonModel>)
    ensures
        lineage_json(messages).get("messages"@) == Some(JsonModel::List(messages)),
{
    reveal_with_fuel(crate::json::members_map, 2);
    let members = seq![("messages"@, JsonModel::List(messages))];
    assert(members.drop_last() =~= Seq::empty());
}

/// The lineage that a run's assistant text is recovered into, or nothing where
/// there is no such text.
pub fn record_recovery_history(seed: Seed, payloads: &Vec<Json>) -> (r: Option<Seed>)
    ensures
        ({
            let text = joined(assistant_texts(models(payloads@)));
            match r {
                Some(extended) => text.len() > 0 && models(extended.messages@) == models(
                    seed.messages@,
                ).push(text_message(Role::Assistant, text).json()),
                None => text.len() == 0,
            }
        }),
{
    match recover(payloads) {
        Some(message) => {
            let mut messages = seed.messages;
            let ghost before = models(messages@);
            messages.push(message.to_json());
            assert(models(messages@) =~= before.push(message@.json()));
            Some(Seed { messages })
        },
        None => None,
    }
}

/// A call's cost is recorded count by count, each under its own name.
pub proof fn a_cost_is_recorded_count_by_count(usage: Usage)
    ensures
        ({
            let json = usage_model(usage);
            &&& json.get("input_tokens"@) == Some(JsonModel::Int(usage.input_tokens as int))
            &&& json.get("output_tokens"@) == Some(JsonModel::Int(usage.output_tokens as int))
            &&& json.get("cache_read_tokens"@) == Some(
                JsonModel::Int(usage.cache_read_input_tokens as int),
            )
            &&& json.get("cache_write_tokens"@) == Some(
                JsonModel::Int(usage.cache_creation_input_tokens as int),
            )
            &&& json.get("reasoning_tokens"@) == Some(JsonModel::Int(usage.reasoning_tokens as int))
        }),
{
    reveal_strlit("input_tokens");
    reveal_strlit("output_tokens");
    reveal_strlit("cache_read_tokens");
    reveal_strlit("cache_write_tokens");
    reveal_strlit("reasoning_tokens");
    assert("input_tokens"@.len() == 12 && "output_tokens"@.len() == 13
        && "cache_read_tokens"@.len() == 17 && "cache_write_tokens"@.len() == 18
        && "reasoning_tokens"@.len() == 16);
    let members = seq![
        ("input_tokens"@, JsonModel::Int(usage.input_tokens as int)),
        ("output_tokens"@, JsonModel::Int(usage.output_tokens as int)),
        ("cache_read_tokens"@, JsonModel::Int(usage.cache_read_input_tokens as int)),
        ("cache_write_tokens"@, JsonModel::Int(usage.cache_creation_input_tokens as int)),
        ("reasoning_tokens"@, JsonModel::Int(usage.reasoning_tokens as int)),
    ];
    crate::json::an_object_holds_its_members(members, 0);
    crate::json::an_object_holds_its_members(members, 1);
    crate::json::an_object_holds_its_members(members, 2);
    crate::json::an_object_holds_its_members(members, 3);
    crate::json::an_object_holds_its_members(members, 4);
}

/// A frame's end is recorded as what it was: well, or with what went wrong.
pub proof fn an_end_is_recorded_as_it_was(error: String)
    ensures
        outcome_json(Outcome::Succeeded).get("type"@) == Some(JsonModel::Str("ok"@)),
        outcome_json(Outcome::Succeeded).get("error"@) is None,
        outcome_json(Outcome::Failed { error }).get("type"@) == Some(JsonModel::Str("failed"@)),
        outcome_json(Outcome::Failed { error }).get("error"@) == Some(JsonModel::Str(error@)),
{
    reveal_strlit("type");
    reveal_strlit("error");
    assert("type"@.len() == 4 && "error"@.len() == 5);
    let succeeded = seq![("type"@, JsonModel::Str("ok"@))];
    let failed = seq![("type"@, JsonModel::Str("failed"@)), ("error"@, JsonModel::Str(error@))];
    crate::json::an_object_holds_its_members(succeeded, 0);
    crate::json::an_object_holds_nothing_else(succeeded, "error"@);
    crate::json::an_object_holds_its_members(failed, 0);
    crate::json::an_object_holds_its_members(failed, 1);
}

/// What is told of a frame is what it holds, frame by frame and in order.
pub proof fn a_frame_says_what_it_holds(frames: Seq<(String, ModelFrame)>, i: int)
    requires
        0 <= i < frames.len(),
    ensures
        frame_models(frames).len() == frames.len(),
        frame_models(frames)[i].0 == frames[i].0@,
        frame_models(frames)[i].1.request == opt_bytes(frames[i].1.request),
        frame_models(frames)[i].1.events == models(frames[i].1.events@),
        frame_models(frames)[i].1.usage == frames[i].1.usage,
        frame_models(frames)[i].1.outcome == opt_json(frames[i].1.outcome),
        opt_bytes(None) is None,
        forall|bytes: Vec<u8>| #[trigger] opt_bytes(Some(bytes)) == Some(bytes@),
{
}

/// A recorded call keeps what the frame held: the bytes that were sent, the
/// events that came, what it cost and how it ended, under the ids and at the
/// times it was given; and a blob keeps its bytes under their own digest.
pub proof fn a_record_keeps_what_its_frame_held(
    record: Recorded,
    run_id: u128,
    id: u128,
    frame: FrameModel,
    lineage: Option<Seq<u8>>,
    started_at: i64,
    now: i64,
)
    requires
        record.records(run_id, id, frame, lineage, started_at, now),
    ensures
        record.exchange.id == id,
        record.exchange.run_id == run_id,
        record.exchange.started_at == started_at,
        record.exchange.completed_at == Some(now),
        frame.request matches Some(body) ==> record.request.data@ == body,
        frame.request is None ==> record.request.data@.len() == 0,
        record.request.digest@ == sha256(record.request.data@),
        record.exchange.request_blob_digest@ == record.request.digest@,
        record.events matches Some(blob) && blob.data@ == crate::json::encoded(
            crate::json::built(JsonModel::List(frame.events)),
        ) && blob.digest@ == sha256(blob.data@) && (
        record.exchange.provider_events_digest matches Some(digest) && digest@ == blob.digest@),
        lineage is None <==> record.lineage is None,
        lineage is None <==> record.exchange.canonical_blob_digest is None,
        lineage matches Some(bytes) ==> (record.lineage matches Some(blob) && blob.data@ == bytes
            && blob.digest@ == sha256(bytes) && (
        record.exchange.canonical_blob_digest matches Some(digest) && digest@ == blob.digest@)),
        frame.usage is None <==> record.exchange.usage is None,
        frame.usage matches Some(usage) ==> opt_json(record.exchange.usage) == Some(
            usage_model(usage),
        ),
        opt_json(record.exchange.outcome) == frame.outcome,
        record.request.created_at == now,
        record.request.byte_length == record.request.data@.len() as i64,
{
}

/// A thread advances to the exchange of the frame that was committed, and only
/// that frame's exchange carries the lineage; a commit of a frame that was not
/// recorded advances nothing.
pub proof fn a_commit_advances_to_its_own_exchange(
    frames: Seq<(Seq<char>, FrameModel)>,
    committed: String,
    ids: Seq<u128>,
    at: int,
    lineage: Seq<u8>,
)
    ensures
        0 <= at < frames.len() && frames[at].0 == committed@ && (forall|k: int|
            0 <= k < at ==> (#[trigger] frames[k]).0 != committed@) ==> committed_exchange(
            frames,
            Some(committed),
            ids,
        ) == Some(ids[at]),
        (forall|k: int| 0 <= k < frames.len() ==> (#[trigger] frames[k]).0 != committed@)
            ==> committed_exchange(frames, Some(committed), ids) is None,
        forall|frame: Seq<char>|
            lineage_of(#[trigger] commits(Some(committed), frame), Some(lineage)) == if frame
                == committed@ {
                Some(lineage)
            } else {
                None
            },
{
    if 0 <= at < frames.len() && frames[at].0 == committed@ && (forall|k: int|
        0 <= k < at ==> (#[trigger] frames[k]).0 != committed@) {
        lemma_frame_at(frames, committed@, at);
    }
    if forall|k: int| 0 <= k < frames.len() ==> (#[trigger] frames[k]).0 != committed@ {
        lemma_frame_at(frames, committed@, frames.len() as int);
    }
}

/// What is recovered of a run is what the assistant said, message by message and
/// in order; what others said, and what is no text, is left out.
pub proof fn what_the_assistant_said_is_recovered(
    payloads: Seq<JsonModel>,
    payload: JsonModel,
    list: Seq<JsonModel>,
)
    requires
        payload.get("content"@) == Some(JsonModel::List(list)),
    ensures
        payload.get("role"@) == Some(JsonModel::Str("assistant"@)) ==> assistant_texts(
            payloads.push(payload),
        ) == assistant_texts(payloads) + text_blocks(list),
        payload.get("role"@) != Some(JsonModel::Str("assistant"@)) ==> assistant_texts(
            payloads.push(payload),
        ) == assistant_texts(payloads),
        assistant_texts(Seq::empty()).len() == 0,
{
    assert(payloads.push(payload).drop_last() =~= payloads);
    assert(assistant_texts(payloads) + Seq::empty() =~= assistant_texts(payloads));
}

/// A stored lineage holds the messages that its document lists, and a document
/// that cannot be read, or lists none, holds none.
pub proof fn a_stored_lineage_is_read_as_it_is(bytes: Seq<u8>, messages: Seq<JsonModel>)
    ensures
        parsed(bytes) == Some(lineage_json(messages)) ==> stored_messages(Some(bytes)) == messages,
        parsed(bytes) is None ==> stored_messages(Some(bytes)).len() == 0,
        stored_messages(None).len() == 0,
{
    a_lineage_holds_its_messages(messages);
}

} // verus!
