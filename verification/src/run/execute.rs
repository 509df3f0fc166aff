//! A run, from its request to its result.
//!
//! Reading the lineage, reaching the environments, driving the harness and
//! storing what came of it happen outside; each tells the run what happened,
//! and the run says what is published for it and what it waits for next.
use vstd::prelude::*;
use crate::error::{AppError, ErrorModel};
use crate::json::{opt_json, Json, JsonModel};
use crate::models::model_config::ModelConfig;
use crate::run::client::{build_client, client_refusal, url_text, ClientPlan};
use crate::run::{
    a_pending_message_is_told_as_it_is, a_yielded_event_is_told_as_it_is, consecutive,
    input_events, message_at, published, publications, streamed, unreachable_notes, Begin,
    Execution, Folded, FoldedModel, Joined, Publication, PublicationModel, Settled, TurnModel,
    INPUT_SEQ,
};
use crate::text::opt;

verus! {

/// What a run is waiting for.
#[derive(Debug)]
pub enum Phase {
    /// The lineage it goes on from.
    Seeding(Execution),
    /// The environments it can reach.
    Binding(Execution),
    /// The next event of its harness.
    Streaming(Execution),
    /// Its harness to come back.
    Joining(Execution),
    /// Its frame log to be stored, with the frame whose lineage the thread
    /// advances to.
    Recording { execution: Execution, error: Option<String>, committed_frame: Option<String> },
    /// Nothing: whether it committed, and the number after its last event.
    Ended(Result<(bool, i64), AppError>),
}

/// What a [`Phase`] says.
pub enum PhaseModel {
    Seeding { run_id: u128, seq: int },
    Binding { run_id: u128, seq: int },
    Streaming { run_id: u128, seq: int },
    Joining { run_id: u128, seq: int },
    Recording { run_id: u128, seq: int, error: Option<Seq<char>>, frame: Option<Seq<char>> },
    Ended(Result<(bool, int), ErrorModel>),
}

impl View for Phase {
    type V = PhaseModel;

    open spec fn view(&self) -> PhaseModel {
        match *self {
            Phase::Seeding(e) => PhaseModel::Seeding { run_id: e.run_id, seq: e.seq as int },
            Phase::Binding(e) => PhaseModel::Binding { run_id: e.run_id, seq: e.seq as int },
            Phase::Streaming(e) => PhaseModel::Streaming { run_id: e.run_id, seq: e.seq as int },
            Phase::Joining(e) => PhaseModel::Joining { run_id: e.run_id, seq: e.seq as int },
            Phase::Recording { execution, error, committed_frame } => PhaseModel::Recording {
                run_id: execution.run_id,
                seq: execution.seq as int,
                error: opt(error),
                frame: opt(committed_frame),
            },
            Phase::Ended(result) => PhaseModel::Ended(
                match result {
                    Ok((committed, seq)) => Ok((committed, seq as int)),
                    Err(error) => Err(error@),
                },
            ),
        }
    }
}

/// What happened outside a run.
#[derive(Debug)]
pub enum Happening {
    /// The lineage was read.
    Seeded,
    /// The environments were bound, but for these, each with why.
    Bound(Vec<(String, String)>),
    /// The harness yielded an event.
    Yielded { event: Json, folded: Folded },
    /// The harness has no more events; the compactor still held this message.
    Quiet(Option<Json>),
    /// The harness came back.
    Returned(Joined),
    /// The frame log was stored: whether the thread advanced.
    Recorded(Result<bool, AppError>),
    /// The work that was waited for, or storing what was published, failed.
    Failed(AppError),
}

/// What a [`Joined`] says.
pub enum JoinedModel {
    Panicked,
    Failed(Seq<char>),
    Finished { error: Option<Seq<char>>, frame: Option<Seq<char>> },
}

impl View for Joined {
    type V = JoinedModel;

    open spec fn view(&self) -> JoinedModel {
        match *self {
            Joined::Panicked => JoinedModel::Panicked,
            Joined::Failed(error) => JoinedModel::Failed(error@),
            Joined::Finished { error, committed_frame } => JoinedModel::Finished {
                error: opt(error),
                frame: opt(committed_frame),
            },
        }
    }
}

/// What a [`Happening`] says.
pub enum HappeningModel {
    Seeded,
    Bound(Seq<(String, String)>),
    Yielded { event: JsonModel, folded: FoldedModel },
    Quiet(Option<JsonModel>),
    Returned(JoinedModel),
    Recorded(Result<bool, ErrorModel>),
    Failed(ErrorModel),
}

impl View for Happening {
    type V = HappeningModel;

    open spec fn view(&self) -> HappeningModel {
        match *self {
            Happening::Seeded => HappeningModel::Seeded,
            Happening::Bound(unreachable) => HappeningModel::Bound(unreachable@),
            Happening::Yielded { event, folded } => HappeningModel::Yielded {
                event: event@,
                folded: folded@,
            },
            Happening::Quiet(pending) => HappeningModel::Quiet(opt_json(pending)),
            Happening::Returned(joined) => HappeningModel::Returned(joined@),
            Happening::Recorded(result) => HappeningModel::Recorded(
                match result {
                    Ok(committed) => Ok(committed),
                    Err(error) => Err(error@),
                },
            ),
            Happening::Failed(error) => HappeningModel::Failed(error@),
        }
    }
}

/// What is left to wait for once the harness came back. A panicked or failed
/// harness ends the run; one that ended in an error of its own leaves its
/// frame log, and no frame to advance to.
pub open spec fn returned(run_id: u128, seq: int, joined: JoinedModel) -> PhaseModel {
    match joined {
        JoinedModel::Panicked => PhaseModel::Ended(Err(ErrorModel::Internal)),
        JoinedModel::Failed(error) => PhaseModel::Ended(Err(ErrorModel::Harness(error))),
        JoinedModel::Finished { error, frame } => PhaseModel::Recording {
            run_id,
            seq,
            error,
            frame: if error is Some {
                None
            } else {
                frame
            },
        },
    }
}

/// The run's result once its frame log was stored, or was not.
pub open spec fn recorded(
    seq: int,
    error: Option<Seq<char>>,
    result: Result<bool, ErrorModel>,
) -> Result<(bool, int), ErrorModel> {
    match result {
        Err(failure) => Err(failure),
        Ok(committed) => match error {
            Some(text) => Err(ErrorModel::Harness(text)),
            None => Ok((committed, seq)),
        },
    }
}

/// What a run waits for after something happened, and what it publishes for
/// it. What it was not waiting for changes nothing; a failure ends it.
pub open spec fn next(phase: PhaseModel, happened: HappeningModel) -> (
    PhaseModel,
    Seq<PublicationModel>,
) {
    let nothing = Seq::<PublicationModel>::empty();
    match (phase, happened) {
        (PhaseModel::Ended(_), _) => (phase, nothing),
        (_, HappeningModel::Failed(error)) => (PhaseModel::Ended(Err(error)), nothing),
        (PhaseModel::Seeding { run_id, seq }, HappeningModel::Seeded) => (
            PhaseModel::Binding { run_id, seq },
            nothing,
        ),
        (PhaseModel::Binding { run_id, seq }, HappeningModel::Bound(unreachable)) => (
            PhaseModel::Streaming { run_id, seq: seq + unreachable.len() },
            unreachable_notes(run_id, seq, unreachable),
        ),
        (PhaseModel::Streaming { run_id, seq }, HappeningModel::Yielded { event, folded }) => {
            let told = streamed(run_id, seq, event, folded);
            (PhaseModel::Streaming { run_id, seq: seq + told.len() }, told)
        },
        (PhaseModel::Streaming { run_id, seq }, HappeningModel::Quiet(pending)) => {
            let told = message_at(run_id, seq, pending);
            (PhaseModel::Joining { run_id, seq: seq + told.len() }, told)
        },
        (PhaseModel::Joining { run_id, seq }, HappeningModel::Returned(joined)) => (
            returned(run_id, seq, joined),
            nothing,
        ),
        (
            PhaseModel::Recording { seq, error, .. },
            HappeningModel::Recorded(result),
        ) => (PhaseModel::Ended(recorded(seq, error, result)), nothing),
        _ => (phase, nothing),
    }
}

/// Opens a run: where it stands, and what its client is built from if it goes
/// on.
#[derive(Debug)]
pub struct Opened {
    pub phase: Phase,
    pub client: Option<ClientPlan>,
}

/// Where a run stands before anything was done for it. One that was stopped by
/// then has committed nothing, and its terminal lands after its input.
pub open spec fn opened(
    run_id: u128,
    inputs: nat,
    interrupted: bool,
    refused: Option<ErrorModel>,
) -> PhaseModel {
    let seq = INPUT_SEQ + inputs;
    if interrupted {
        PhaseModel::Ended(Ok((false, seq)))
    } else {
        match refused {
            Some(error) => PhaseModel::Ended(Err(error)),
            None => PhaseModel::Seeding { run_id, seq },
        }
    }
}

/// Opens a run on a user's model, after `inputs` input messages.
pub fn open(run_id: u128, inputs: usize, interrupted: bool, config: &ModelConfig) -> (r: Opened)
    requires
        inputs <= i64::MAX,
    ensures
        r.phase@ == opened(
            run_id,
            inputs as nat,
            interrupted,
            client_refusal(*config, url_text(config.base_url@)),
        ),
        r.client is Some <==> r.phase is Seeding,
        r.client matches Some(plan) ==> plan.reaches(*config),
{
    match Execution::begin(run_id, inputs, interrupted) {
        Begin::Stopped { seq } => Opened { phase: Phase::Ended(Ok((false, seq))), client: None },
        Begin::Started(execution) => match build_client(config) {
            Ok(plan) => Opened { phase: Phase::Seeding(execution), client: Some(plan) },
            Err(error) => Opened { phase: Phase::Ended(Err(error)), client: None },
        },
    }
}

/// Whether the numbers that an event would take can be counted.
pub open spec fn countable(phase: PhaseModel, happened: HappeningModel) -> bool {
    match (phase, happened) {
        (PhaseModel::Binding { seq, .. }, HappeningModel::Bound(unreachable)) => seq
            + unreachable.len() <= i64::MAX,
        (PhaseModel::Streaming { seq, .. }, HappeningModel::Yielded { .. }) => seq <= i64::MAX - 3,
        (PhaseModel::Streaming { seq, .. }, HappeningModel::Quiet(_)) => seq < i64::MAX,
        _ => true,
    }
}

/// Takes a run from one phase to the next. The publications are stored and
/// streamed in order, before anything else is done for the run.
pub fn execute(phase: Phase, happened: Happening) -> (r: (Phase, Vec<Publication>))
    requires
        countable(phase@, happened@),
    ensures
        r.0@ == next(phase@, happened@).0,
        publications(r.1@) == next(phase@, happened@).1,
{
    let nothing: Vec<Publication> = Vec::new();
    assert(publications(nothing@) =~= Seq::empty());
    match (phase, happened) {
        (Phase::Ended(result), _) => (Phase::Ended(result), nothing),
        (_, Happening::Failed(error)) => (Phase::Ended(Err(error)), nothing),
        (Phase::Seeding(execution), Happening::Seeded) => (Phase::Binding(execution), nothing),
        (Phase::Binding(mut execution), Happening::Bound(unreachable)) => {
            let told = execution.report_unreachable(&unreachable);
            assert(publications(told@).len() == unreachable@.len());
            (Phase::Streaming(execution), told)
        },
        (Phase::Streaming(mut execution), Happening::Yielded { event, folded }) => {
            let told = execution.stream(event, folded);
            assert(publications(told@).len() == told@.len());
            (Phase::Streaming(execution), told)
        },
        (Phase::Streaming(mut execution), Happening::Quiet(pending)) => {
            let told = execution.finish(pending);
            assert(publications(told@).len() == told@.len());
            (Phase::Joining(execution), told)
        },
        (Phase::Joining(execution), Happening::Returned(joined)) => match Execution::settle(
            joined,
        ) {
            Ok(Settled { error, committed_frame }) => (
                Phase::Recording { execution, error, committed_frame },
                nothing,
            ),
            Err(error) => (Phase::Ended(Err(error)), nothing),
        },
        (Phase::Recording { execution, error, .. }, Happening::Recorded(result)) => (
            Phase::Ended(execution.result(error, result)),
            nothing,
        ),
        (phase, _) => (phase, nothing),
    }
}

// ---------------------------------------------------------------------------
// A whole run
// ---------------------------------------------------------------------------

/// Where a run stands after everything that happened, and all it published.
pub open spec fn played(phase: PhaseModel, happened: Seq<HappeningModel>) -> (
    PhaseModel,
    Seq<PublicationModel>,
)
    decreases happened.len(),
{
    if happened.len() == 0 {
        (phase, Seq::empty())
    } else {
        let (before, told) = played(phase, happened.drop_last());
        let (after, more) = next(before, happened.last());
        (after, told + more)
    }
}

/// The run and the next number of a phase that still counts.
pub open spec fn counter(phase: PhaseModel) -> Option<(u128, int)> {
    match phase {
        PhaseModel::Seeding { run_id, seq } => Some((run_id, seq)),
        PhaseModel::Binding { run_id, seq } => Some((run_id, seq)),
        PhaseModel::Streaming { run_id, seq } => Some((run_id, seq)),
        PhaseModel::Joining { run_id, seq } => Some((run_id, seq)),
        PhaseModel::Recording { run_id, seq, .. } => Some((run_id, seq)),
        PhaseModel::Ended(_) => None,
    }
}

/// Whatever happens to a run, its events are numbered on from where it began,
/// without a gap or a repeat, and a run that ends well ends at the next number.
pub proof fn a_runs_numbers_are_consecutive(
    run_id: u128,
    seq: int,
    happened: Seq<HappeningModel>,
)
    ensures
        ({
            let (phase, told) = played(PhaseModel::Seeding { run_id, seq }, happened);
            &&& consecutive(told, seq)
            &&& counter(phase) matches Some((run, at)) ==> run == run_id && at == seq + told.len()
            &&& phase matches PhaseModel::Ended(Ok((_, at))) ==> at == seq + told.len()
        }),
    decreases happened.len(),
{
    let start = PhaseModel::Seeding { run_id, seq };
    if happened.len() > 0 {
        a_runs_numbers_are_consecutive(run_id, seq, happened.drop_last());
        let (before, told) = played(start, happened.drop_last());
        let (after, more) = next(before, happened.last());
        let all = played(start, happened).1;
        assert forall|i: int| 0 <= i < all.len() implies (#[trigger] all[i]).event.seq == seq
            + i by {
            if i < told.len() {
                assert(all[i] == told[i]);
            } else {
                assert(all[i] == more[i - told.len()]);
            }
        }
    }
}

/// A run's numbers start at [`INPUT_SEQ`] with its input and have no gap and no
/// repeat, and the terminal marker of a run that ends well comes right after
/// everything else.
pub proof fn a_run_is_numbered_without_gaps(
    run_id: u128,
    input: Seq<TurnModel>,
    happened: Seq<HappeningModel>,
    marker: (Seq<char>, JsonModel),
)
    ensures
        ({
            let said = input_events(run_id, input);
            let start = opened(run_id, input.len(), false, None);
            let (phase, told) = played(start, happened);
            &&& consecutive(said + told, INPUT_SEQ as int)
            &&& phase matches PhaseModel::Ended(Ok((_, seq))) ==> consecutive(
                (said + told).push(published(run_id, seq, marker.0, marker.1, true)),
                INPUT_SEQ as int,
            )
        }),
{
    let said = input_events(run_id, input);
    let seq = INPUT_SEQ + input.len();
    a_runs_numbers_are_consecutive(run_id, seq, happened);
    let told = played(PhaseModel::Seeding { run_id, seq }, happened).1;
    let all = said + told;
    assert forall|i: int| 0 <= i < all.len() implies (#[trigger] all[i]).event.seq == INPUT_SEQ
        + i by {
        if i < said.len() {
            assert(all[i] == said[i]);
        } else {
            assert(all[i] == told[i - said.len()]);
        }
    }
}

/// A run that is over stays over, with the result it ended with, and publishes
/// nothing more.
pub proof fn an_ended_run_stays_ended(
    result: Result<(bool, int), ErrorModel>,
    happened: Seq<HappeningModel>,
)
    ensures
        played(PhaseModel::Ended(result), happened) == (
            PhaseModel::Ended(result),
            Seq::<PublicationModel>::empty(),
        ),
    decreases happened.len(),
{
    if happened.len() > 0 {
        an_ended_run_stays_ended(result, happened.drop_last());
        assert(Seq::<PublicationModel>::empty() + Seq::<PublicationModel>::empty()
            =~= Seq::<PublicationModel>::empty());
    }
}

/// A run whose harness ended in an error names no frame for its thread to
/// advance to, and does not end well: its lineage is left to recovery.
pub proof fn an_error_advances_nothing(run_id: u128, seq: int, happened: Seq<HappeningModel>)
    ensures
        ({
            let phase = played(PhaseModel::Seeding { run_id, seq }, happened).0;
            phase matches PhaseModel::Recording { error: Some(text), frame, .. } ==> {
                &&& frame is None
                &&& forall|result: Result<bool, ErrorModel>|
                    (#[trigger] next(phase, HappeningModel::Recorded(result))).0
                        matches PhaseModel::Ended(Err(_))
            }
        }),
    decreases happened.len(),
{
    if happened.len() > 0 {
        an_error_advances_nothing(run_id, seq, happened.drop_last());
    }
}

/// While a run streams, each event its harness yields is told as it is, and so
/// is what the compactor still holds at the end; the run goes on behind it.
pub proof fn a_streaming_run_tells_every_event(
    run_id: u128,
    seq: int,
    event: JsonModel,
    folded: FoldedModel,
    pending: Option<JsonModel>,
)
    ensures
        ({
            let (phase, told) = next(
                PhaseModel::Streaming { run_id, seq },
                HappeningModel::Yielded { event, folded },
            );
            let at: int = if folded.flushed is Some {
                1
            } else {
                0
            };
            &&& phase == PhaseModel::Streaming { run_id, seq: seq + told.len() }
            &&& told.len() == at + 1 + if folded.completed is Some {
                1int
            } else {
                0int
            }
            &&& told[at].event.payload == event
            &&& told[at].event.seq == seq + at
            &&& told[at].event.run_id == run_id
            &&& told[at].persist == folded.persist_raw
            &&& folded.flushed matches Some(message) ==> told[0].event.payload == message
                && told[0].event.kind == "message"@ && told[0].persist
            &&& folded.completed matches Some(message) ==> told.last().event.payload == message
                && told.last().event.kind == "message"@ && told.last().persist
        }),
        ({
            let (phase, told) = next(
                PhaseModel::Streaming { run_id, seq },
                HappeningModel::Quiet(pending),
            );
            &&& phase == PhaseModel::Joining { run_id, seq: seq + told.len() }
            &&& match pending {
                Some(message) => told.len() == 1 && told[0].event.payload == message
                    && told[0].event.kind == "message"@ && told[0].event.seq == seq
                    && told[0].persist,
                None => told.len() == 0,
            }
        }),
{
    a_yielded_event_is_told_as_it_is(run_id, seq, event, folded);
    a_pending_message_is_told_as_it_is(run_id, seq, pending);
}

/// What becomes of a run whose harness came back: a panic is an internal
/// error; a harness that could not run, or that ended in an error, is reported
/// in its own words; and one that ended well ends the run at its next number,
/// committed just where its frame was. A frame log that could not be stored is
/// reported ahead of any of it.
pub proof fn a_result_is_what_came_back(
    run_id: u128,
    seq: int,
    error: Option<Seq<char>>,
    frame: Option<Seq<char>>,
    text: Seq<char>,
    committed: bool,
    failure: ErrorModel,
)
    ensures
        ({
            let joining = PhaseModel::Joining { run_id, seq };
            let came = |joined: JoinedModel| next(joining, HappeningModel::Returned(joined)).0;
            let back = came(JoinedModel::Finished { error, frame });
            let stored = next(back, HappeningModel::Recorded(Ok(committed))).0;
            let unstored = next(back, HappeningModel::Recorded(Err(failure))).0;
            &&& came(JoinedModel::Panicked) == PhaseModel::Ended(Err(ErrorModel::Internal))
            &&& came(JoinedModel::Failed(text)) == PhaseModel::Ended(
                Err(ErrorModel::Harness(text)),
            )
            &&& back matches PhaseModel::Recording { frame: kept, .. } && (error is None ==> kept
                == frame)
            &&& stored == match error {
                Some(words) => PhaseModel::Ended(Err(ErrorModel::Harness(words))),
                None => PhaseModel::Ended(Ok((committed, seq))),
            }
            &&& unstored == PhaseModel::Ended(Err(failure))
        }),
{
}

/// A run goes from its lineage to its environments to its harness, and any
/// failure on the way is the one it ends with.
pub proof fn a_run_takes_its_steps_in_order(
    run_id: u128,
    seq: int,
    unreachable: Seq<(String, String)>,
    failure: ErrorModel,
    phase: PhaseModel,
)
    ensures
        next(PhaseModel::Seeding { run_id, seq }, HappeningModel::Seeded) == (
            PhaseModel::Binding { run_id, seq },
            Seq::<PublicationModel>::empty(),
        ),
        ({
            let (bound, told) = next(
                PhaseModel::Binding { run_id, seq },
                HappeningModel::Bound(unreachable),
            );
            bound == PhaseModel::Streaming { run_id, seq: seq + unreachable.len() } && told.len()
                == unreachable.len()
        }),
        !(phase is Ended) ==> next(phase, HappeningModel::Failed(failure)) == (
            PhaseModel::Ended(Err(failure)),
            Seq::<PublicationModel>::empty(),
        ),
{
}

/// What a phase and a happening hold is what is told of them: the run, its next
/// number, and what came back.
pub proof fn a_phase_says_what_it_holds(
    execution: Execution,
    text: Option<String>,
    frame: Option<String>,
    error: AppError,
    committed: bool,
    seq: i64,
    event: Json,
    folded: Folded,
    pending: Option<Json>,
    joined: Joined,
    reason: String,
)
    ensures
        Phase::Seeding(execution)@ == (PhaseModel::Seeding {
            run_id: execution.run_id,
            seq: execution.seq as int,
        }),
        Phase::Binding(execution)@ == (PhaseModel::Binding {
            run_id: execution.run_id,
            seq: execution.seq as int,
        }),
        Phase::Streaming(execution)@ == (PhaseModel::Streaming {
            run_id: execution.run_id,
            seq: execution.seq as int,
        }),
        Phase::Joining(execution)@ == (PhaseModel::Joining {
            run_id: execution.run_id,
            seq: execution.seq as int,
        }),
        (Phase::Recording { execution, error: text, committed_frame: frame })@
            == (PhaseModel::Recording {
            run_id: execution.run_id,
            seq: execution.seq as int,
            error: opt(text),
            frame: opt(frame),
        }),
        Phase::Ended(Ok((committed, seq)))@ == PhaseModel::Ended(Ok((committed, seq as int))),
        Phase::Ended(Err(error))@ == PhaseModel::Ended(Err(error@)),
        (Happening::Yielded { event, folded })@ == (HappeningModel::Yielded {
            event: event@,
            folded: folded@,
        }),
        Happening::Quiet(pending)@ == HappeningModel::Quiet(opt_json(pending)),
        Happening::Returned(joined)@ == HappeningModel::Returned(joined@),
        Happening::Recorded(Ok(committed))@ == HappeningModel::Recorded(Ok(committed)),
        Happening::Recorded(Err(error))@ == HappeningModel::Recorded(Err(error@)),
        Happening::Failed(error)@ == HappeningModel::Failed(error@),
        Joined::Failed(reason)@ == JoinedModel::Failed(reason@),
        (Joined::Finished { error: text, committed_frame: frame })@ == (JoinedModel::Finished {
            error: opt(text),
            frame: opt(frame),
        }),
{
}

} // verus!
