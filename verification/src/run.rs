//! Driving a run, and getting what it produced onto disk and out to a
//! subscriber.
//!
//! A run's events are numbered from the turn's first input message. Every
//! event is streamed at its number; only the durable ones are stored, so the
//! stored rows may have holes and the stream has none.
use vstd::prelude::*;
use crate::error::{AppError, ErrorModel};
use crate::json::{member_models, object_of, opt_json, Json, JsonModel};
use crate::message::{
    a_stored_message_reads_back, text_message, BlockModel, Message, MessageModel, Role,
};
use crate::text::{join4, opt, trim, trimmed};

pub mod client;
pub mod execute;
pub mod history;
pub mod registry;

verus! {

/// Terminal marker: the run finished and nothing more will arrive for it.
pub const KIND_RUN_END: &'static str = "run_end";

/// Terminal marker: the run ended in a failure the harness did not handle.
pub const KIND_RUN_ERROR: &'static str = "run_error";

/// Terminal marker: the run stopped because someone asked it to.
///
/// Its own marker rather than a `run_error` with a special message: a user who
/// pressed stop got what they asked for.
pub const KIND_RUN_INTERRUPTED: &'static str = "run_interrupted";

/// The user's own turn.
pub const KIND_INPUT: &'static str = "input";

/// The session said something, rather than the user or the model: an
/// environment was added, or one it has could not be reached this run.
pub const KIND_ENVIRONMENTS: &'static str = "environments";

/// A whole message, folded out of the deltas it was streamed in.
pub const KIND_MESSAGE: &'static str = "message";

/// The number of the turn's first input message. Harness output starts after
/// the last of them.
pub const INPUT_SEQ: i64 = 0;

/// The longest title a session may have, in characters.
pub const TITLE_LIMIT: usize = 200;

/// One event on the wire to a subscriber. `(run_id, seq)` together are the
/// cursor: numbers are unique per run, and a session's stream carries several
/// runs.
#[derive(Debug)]
pub struct StreamEvent {
    pub run_id: u128,
    pub seq: i64,
    pub kind: String,
    pub payload: Json,
}

/// What a [`StreamEvent`] says.
pub struct EventModel {
    pub run_id: u128,
    pub seq: int,
    pub kind: Seq<char>,
    pub payload: JsonModel,
}

impl View for StreamEvent {
    type V = EventModel;

    open spec fn view(&self) -> EventModel {
        EventModel {
            run_id: self.run_id,
            seq: self.seq as int,
            kind: self.kind@,
            payload: self.payload@,
        }
    }
}

/// An event to stream, and whether a transcript row is written for it first.
#[derive(Debug)]
pub struct Publication {
    pub event: StreamEvent,
    pub persist: bool,
}

/// What a [`Publication`] says.
pub struct PublicationModel {
    pub event: EventModel,
    pub persist: bool,
}

impl View for Publication {
    type V = PublicationModel;

    open spec fn view(&self) -> PublicationModel {
        PublicationModel { event: self.event@, persist: self.persist }
    }
}

/// The models of a list of publications.
pub open spec fn publications(list: Seq<Publication>) -> Seq<PublicationModel> {
    Seq::new(list.len(), |i: int| list[i]@)
}

/// The publication of one event at `seq`.
pub open spec fn published(
    run_id: u128,
    seq: int,
    kind: Seq<char>,
    payload: JsonModel,
    persist: bool,
) -> PublicationModel {
    PublicationModel { event: EventModel { run_id, seq, kind, payload }, persist }
}

/// Takes the next number for one event.
pub fn publish(run_id: u128, seq: &mut i64, kind: &str, payload: Json, persist: bool) -> (r:
    Publication)
    requires
        *old(seq) < i64::MAX,
    ensures
        r@ == published(run_id, *old(seq) as int, kind@, payload@, persist),
        *final(seq) == *old(seq) + 1,
{
    let at: i64 = *seq;
    *seq = at + 1;
    Publication {
        event: StreamEvent { run_id, seq: at, kind: kind.to_owned(), payload },
        persist,
    }
}

/// One of a turn's input messages, and what the transcript calls it.
#[derive(Debug)]
pub struct TurnMessage {
    pub kind: &'static str,
    pub message: Message,
}

/// What a [`TurnMessage`] says.
pub struct TurnModel {
    pub kind: Seq<char>,
    pub message: MessageModel,
}

impl View for TurnMessage {
    type V = TurnModel;

    open spec fn view(&self) -> TurnModel {
        TurnModel { kind: self.kind@, message: self.message@ }
    }
}

/// The models of a turn's messages.
pub open spec fn turns(input: Seq<TurnMessage>) -> Seq<TurnModel> {
    Seq::new(input.len(), |i: int| input[i]@)
}

/// The events that record a turn's input, numbered from [`INPUT_SEQ`].
pub open spec fn input_events(run_id: u128, input: Seq<TurnModel>) -> Seq<PublicationModel> {
    Seq::new(
        input.len(),
        |i: int| published(run_id, INPUT_SEQ + i, input[i].kind, input[i].message.json(), true),
    )
}

/// Numbers the turn's input messages from [`INPUT_SEQ`]. All of them are
/// stored before any is streamed.
pub fn record_input(run_id: u128, input: &Vec<TurnMessage>) -> (r: Vec<Publication>)
    requires
        input@.len() < i64::MAX,
    ensures
        publications(r@) == input_events(run_id, turns(input@)),
{
    let mut events: Vec<Publication> = Vec::new();
    let mut seq: i64 = INPUT_SEQ;
    let mut i: usize = 0;
    while i < input.len()
        invariant
            i <= input@.len() < i64::MAX,
            seq == INPUT_SEQ + i,
            events@.len() == i,
            forall|k: int|
                0 <= k < i ==> #[trigger] events@[k]@ == input_events(run_id, turns(input@))[k],
        decreases input@.len() - i,
    {
        let turn = &input[i];
        let event = publish(run_id, &mut seq, turn.kind, turn.message.to_json(), true);
        events.push(event);
        i += 1;
    }
    assert(publications(events@) =~= input_events(run_id, turns(input@)));
    events
}

/// A note in the transcript that the session wrote, in the shape a client
/// already reads.
pub open spec fn notice_json(text: Seq<char>) -> JsonModel {
    text_message(Role::User, text).json()
}

/// A transcript-only message from the session. Never sent to the model.
pub fn notice(text: String) -> (r: Json)
    ensures
        r@ == notice_json(text@),
{
    Message::of_text(Role::User, text).to_json()
}

/// What [`Execution::stream`] is told about an event by the compactor: a
/// message to write out ahead of it, whether the event itself is durable, and
/// the message that it completes.
#[derive(Debug)]
pub struct Folded {
    pub flushed: Option<Json>,
    pub persist_raw: bool,
    pub completed: Option<Json>,
}

/// What a [`Folded`] says.
pub struct FoldedModel {
    pub flushed: Option<JsonModel>,
    pub persist_raw: bool,
    pub completed: Option<JsonModel>,
}

impl View for Folded {
    type V = FoldedModel;

    open spec fn view(&self) -> FoldedModel {
        FoldedModel {
            flushed: opt_json(self.flushed),
            persist_raw: self.persist_raw,
            completed: opt_json(self.completed),
        }
    }
}

/// The kind an event carries in its own `type`.
pub open spec fn event_kind(event: JsonModel) -> Seq<char> {
    match event.str_at("type"@) {
        Some(kind) => kind,
        None => "unknown"@,
    }
}

/// The durable publication of a folded message, where there is one.
pub open spec fn message_at(run_id: u128, seq: int, message: Option<JsonModel>) -> Seq<
    PublicationModel,
> {
    match message {
        Some(payload) => seq![published(run_id, seq, KIND_MESSAGE@, payload, true)],
        None => Seq::empty(),
    }
}

/// What is published for one event that the harness yields: the message it
/// flushes, the event itself, the message it completes.
pub open spec fn streamed(
    run_id: u128,
    seq: int,
    event: JsonModel,
    folded: FoldedModel,
) -> Seq<PublicationModel> {
    let ahead = message_at(run_id, seq, folded.flushed);
    let raw = published(run_id, seq + ahead.len(), event_kind(event), event, folded.persist_raw);
    let behind = message_at(run_id, seq + ahead.len() + 1, folded.completed);
    ahead.push(raw) + behind
}

/// The note that an environment could not be reached.
pub open spec fn unreachable_note(label: Seq<char>, reason: Seq<char>) -> JsonModel {
    notice_json("'"@ + label + "' could not be reached for this run: "@ + reason)
}

/// The notes for every environment that could not be reached.
pub open spec fn unreachable_notes(
    run_id: u128,
    seq: int,
    unreachable: Seq<(String, String)>,
) -> Seq<PublicationModel> {
    Seq::new(
        unreachable.len(),
        |i: int|
            published(
                run_id,
                seq + i,
                KIND_ENVIRONMENTS@,
                unreachable_note(unreachable[i].0@, unreachable[i].1@),
                true,
            ),
    )
}

/// How the harness came back.
#[derive(Debug)]
pub enum Joined {
    /// The thread that ran it panicked.
    Panicked,
    /// It could not be run at all.
    Failed(String),
    /// It ran, and may have ended in an error of its own; `committed_frame`
    /// names the model frame whose lineage it committed.
    Finished { error: Option<String>, committed_frame: Option<String> },
}

/// What is left to do once the harness came back.
#[derive(Debug)]
pub struct Settled {
    /// The error the run ends with, after its frame log is kept.
    pub error: Option<String>,
    /// The frame whose lineage the thread advances to.
    pub committed_frame: Option<String>,
}

/// Where a run stands before its harness starts.
#[derive(Debug)]
pub enum Begin {
    /// The stop arrived first: nothing was committed, and the terminal lands
    /// at `seq`.
    Stopped { seq: i64 },
    Started(Execution),
}

/// A run that is streaming: the number its next event takes.
#[derive(Debug)]
pub struct Execution {
    pub run_id: u128,
    pub seq: i64,
}

impl Execution {
    /// A stop can arrive before the harness is started. Nothing has been sent
    /// to a provider yet, and the input numbers are already taken, so the
    /// terminal lands right after them.
    pub fn begin(run_id: u128, inputs: usize, interrupted: bool) -> (r: Begin)
        requires
            inputs <= i64::MAX,
        ensures
            r == if interrupted {
                Begin::Stopped { seq: (INPUT_SEQ + inputs) as i64 }
            } else {
                Begin::Started(Execution { run_id, seq: (INPUT_SEQ + inputs) as i64 })
            },
    {
        let seq: i64 = INPUT_SEQ + inputs as i64;
        if interrupted {
            Begin::Stopped { seq }
        } else {
            Begin::Started(Execution { run_id, seq })
        }
    }

    /// Says which of the session's environments this run cannot reach.
    pub fn report_unreachable(&mut self, unreachable: &Vec<(String, String)>) -> (r: Vec<
        Publication,
    >)
        requires
            old(self).seq + unreachable@.len() <= i64::MAX,
        ensures
            publications(r@) == unreachable_notes(
                old(self).run_id,
                old(self).seq as int,
                unreachable@,
            ),
            final(self).run_id == old(self).run_id,
            final(self).seq == old(self).seq + r@.len(),
    {
        let ghost start = self.seq;
        let ghost run_id = self.run_id;
        let mut notes: Vec<Publication> = Vec::new();
        let mut i: usize = 0;
        while i < unreachable.len()
            invariant
                i <= unreachable@.len(),
                start + unreachable@.len() <= i64::MAX,
                self.run_id == run_id,
                self.seq == start + i,
                notes@.len() == i,
                forall|k: int|
                    0 <= k < i ==> #[trigger] notes@[k]@ == unreachable_notes(
                        run_id,
                        start as int,
                        unreachable@,
                    )[k],
            decreases unreachable@.len() - i,
        {
            let text = join4(
                "'",
                unreachable[i].0.as_str(),
                "' could not be reached for this run: ",
                unreachable[i].1.as_str(),
            );
            let note = publish(self.run_id, &mut self.seq, KIND_ENVIRONMENTS, notice(text), true);
            notes.push(note);
            i += 1;
        }
        assert(publications(notes@) =~= unreachable_notes(run_id, start as int, unreachable@));
        notes
    }

    /// Publishes one event that the harness yielded.
    pub fn stream(&mut self, event: Json, folded: Folded) -> (r: Vec<Publication>)
        requires
            old(self).seq <= i64::MAX - 3,
        ensures
            publications(r@) == streamed(
                old(self).run_id,
                old(self).seq as int,
                event@,
                folded@,
            ),
            final(self).run_id == old(self).run_id,
            final(self).seq == old(self).seq + r@.len(),
    {
        let ghost expected = streamed(self.run_id, self.seq as int, event@, folded@);
        let mut out: Vec<Publication> = Vec::new();
        if let Some(message) = folded.flushed {
            out.push(publish(self.run_id, &mut self.seq, KIND_MESSAGE, message, true));
        }
        let kind = match event.str_at("type") {
            Some(kind) => kind.to_owned(),
            None => "unknown".to_owned(),
        };
        out.push(publish(self.run_id, &mut self.seq, kind.as_str(), event, folded.persist_raw));
        if let Some(message) = folded.completed {
            out.push(publish(self.run_id, &mut self.seq, KIND_MESSAGE, message, true));
        }
        assert(publications(out@) =~= expected);
        out
    }

    /// Publishes what the compactor still held when the harness went quiet.
    pub fn finish(&mut self, pending: Option<Json>) -> (r: Vec<Publication>)
        requires
            old(self).seq < i64::MAX,
        ensures
            publications(r@) == message_at(
                old(self).run_id,
                old(self).seq as int,
                opt_json(pending),
            ),
            final(self).run_id == old(self).run_id,
            final(self).seq == old(self).seq + r@.len(),
    {
        let ghost expected = message_at(self.run_id, self.seq as int, opt_json(pending));
        let mut out: Vec<Publication> = Vec::new();
        if let Some(message) = pending {
            out.push(publish(self.run_id, &mut self.seq, KIND_MESSAGE, message, true));
        }
        assert(publications(out@) =~= expected);
        out
    }

    /// What a run that came back leaves to record. The frame log of a run that
    /// ended in error is kept, but its lineage is not advanced: recovery is
    /// the sole writer for that path.
    pub fn settle(joined: Joined) -> (r: Result<Settled, AppError>)
        ensures
            match joined {
                Joined::Panicked => r matches Err(e) && e@ == ErrorModel::Internal,
                Joined::Failed(error) => r matches Err(e) && e@ == ErrorModel::Harness(error@),
                Joined::Finished { error, committed_frame } => r matches Ok(s) && opt(s.error)
                    == opt(error) && opt(s.committed_frame) == if error is Some {
                    None
                } else {
                    opt(committed_frame)
                },
            },
    {
        match joined {
            Joined::Panicked => Err(AppError::Internal),
            Joined::Failed(error) => Err(AppError::Harness(error)),
            Joined::Finished { error, committed_frame } => {
                let committed_frame = if error.is_some() {
                    None
                } else {
                    committed_frame
                };
                Ok(Settled { error, committed_frame })
            },
        }
    }

    /// The run's result, once its history is recorded: whether it committed,
    /// and the number after its last event. A history that could not be
    /// recorded is reported ahead of the run's own error.
    pub fn result(&self, error: Option<String>, recorded: Result<bool, AppError>) -> (r: Result<
        (bool, i64),
        AppError,
    >)
        ensures
            match recorded {
                Err(e) => r matches Err(f) && f@ == e@,
                Ok(committed) => match error {
                    Some(text) => r matches Err(f) && f@ == ErrorModel::Harness(text@),
                    None => r == Ok::<(bool, i64), AppError>((committed, self.seq)),
                },
            },
    {
        match recorded {
            Err(e) => Err(e),
            Ok(committed) => match error {
                Some(text) => Err(AppError::Harness(text)),
                None => Ok((committed, self.seq)),
            },
        }
    }
}

/// How a run ended, as its background task sees it.
#[derive(Debug)]
pub enum RunResult {
    Finished { committed: bool, seq: i64 },
    Failed { message: String },
}

/// The run's terminal marker: its kind and its payload.
pub open spec fn terminal(result: RunResult, interrupted: bool) -> (Seq<char>, JsonModel) {
    if interrupted {
        (KIND_RUN_INTERRUPTED@, JsonModel::Null)
    } else {
        match result {
            RunResult::Finished { .. } => (KIND_RUN_END@, JsonModel::Null),
            RunResult::Failed { message } => (
                KIND_RUN_ERROR@,
                object_of(seq![("message"@, JsonModel::Str(message@))]),
            ),
        }
    }
}

/// The number the terminal marker takes. A run that finished knows its own; a
/// run that failed falls back on the last number that was stored.
pub open spec fn terminal_seq(result: RunResult, last_stored: Option<i64>) -> int {
    match result {
        RunResult::Finished { seq, .. } => seq as int,
        RunResult::Failed { .. } => match last_stored {
            Some(last) => last + 1,
            None => INPUT_SEQ as int,
        },
    }
}

/// What is left to do for a run that is over.
#[derive(Debug)]
pub struct WindUp {
    /// Whether the assistant text it streamed is to be kept by
    /// [`history::recover`].
    pub recover: bool,
    pub terminal: Publication,
}

/// Ends a run. A stopped run almost always *also* ends in error, so the stop
/// is read first: it is the cause, and the error is its shadow.
pub fn wind_up(
    run_id: u128,
    result: RunResult,
    interrupted: bool,
    last_stored: Option<i64>,
) -> (r: WindUp)
    requires
        terminal_seq(result, last_stored) < i64::MAX,
    ensures
        r.recover == !(result matches RunResult::Finished { committed: true, .. }),
        r.terminal@ == published(
            run_id,
            terminal_seq(result, last_stored),
            terminal(result, interrupted).0,
            terminal(result, interrupted).1,
            true,
        ),
{
    let recover = match &result {
        RunResult::Finished { committed, .. } => !*committed,
        RunResult::Failed { .. } => true,
    };
    let mut seq: i64 = match &result {
        RunResult::Finished { seq, .. } => *seq,
        RunResult::Failed { .. } => match last_stored {
            Some(last) => last + 1,
            None => INPUT_SEQ,
        },
    };
    let (kind, payload) = if interrupted {
        (KIND_RUN_INTERRUPTED, Json::Null)
    } else {
        match result {
            RunResult::Finished { .. } => (KIND_RUN_END, Json::Null),
            RunResult::Failed { message } => {
                let members = vec![("message".to_owned(), Json::Str(message))];
                assert(member_models(members@) =~= seq![("message"@, JsonModel::Str(message@))]);
                (KIND_RUN_ERROR, Json::object(members))
            },
        }
    };
    let marker = publish(run_id, &mut seq, kind, payload, true);
    WindUp { recover, terminal: marker }
}

/// Why `session.set_title` refuses an input.
pub open spec fn title_refusal(input: JsonModel) -> Option<Seq<char>> {
    match input.as_str() {
        None => Some("session.set_title expects a string"@),
        Some(text) => if trimmed(text).len() == 0 {
            Some("title cannot be empty"@)
        } else if trimmed(text).len() > TITLE_LIMIT {
            Some("title must be 200 characters or fewer"@)
        } else {
            None
        },
    }
}

/// The title that `session.set_title` stores for an input.
pub fn title_from(input: &Json) -> (r: Result<String, String>)
    ensures
        match r {
            Ok(title) => title_refusal(input@) is None && title@ == trimmed(input@.as_str()->0),
            Err(reason) => title_refusal(input@) == Some(reason@),
        },
{
    match input.as_str() {
        None => Err("session.set_title expects a string".to_owned()),
        Some(text) => {
            let title = trim(text);
            let len: usize = title.unicode_len();
            if len == 0 {
                Err("title cannot be empty".to_owned())
            } else if len > TITLE_LIMIT {
                Err("title must be 200 characters or fewer".to_owned())
            } else {
                Ok(title.to_owned())
            }
        },
    }
}

/// What `session.get_title` answers.
pub fn title_value(title: Option<String>) -> (r: Json)
    ensures
        r@ == match title {
            Some(text) => JsonModel::Str(text@),
            None => JsonModel::Null,
        },
{
    match title {
        Some(text) => Json::Str(text),
        None => Json::Null,
    }
}

/// Whether the publications take consecutive numbers from `seq`.
pub open spec fn consecutive(list: Seq<PublicationModel>, seq: int) -> bool {
    forall|i: int| 0 <= i < list.len() ==> (#[trigger] list[i]).event.seq == seq + i
}

/// A stop is what a run is reported by, however it ended.
pub proof fn a_stop_outranks_an_error(result: RunResult)
    ensures
        terminal(result, true) == (KIND_RUN_INTERRUPTED@, JsonModel::Null),
{
}

/// Whether a publication carries an event: under its number, of its kind, with
/// nothing added to it and nothing taken away.
pub open spec fn carries(
    told: PublicationModel,
    run_id: u128,
    seq: int,
    kind: Seq<char>,
    payload: JsonModel,
    persist: bool,
) -> bool {
    &&& told.event.run_id == run_id
    &&& told.event.seq == seq
    &&& told.event.kind == kind
    &&& told.event.payload == payload
    &&& told.persist == persist
}

/// Every event that the harness yields is told once, as it is: its own
/// document, under its own type, stored just where it is durable. A message
/// that it flushes is told right before it and one that it completes right
/// after it, each stored; and nothing else is told.
pub proof fn a_yielded_event_is_told_as_it_is(
    run_id: u128,
    seq: int,
    event: JsonModel,
    folded: FoldedModel,
)
    ensures
        ({
            let told = streamed(run_id, seq, event, folded);
            let at: int = if folded.flushed is Some {
                1
            } else {
                0
            };
            let kind = match event.get("type"@) {
                Some(JsonModel::Str(text)) => text,
                _ => "unknown"@,
            };
            &&& told.len() == at + 1 + if folded.completed is Some {
                1int
            } else {
                0int
            }
            &&& carries(told[at], run_id, seq + at, kind, event, folded.persist_raw)
            &&& folded.flushed matches Some(message) ==> carries(
                told[0],
                run_id,
                seq,
                "message"@,
                message,
                true,
            )
            &&& folded.completed matches Some(message) ==> carries(
                told[at + 1],
                run_id,
                seq + at + 1,
                "message"@,
                message,
                true,
            )
        }),
{
}

/// What the compactor still held is told as it is, and nothing is told where it
/// held nothing.
pub proof fn a_pending_message_is_told_as_it_is(
    run_id: u128,
    seq: int,
    pending: Option<JsonModel>,
)
    ensures
        match pending {
            Some(message) => message_at(run_id, seq, pending).len() == 1 && carries(
                message_at(run_id, seq, pending)[0],
                run_id,
                seq,
                "message"@,
                message,
                true,
            ),
            None => message_at(run_id, seq, pending).len() == 0,
        },
{
}

/// What is said of a publication is what its fields hold.
pub proof fn a_publication_is_its_fields(publication: Publication)
    ensures
        carries(
            publication@,
            publication.event.run_id,
            publication.event.seq as int,
            publication.event.kind@,
            publication.event.payload@,
            publication.persist,
        ),
{
}

/// The input is told message by message, from number zero on, all of it stored,
/// and each message is read back from what was told of it.
pub proof fn an_input_message_is_read_back(run_id: u128, input: Seq<TurnModel>, i: int)
    requires
        0 <= i < input.len(),
        input[i].message.role != Role::System,
        input[i].message.plain(),
    ensures
        input_events(run_id, input).len() == input.len(),
        carries(
            input_events(run_id, input)[i],
            run_id,
            i,
            input[i].kind,
            input[i].message.json(),
            true,
        ),
        MessageModel::from_json(input_events(run_id, input)[i].event.payload) == input[i].message,
{
    a_stored_message_reads_back(input[i].message);
}

/// Each environment that could not be reached is told of once, in the session's
/// own notes: by its label, and with why.
pub proof fn an_unreachable_environment_is_told_of(
    run_id: u128,
    seq: int,
    unreachable: Seq<(String, String)>,
    i: int,
)
    requires
        0 <= i < unreachable.len(),
    ensures
        ({
            let told = unreachable_notes(run_id, seq, unreachable);
            let label = unreachable[i].0@;
            let reason = unreachable[i].1@;
            let said = MessageModel::from_json(told[i].event.payload);
            &&& told.len() == unreachable.len()
            &&& told[i].event.run_id == run_id
            &&& told[i].event.seq == seq + i
            &&& told[i].event.kind == "environments"@
            &&& told[i].persist
            &&& said.role == Role::User
            &&& said.content.len() == 1
            &&& said.content[0] matches BlockModel::Text(text) && {
                &&& ("'"@ + label + "'"@).is_prefix_of(text)
                &&& reason.is_suffix_of(text)
                &&& text.len() >= label.len() + reason.len() + 2
            }
        }),
{
    let label = unreachable[i].0@;
    let reason = unreachable[i].1@;
    let text = "'"@ + label + "' could not be reached for this run: "@ + reason;
    let message = text_message(Role::User, text);
    a_stored_message_reads_back(message);
    reveal_strlit("'");
    reveal_strlit("' could not be reached for this run: ");
    let head = "'"@ + label + "'"@;
    assert(text.subrange(0, head.len() as int) =~= head);
    assert(text.subrange(text.len() - reason.len(), text.len() as int) =~= reason);
}

/// How a run is reported: by the stop, where it was stopped; by its end, where
/// it came to one; else by the error, in its own words.
pub proof fn a_terminal_says_how_the_run_ended(result: RunResult, interrupted: bool)
    ensures
        interrupted ==> terminal(result, interrupted) == ("run_interrupted"@, JsonModel::Null),
        !interrupted && result is Finished ==> terminal(result, interrupted) == (
            "run_end"@,
            JsonModel::Null,
        ),
        !interrupted ==> (result matches RunResult::Failed { message } ==> terminal(
            result,
            interrupted,
        ).0 == "run_error"@ && terminal(result, interrupted).1.str_at("message"@) == Some(
            message@,
        )),
{
    if let RunResult::Failed { message } = result {
        reveal_with_fuel(crate::json::members_map, 2);
        let members = seq![("message"@, JsonModel::Str(message@))];
        assert(members.drop_last() =~= Seq::empty());
    }
}

/// A terminal marker lands behind everything: at the next number of a run that
/// knows it, else behind the last event that was stored.
pub proof fn a_terminal_lands_last(result: RunResult, last_stored: Option<i64>)
    ensures
        result matches RunResult::Finished { seq, .. } ==> terminal_seq(result, last_stored) == seq,
        result is Failed ==> (last_stored matches Some(last) ==> terminal_seq(result, last_stored)
            == last + 1),
        result is Failed && last_stored is None ==> terminal_seq(result, last_stored) == 0,
{
}

/// A title is taken just where it is a text of one to two hundred characters,
/// the white space around it aside.
pub proof fn a_title_is_taken_by_its_length(input: JsonModel)
    ensures
        title_refusal(input) is None <==> (input matches JsonModel::Str(text) && 1 <= trimmed(
            text,
        ).len() <= 200),
{
}

/// What is told of publications, of a turn and of what the compactor made of an
/// event is what they hold, one by one and in order.
pub proof fn a_list_is_told_one_by_one(
    list: Seq<Publication>,
    input: Seq<TurnMessage>,
    folded: Folded,
    i: int,
)
    ensures
        publications(list).len() == list.len(),
        turns(input).len() == input.len(),
        0 <= i < list.len() ==> publications(list)[i] == list[i]@,
        0 <= i < input.len() ==> turns(input)[i].kind == input[i].kind@
            && turns(input)[i].message == input[i].message@,
        folded@.flushed == opt_json(folded.flushed),
        folded@.completed == opt_json(folded.completed),
        folded@.persist_raw == folded.persist_raw,
{
}

/// An event is of the kind it names, and of no known kind where it names none.
pub proof fn an_event_is_of_the_kind_it_names(event: JsonModel, kind: Seq<char>)
    ensures
        event.get("type"@) == Some(JsonModel::Str(kind)) ==> event_kind(event) == kind,
        event.get("type"@) is None ==> event_kind(event) == "unknown"@,
{
}

} // verus!
