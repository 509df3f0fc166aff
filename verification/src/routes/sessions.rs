//! Sessions: what they are called, what they run with, and what a message in
//! one sets off.
use vstd::prelude::*;
use crate::encoding::{hyphenated, uuid_text};
use crate::environments::{announcement, announcement_text};
use crate::error::{bad_request, refusal, AppError, ErrorModel};
use crate::json::{member_models, object_of, Json, JsonModel};
use crate::message::{text_message, Message, Role};
use crate::models::session::{Session, Thread, UpdateSession};
use crate::models::thinking::ThinkingSelection;
use crate::run::{turns, EventModel, StreamEvent, TurnMessage, TurnModel, KIND_ENVIRONMENTS, KIND_INPUT};
use crate::routes::runs::Transcript;
use crate::text::{
    change, copy_opt, decimal, decimal_of, join2, join3, opt, signed_decimal, signed_decimal_of, texts, trim, trim_change,
    trim_opt, trimmed, trimmed_change, trimmed_opt,
};

verus! {

pub const MAX_TITLE_CHARS: usize = 200;

/// A session as the client sees it.
#[derive(Debug)]
pub struct SessionResponse {
    pub id: u128,
    pub workspace_id: u128,
    pub title: Option<String>,
    pub created_at: i64,
    pub closed_at: Option<i64>,
    /// The model alias new messages go to.
    pub model: Option<String>,
    pub thinking_effort: Option<String>,
}

pub fn session_response(s: &Session) -> (r: SessionResponse)
    ensures
        r.id == s.id,
        r.workspace_id == s.workspace_id,
        opt(r.title) == opt(s.title),
        r.created_at == s.created_at,
        r.closed_at == s.closed_at,
        opt(r.model) == opt(s.model_alias),
        opt(r.thinking_effort) == opt(s.thinking_effort),
{
    SessionResponse {
        id: s.id,
        workspace_id: s.workspace_id,
        title: copy_opt(&s.title),
        created_at: s.created_at,
        closed_at: s.closed_at,
        model: copy_opt(&s.model_alias),
        thinking_effort: copy_opt(&s.thinking_effort),
    }
}

/// Why a title is refused.
pub open spec fn title_refusal(title: Seq<char>) -> Option<ErrorModel> {
    if title.len() == 0 {
        Some(ErrorModel::BadRequest("title cannot be empty"@))
    } else if title.len() > MAX_TITLE_CHARS {
        Some(ErrorModel::BadRequest("title must be 200 characters or fewer"@))
    } else {
        None
    }
}

pub fn validate_title(title: &str) -> (r: Result<(), AppError>)
    ensures
        refusal(r) == title_refusal(title@),
{
    let len: usize = title.unicode_len();
    if len == 0 {
        Err(bad_request("title cannot be empty"))
    } else if len > MAX_TITLE_CHARS {
        Err(bad_request("title must be 200 characters or fewer"))
    } else {
        Ok(())
    }
}

/// Why an optional title is refused.
pub open spec fn opt_title_refusal(title: Option<Seq<char>>) -> Option<ErrorModel> {
    match title {
        Some(text) => title_refusal(text),
        None => None,
    }
}

/// The title a new session gets.
pub fn new_title(title: &Option<String>) -> (r: Result<Option<String>, AppError>)
    ensures
        refusal(r) == opt_title_refusal(trimmed_opt(opt(*title))),
        r matches Ok(t) ==> opt(t) == trimmed_opt(opt(*title)),
{
    let trimmed_title = trim_opt(title);
    if let Some(text) = &trimmed_title {
        if let Err(error) = validate_title(text.as_str()) {
            return Err(error);
        }
    }
    Ok(trimmed_title)
}

/// A change to a session, as it is asked for.
#[derive(Debug)]
pub struct UpdateRequest {
    /// `Some(None)` clears the title; `None` leaves it unchanged.
    pub title: Option<Option<String>>,
    /// `true` closes; `false` reopens.
    pub closed: Option<bool>,
    /// The alias new messages go to.
    pub model: Option<Option<String>>,
    /// `off`, `on`, or an effort level.
    pub thinking_effort: Option<Option<String>>,
}

/// Why a change is refused before any row is read.
pub open spec fn update_refusal(input: UpdateRequest) -> Option<ErrorModel> {
    let title = match trimmed_change(change(input.title)) {
        Some(value) => opt_title_refusal(value),
        None => None,
    };
    if title is Some {
        title
    } else {
        match trimmed_change(change(input.thinking_effort)) {
            Some(Some(value)) => if ThinkingSelection::named(value) is None {
                Some(ErrorModel::BadRequest(ThinkingSelection::complaint(value)))
            } else {
                None
            },
            _ => None,
        }
    }
}

/// The change to store. A selection is refused rather than stored when it
/// cannot be run with: one that only fails when the next message is sent is
/// one the user will read as having been made.
pub fn update(input: &UpdateRequest, now: i64) -> (r: Result<UpdateSession, AppError>)
    ensures
        refusal(r) == update_refusal(*input),
        r matches Ok(patch) ==> {
            &&& change(patch.title) == trimmed_change(change(input.title))
            &&& patch.closed_at == match input.closed {
                Some(true) => Some(Some(now)),
                Some(false) => Some(None),
                None => None,
            }
            &&& change(patch.model_alias) == trimmed_change(change(input.model))
            &&& change(patch.thinking_effort) == trimmed_change(change(input.thinking_effort))
        },
{
    let title = trim_change(&input.title);
    if let Some(Some(text)) = &title {
        if let Err(error) = validate_title(text.as_str()) {
            return Err(error);
        }
    }
    let model_alias = trim_change(&input.model);
    let thinking_effort = trim_change(&input.thinking_effort);
    if let Some(Some(value)) = &thinking_effort {
        if let Err(complaint) = ThinkingSelection::parse(value.as_str()) {
            return Err(AppError::BadRequest(complaint));
        }
    }
    let closed_at = match input.closed {
        Some(closed) => if closed {
            Some(Some(now))
        } else {
            Some(None)
        },
        None => None,
    };
    Ok(UpdateSession { title, closed_at, model_alias, thinking_effort })
}

/// Checks that an alias names a model the caller owns. `found` is whether one
/// was looked up.
pub fn verify_model_alias(found: bool, alias: &str) -> (r: Result<(), AppError>)
    ensures
        refusal(r) == if found {
            None
        } else {
            Some(ErrorModel::BadRequest("no model named '"@ + alias@ + "'"@))
        },
{
    if found {
        Ok(())
    } else {
        Err(AppError::BadRequest(join3("no model named '", alias, "'")))
    }
}

// ---------------------------------------------------------------------------
// Threads
// ---------------------------------------------------------------------------

/// Where a fork leaves its parent, where a fork is asked for. Both halves are
/// given or neither is.
pub fn fork_request(parent_id: Option<u128>, forked_at_seq: Option<i32>) -> (r: Result<
    Option<(u128, i32)>,
    AppError,
>)
    ensures
        match (parent_id, forked_at_seq) {
            (Some(parent), Some(seq)) => r == Ok::<Option<(u128, i32)>, AppError>(
                Some((parent, seq)),
            ),
            (None, None) => r == Ok::<Option<(u128, i32)>, AppError>(None),
            _ => refusal(r) == Some(
                ErrorModel::BadRequest("parent_id and forked_at_seq must be given together"@),
            ),
        },
{
    match (parent_id, forked_at_seq) {
        (Some(parent), Some(seq)) => Ok(Some((parent, seq))),
        (None, None) => Ok(None),
        _ => Err(bad_request("parent_id and forked_at_seq must be given together")),
    }
}

/// Why a fork is refused.
pub open spec fn fork_refusal(parent: Option<Thread>, forked_at_seq: i32) -> Option<ErrorModel> {
    match parent {
        None => Some(ErrorModel::BadRequest("parent thread not found in this session"@)),
        Some(thread) => if thread.next_seq == 0 {
            Some(ErrorModel::BadRequest("parent thread has no history to fork from"@))
        } else if forked_at_seq < 0 || forked_at_seq >= thread.next_seq {
            Some(
                ErrorModel::BadRequest(
                    "forked_at_seq must be between 0 and "@ + signed_decimal(thread.next_seq - 1),
                ),
            )
        } else {
            None
        },
    }
}

/// Checks a fork against its parent. `forked_at_seq` is inclusive, so it must
/// name a position the parent has actually allocated.
pub fn create_thread(parent: Option<Thread>, forked_at_seq: i32) -> (r: Result<(), AppError>)
    requires
        parent matches Some(thread) ==> thread.next_seq > i32::MIN,
    ensures
        refusal(r) == fork_refusal(parent, forked_at_seq),
{
    match parent {
        None => Err(bad_request("parent thread not found in this session")),
        Some(thread) => {
            if thread.next_seq == 0 {
                Err(bad_request("parent thread has no history to fork from"))
            } else if forked_at_seq < 0 || forked_at_seq >= thread.next_seq {
                let last = signed_decimal_of((thread.next_seq - 1) as i64);
                Err(
                    AppError::BadRequest(
                        join2("forked_at_seq must be between 0 and ", last.as_str()),
                    ),
                )
            } else {
                Ok(())
            }
        },
    }
}

/// A fork that is accepted leaves its parent at a position the parent has.
pub proof fn a_fork_leaves_real_history(parent: Thread, forked_at_seq: i32)
    requires
        fork_refusal(Some(parent), forked_at_seq) is None,
    ensures
        0 <= forked_at_seq < parent.next_seq,
{
}

/// The threads that were looked up for a message: the one it names, where that
/// one is in the session, else the session's own.
#[derive(Debug)]
pub struct ThreadRows {
    pub named: Option<u128>,
    pub candidates: Vec<u128>,
}

/// The thread a message runs in: the one it names, or the session's only one.
pub open spec fn thread_for(requested: Option<u128>, rows: ThreadRows) -> Result<
    u128,
    ErrorModel,
> {
    if requested is Some {
        match rows.named {
            Some(id) => Ok(id),
            None => Err(ErrorModel::BadRequest("thread not found in this session"@)),
        }
    } else if rows.candidates@.len() == 0 {
        Err(ErrorModel::BadRequest("session has no thread to run in"@))
    } else if rows.candidates@.len() == 1 {
        Ok(rows.candidates@[0])
    } else {
        Err(ErrorModel::BadRequest("session has more than one thread; name one with thread_id"@))
    }
}

/// Picks the thread a message runs in. A thread id is not a capability;
/// membership in the session is. Guessing between several would silently split
/// a conversation across branches.
pub fn resolve_thread(requested: Option<u128>, rows: &ThreadRows) -> (r: Result<u128, AppError>)
    ensures
        match r {
            Ok(id) => thread_for(requested, *rows) == Ok::<u128, ErrorModel>(id),
            Err(error) => thread_for(requested, *rows) == Err::<u128, ErrorModel>(error@),
        },
{
    if requested.is_some() {
        return match rows.named {
            Some(id) => Ok(id),
            None => Err(bad_request("thread not found in this session")),
        };
    }
    if rows.candidates.len() == 0 {
        Err(bad_request("session has no thread to run in"))
    } else if rows.candidates.len() == 1 {
        Ok(rows.candidates[0])
    } else {
        Err(bad_request("session has more than one thread; name one with thread_id"))
    }
}

// ---------------------------------------------------------------------------
// Messages
// ---------------------------------------------------------------------------

/// Why what a message says is refused.
pub open spec fn content_refusal(content: Seq<char>) -> Option<ErrorModel> {
    if trimmed(content).len() == 0 {
        Some(ErrorModel::BadRequest("content cannot be empty"@))
    } else {
        None
    }
}

/// What a message says, once there is something in it.
pub fn message_content(content: &str) -> (r: Result<String, AppError>)
    ensures
        refusal(r) == content_refusal(content@),
        r matches Ok(text) ==> text@ == trimmed(content@),
{
    let text = trim(content);
    if text.is_empty() {
        Err(bad_request("content cannot be empty"))
    } else {
        Ok(text.to_owned())
    }
}

/// Why a session takes no message.
pub open spec fn closed_refusal(session: Session) -> Option<ErrorModel> {
    if session.closed_at is Some {
        Some(
            ErrorModel::BadRequest("session is closed; reopen it with PATCH { \"closed\": false }"@),
        )
    } else {
        None
    }
}

/// A closed session is the reversible half of delete; writing to one would
/// make "closed" mean nothing.
pub fn check_open(session: &Session) -> (r: Result<(), AppError>)
    ensures
        refusal(r) == closed_refusal(*session),
{
    if session.closed_at.is_some() {
        Err(bad_request("session is closed; reopen it with PATCH { \"closed\": false }"))
    } else {
        Ok(())
    }
}

/// What a message runs with, and what the session is left holding afterwards.
#[derive(Debug)]
pub struct MessagePlan {
    pub alias: String,
    pub thinking: Option<ThinkingSelection>,
    /// Only the fields this message actually named: a message that carried no
    /// selection must not clear the one the session has.
    pub remembered: UpdateSession,
}

/// The alias a message runs on: the one it names, else the session's.
pub open spec fn alias_for(session: Session, model: Option<Seq<char>>) -> Option<Seq<char>> {
    match trimmed_opt(model) {
        Some(alias) => if alias.len() > 0 {
            Some(alias)
        } else {
            opt(session.model_alias)
        },
        None => opt(session.model_alias),
    }
}

/// The selection a message runs with: the one it names, else the session's.
pub open spec fn thinking_for(session: Session, effort: Option<Seq<char>>) -> Option<
    ThinkingSelection,
> {
    match trimmed_opt(effort) {
        Some(value) => ThinkingSelection::named(value),
        None => match opt(session.thinking_effort) {
            Some(stored) => ThinkingSelection::named(stored),
            None => None,
        },
    }
}

/// Why a message cannot be run.
pub open spec fn message_refusal(
    session: Session,
    model: Option<Seq<char>>,
    effort: Option<Seq<char>>,
) -> Option<ErrorModel> {
    if alias_for(session, model) is None {
        Some(
            ErrorModel::BadRequest(
                "no model is selected for this session; send \"model\" with the message, or set one with PATCH"@,
            ),
        )
    } else {
        match trimmed_opt(effort) {
            Some(value) => if ThinkingSelection::named(value) is None {
                Some(ErrorModel::BadRequest(ThinkingSelection::complaint(value)))
            } else {
                None
            },
            None => None,
        }
    }
}

impl MessagePlan {
    /// Whether this is what a message that names `model` and `effort` runs
    /// with, and what it leaves behind.
    pub open spec fn answers(
        self,
        session: Session,
        model: Option<Seq<char>>,
        effort: Option<Seq<char>>,
    ) -> bool {
        &&& Some(self.alias@) == alias_for(session, model)
        &&& self.thinking == thinking_for(session, effort)
        &&& self.remembered.title is None
        &&& self.remembered.closed_at is None
        &&& change(self.remembered.model_alias) == if model is Some {
            Some(Some(self.alias@))
        } else {
            None
        }
        &&& change(self.remembered.thinking_effort) == if effort is Some {
            Some(
                match self.thinking {
                    Some(selection) => Some(selection.text()),
                    None => None,
                },
            )
        } else {
            None
        }
    }
}

/// What a message runs with. Both settings are the session's own rather than
/// this message's, so what is named here is remembered.
pub fn plan_message(
    session: &Session,
    model: &Option<String>,
    thinking_effort: &Option<String>,
) -> (r: Result<MessagePlan, AppError>)
    ensures
        refusal(r) == message_refusal(*session, opt(*model), opt(*thinking_effort)),
        r matches Ok(plan) ==> plan.answers(*session, opt(*model), opt(*thinking_effort)),
{
    let named = trim_opt(model);
    let alias = match named {
        Some(alias) => if !alias.as_str().is_empty() {
            Some(alias)
        } else {
            copy_opt(&session.model_alias)
        },
        None => copy_opt(&session.model_alias),
    };
    let alias = match alias {
        Some(alias) => alias,
        None => {
            return Err(
                bad_request(
                    "no model is selected for this session; send \"model\" with the message, or set one with PATCH",
                ),
            );
        },
    };
    let thinking = match trim_opt(thinking_effort) {
        Some(value) => match ThinkingSelection::parse(value.as_str()) {
            Ok(selection) => Some(selection),
            Err(complaint) => {
                return Err(AppError::BadRequest(complaint));
            },
        },
        None => match &session.thinking_effort {
            Some(stored) => ThinkingSelection::from_stored(Some(stored.as_str())),
            None => None,
        },
    };
    let model_alias = if model.is_some() {
        Some(Some(alias.clone()))
    } else {
        None
    };
    let effort = if thinking_effort.is_some() {
        Some(
            match thinking {
                Some(selection) => Some(selection.as_str().to_owned()),
                None => None,
            },
        )
    } else {
        None
    };
    let remembered = UpdateSession {
        title: None,
        closed_at: None,
        model_alias,
        thinking_effort: effort,
    };
    Ok(MessagePlan { alias, thinking, remembered })
}

/// A message, as it is sent.
#[derive(Debug)]
pub struct SendMessageRequest {
    pub content: String,
    /// A model alias, remembered by the session. Omitting it runs on what the
    /// session already had.
    pub model: Option<String>,
    /// `off`, `on`, or an effort level, remembered the same way.
    pub thinking_effort: Option<String>,
    /// Optional while a session has exactly one thread.
    pub thread_id: Option<u128>,
}

/// A message that can be run.
#[derive(Debug)]
pub struct Accepted {
    pub content: String,
    pub thread_id: u128,
    pub plan: MessagePlan,
}

/// Why a message is refused, given the session it is sent to, where the sender
/// may see it.
pub open spec fn send_refusal(
    input: SendMessageRequest,
    session: Option<Session>,
    threads: ThreadRows,
) -> Option<ErrorModel> {
    if content_refusal(input.content@) is Some {
        content_refusal(input.content@)
    } else {
        match session {
            None => Some(ErrorModel::NotFound),
            Some(found) => if closed_refusal(found) is Some {
                closed_refusal(found)
            } else {
                match thread_for(input.thread_id, threads) {
                    Err(error) => Some(error),
                    Ok(_) => message_refusal(found, opt(input.model), opt(input.thinking_effort)),
                }
            },
        }
    }
}

/// Takes a message: what it says, where it runs and with what.
pub fn send_message(
    input: &SendMessageRequest,
    session: Option<Session>,
    threads: &ThreadRows,
) -> (r: Result<Accepted, AppError>)
    ensures
        refusal(r) == send_refusal(*input, session, *threads),
        r matches Ok(accepted) ==> {
            &&& accepted.content@ == trimmed(input.content@)
            &&& thread_for(input.thread_id, *threads) == Ok::<u128, ErrorModel>(
                accepted.thread_id,
            )
            &&& session is Some
            &&& accepted.plan.answers(session->0, opt(input.model), opt(input.thinking_effort))
        },
{
    let content = match message_content(input.content.as_str()) {
        Ok(content) => content,
        Err(error) => {
            return Err(error);
        },
    };
    let found = match session {
        Some(found) => found,
        None => {
            return Err(AppError::NotFound);
        },
    };
    if let Err(error) = check_open(&found) {
        return Err(error);
    }
    let thread_id: u128 = match resolve_thread(input.thread_id, threads) {
        Ok(id) => id,
        Err(error) => {
            return Err(error);
        },
    };
    match plan_message(&found, &input.model, &input.thinking_effort) {
        Ok(plan) => Ok(Accepted { content, thread_id, plan }),
        Err(error) => Err(error),
    }
}

/// A message that names no selection leaves the session's as they are.
pub proof fn an_unnamed_selection_is_not_cleared(session: Session)
    requires
        session.model_alias is Some,
    ensures
        message_refusal(session, None, None) is None,
        alias_for(session, None) == opt(session.model_alias),
        thinking_for(session, None) == match opt(session.thinking_effort) {
            Some(stored) => ThinkingSelection::named(stored),
            None => None,
        },
{
}

/// The messages a turn sends: the user's, and then what the session has to say
/// about the environments it added.
pub open spec fn turn_messages(content: Seq<char>, added: Seq<Seq<char>>) -> Seq<TurnModel> {
    let user = TurnModel {
        kind: KIND_INPUT@,
        message: text_message(Role::User, content),
    };
    if added.len() == 0 {
        seq![user]
    } else {
        seq![
            user,
            TurnModel {
                kind: KIND_ENVIRONMENTS@,
                message: text_message(Role::User, announcement_text(added)),
            },
        ]
    }
}

/// The messages a turn sends. The announcement comes after the user's turn,
/// never before it, and never in the system prompt.
pub fn turn_input(content: String, added: &[String]) -> (r: Vec<TurnMessage>)
    ensures
        turns(r@) == turn_messages(content@, texts(added@)),
{
    let user = TurnMessage { kind: KIND_INPUT, message: Message::of_text(Role::User, content) };
    let mut input: Vec<TurnMessage> = vec![user];
    if let Some(message) = announcement(added) {
        input.push(TurnMessage { kind: KIND_ENVIRONMENTS, message });
    }
    assert(turns(input@) =~= turn_messages(content@, texts(added@)));
    input
}

/// A turn always opens with the user's own words, and nobody in it speaks as
/// the system.
pub proof fn a_turn_opens_with_the_user(content: Seq<char>, added: Seq<Seq<char>>)
    ensures
        turn_messages(content, added)[0].kind == KIND_INPUT@,
        turn_messages(content, added)[0].message == text_message(Role::User, content),
        forall|i: int|
            0 <= i < turn_messages(content, added).len() ==> (#[trigger] turn_messages(
                content,
                added,
            )[i]).message.role == Role::User,
{
}

// ---------------------------------------------------------------------------
// The live stream
// ---------------------------------------------------------------------------

/// The cursor a subscriber resumes from. A number is unique per run, not per
/// session, so neither half means anything alone.
pub fn stream_cursor(run_id: Option<u128>, after_seq: Option<i64>) -> (r: Result<
    Option<(u128, i64)>,
    AppError,
>)
    ensures
        match (run_id, after_seq) {
            (Some(run), Some(seq)) => r == Ok::<Option<(u128, i64)>, AppError>(Some((run, seq))),
            (None, None) => r == Ok::<Option<(u128, i64)>, AppError>(None),
            _ => refusal(r) == Some(
                ErrorModel::BadRequest("run_id and after_seq must be given together"@),
            ),
        },
{
    match (run_id, after_seq) {
        (Some(run), Some(seq)) => Ok(Some((run, seq))),
        (None, None) => Ok(None),
        _ => Err(bad_request("run_id and after_seq must be given together")),
    }
}

/// The events that a run's stored rows are replayed as.
pub open spec fn replayed(run_id: u128, rows: Seq<Transcript>) -> Seq<EventModel> {
    Seq::new(
        rows.len(),
        |i: int|
            EventModel {
                run_id,
                seq: rows[i].seq as int,
                kind: rows[i].kind@,
                payload: rows[i].payload@,
            },
    )
}

/// The models of a list of events.
pub open spec fn events(list: Seq<StreamEvent>) -> Seq<EventModel> {
    Seq::new(list.len(), |i: int| list[i]@)
}

/// Replays a run's stored rows.
pub fn replay(run_id: u128, rows: Vec<Transcript>) -> (r: Vec<StreamEvent>)
    ensures
        events(r@) == replayed(run_id, rows@),
{
    let mut out: Vec<StreamEvent> = Vec::new();
    let mut i: usize = 0;
    while i < rows.len()
        invariant
            i <= rows@.len(),
            out@.len() == i,
            forall|k: int| 0 <= k < i ==> #[trigger] out@[k]@ == replayed(run_id, rows@)[k],
        decreases rows@.len() - i,
    {
        let row = &rows[i];
        out.push(
            StreamEvent {
                run_id,
                seq: row.seq,
                kind: row.kind.clone(),
                payload: row.payload.duplicate(),
            },
        );
        i += 1;
    }
    assert(events(out@) =~= replayed(run_id, rows@));
    out
}

/// How far the replay of a cursor's run reached.
pub open spec fn replay_end(cursor: Option<(u128, i64)>, replay: Seq<StreamEvent>) -> Option<
    (u128, i64),
> {
    match cursor {
        Some((run_id, _)) => Some(
            (
                run_id,
                if replay.len() > 0 {
                    replay.last().seq
                } else {
                    i64::MIN
                },
            ),
        ),
        None => None,
    }
}

/// How far the replay of a cursor's run reached.
pub fn replayed_through(cursor: Option<(u128, i64)>, replay: &Vec<StreamEvent>) -> (r: Option<
    (u128, i64),
>)
    ensures
        r == replay_end(cursor, replay@),
{
    match cursor {
        Some((run_id, _)) => {
            let through: i64 = if replay.len() > 0 {
                replay[replay.len() - 1].seq
            } else {
                i64::MIN
            };
            Some((run_id, through))
        },
        None => None,
    }
}

/// Whether a live event is one that the replay did not deliver.
pub open spec fn fresh(through: Option<(u128, i64)>, run_id: u128, seq: int) -> bool {
    match through {
        Some((run, last)) => !(run_id == run && seq <= last),
        None => true,
    }
}

/// Whether a live event is passed on: not when the replay delivered it.
pub fn passes(through: Option<(u128, i64)>, event: &StreamEvent) -> (r: bool)
    ensures
        r == fresh(through, event.run_id, event.seq as int),
{
    match through {
        Some((run_id, last)) => !(event.run_id == run_id && event.seq <= last),
        None => true,
    }
}

/// Replay and live together deliver nothing twice: an event that was replayed
/// is not passed on live, and one that lies past the replay, or belongs to
/// another run, is.
pub proof fn nothing_is_delivered_twice(
    cursor: (u128, i64),
    replay: Seq<StreamEvent>,
    i: int,
    seq: int,
    other: u128,
)
    requires
        forall|j: int, k: int|
            0 <= j < k < replay.len() ==> (#[trigger] replay[j]).seq < (#[trigger] replay[k]).seq,
        0 <= i < replay.len(),
        other != cursor.0,
    ensures
        !fresh(replay_end(Some(cursor), replay), cursor.0, replay[i].seq as int),
        seq > replay.last().seq ==> fresh(replay_end(Some(cursor), replay), cursor.0, seq),
        fresh(replay_end(Some(cursor), replay), other, seq),
{
    if i < replay.len() - 1 {
        assert(replay[i].seq < replay[replay.len() - 1].seq);
    }
}

/// An event in the form it is sent to a subscriber.
pub open spec fn event_json(event: EventModel) -> JsonModel {
    object_of(
        seq![
            ("run_id"@, JsonModel::Str(hyphenated(event.run_id))),
            ("seq"@, JsonModel::Int(event.seq)),
            ("kind"@, JsonModel::Str(event.kind)),
            ("payload"@, event.payload),
        ],
    )
}

/// The document an event is sent to a subscriber in.
pub fn sse_event(event: &StreamEvent) -> (r: Vec<u8>)
    ensures
        r@ == crate::json::encoded(crate::json::built(event_json(event@))),
{
    let members = vec![
        ("run_id".to_owned(), Json::Str(uuid_text(event.run_id))),
        ("seq".to_owned(), Json::Int(event.seq as i128)),
        ("kind".to_owned(), Json::text(event.kind.as_str())),
        ("payload".to_owned(), event.payload.duplicate()),
    ];
    assert(member_models(members@) =~= seq![
        ("run_id"@, JsonModel::Str(hyphenated(event.run_id))),
        ("seq"@, JsonModel::Int(event.seq as int)),
        ("kind"@, JsonModel::Str(event.kind@)),
        ("payload"@, event.payload@),
    ]);
    Json::object(members).encode()
}

/// What reaches a subscriber from the session's channel.
#[derive(Debug)]
pub enum Live {
    Event(StreamEvent),
    /// The subscriber fell so far behind that this many events were dropped.
    Lagged(u64),
}

/// What a subscriber is sent.
#[derive(Debug)]
pub enum Sent {
    /// An event, as a document.
    Transcript(Vec<u8>),
    /// How many events were dropped, in decimal: the subscriber re-syncs from
    /// the stored transcript.
    Lagged(String),
}

impl Sent {
    /// The name it is sent under.
    pub open spec fn label(self) -> Seq<char> {
        match self {
            Sent::Transcript(_) => "transcript"@,
            Sent::Lagged(_) => "lagged"@,
        }
    }

    pub fn name(&self) -> (r: &'static str)
        ensures
            r@ == self.label(),
    {
        match self {
            Sent::Transcript(_) => "transcript",
            Sent::Lagged(_) => "lagged",
        }
    }
}

/// Passes on one item of the session's channel. What the replay delivered is
/// left out; a gap is reported rather than swallowed.
pub fn stream(through: Option<(u128, i64)>, item: &Live) -> (r: Option<Sent>)
    ensures
        match item {
            Live::Event(event) => if fresh(through, event.run_id, event.seq as int) {
                r matches Some(Sent::Transcript(document)) && document@ == crate::json::encoded(
                    crate::json::built(event_json(event@)),
                )
            } else {
                r is None
            },
            Live::Lagged(count) => (r matches Some(Sent::Lagged(text)) && text@ == decimal(
                *count as nat,
            )),
        },
{
    match item {
        Live::Event(event) => if passes(through, event) {
            Some(Sent::Transcript(sse_event(event)))
        } else {
            None
        },
        Live::Lagged(count) => Some(Sent::Lagged(decimal_of(*count))),
    }
}

/// A title has between 1 and 200 characters.
pub proof fn a_title_fits_its_column(title: Seq<char>)
    ensures
        title_refusal(title) is None <==> 1 <= title.len() <= 200,
        opt_title_refusal(Some(title)) == title_refusal(title),
        opt_title_refusal(None) is None,
        title.len() == 0 ==> title_refusal(title) == Some(
            ErrorModel::BadRequest("title cannot be empty"@),
        ),
        title.len() > 200 ==> title_refusal(title) == Some(
            ErrorModel::BadRequest("title must be 200 characters or fewer"@),
        ),
{
}

/// A change is accepted just where the title it sets fits and the selection it
/// sets is one; clearing either is always accepted.
pub proof fn a_change_is_held_to_what_it_sets(input: UpdateRequest)
    ensures
        update_refusal(input) is None <==> {
            &&& input.title matches Some(Some(title)) ==> 1 <= trimmed(title@).len() <= 200
            &&& input.thinking_effort matches Some(Some(value)) ==> ThinkingSelection::named(
                trimmed(value@),
            ) is Some
        },
{
}

/// A fork is taken wherever its parent is there and has allocated the position,
/// the last one among them.
pub proof fn a_fork_from_real_history_is_taken(parent: Thread, forked_at_seq: i32)
    ensures
        0 <= forked_at_seq < parent.next_seq ==> fork_refusal(Some(parent), forked_at_seq) is None,
        parent.next_seq > 0 ==> fork_refusal(Some(parent), (parent.next_seq - 1) as i32) is None,
        fork_refusal(Some(parent), parent.next_seq) is Some,
        forked_at_seq < 0 ==> fork_refusal(Some(parent), forked_at_seq) is Some,
        fork_refusal(None, forked_at_seq) is Some,
{
}

/// A message runs in the thread it names; where it names none, in the session's
/// only one, and in none where that would be a guess.
pub proof fn a_message_runs_in_its_thread(requested: u128, rows: ThreadRows, id: u128)
    ensures
        thread_for(Some(requested), rows) == Ok::<u128, ErrorModel>(id) <==> rows.named == Some(id),
        thread_for(None, rows) == Ok::<u128, ErrorModel>(id) <==> rows.candidates@ == seq![id],
        rows.candidates@.len() != 1 ==> thread_for(None, rows) is Err,
{
    if thread_for(None, rows) == Ok::<u128, ErrorModel>(id) {
        assert(rows.candidates@ =~= seq![id]);
    }
}

/// A message runs on the model it names, whatever white space stands around the
/// name, and on the session's where it names none; and it is thought about as it
/// says, else as the session does.
pub proof fn a_message_runs_with_what_it_names(
    session: Session,
    before: Seq<char>,
    name: Seq<char>,
    after: Seq<char>,
    selection: ThinkingSelection,
)
    requires
        crate::text::all_white(before),
        crate::text::all_white(after),
        name.len() > 0,
        !crate::text::is_white(name[0]),
        !crate::text::is_white(name.last()),
    ensures
        alias_for(session, Some(before + name + after)) == Some(name),
        alias_for(session, Some(before)) == opt(session.model_alias),
        alias_for(session, None) == opt(session.model_alias),
        name == selection.text() ==> thinking_for(session, Some(before + name + after)) == Some(
            selection,
        ),
        opt(session.thinking_effort) == Some(selection.text()) ==> thinking_for(session, None)
            == Some(selection),
        session.thinking_effort is None ==> thinking_for(session, None) is None,
{
    crate::text::trimming_leaves_the_core(before, name, after);
    let none = Seq::<char>::empty();
    crate::text::trimming_leaves_the_core(before, none, none);
    assert(before + none + none =~= before);
    crate::models::thinking::a_selection_round_trips(selection);
}

/// A message is refused for its selections just where it has no model to run on
/// or names a selection that is none.
pub proof fn a_message_needs_a_model(
    session: Session,
    model: Option<Seq<char>>,
    effort: Option<Seq<char>>,
)
    ensures
        message_refusal(session, model, effort) is None <==> {
            &&& session.model_alias is Some || (model matches Some(name) && trimmed(name).len() > 0)
            &&& effort matches Some(value) ==> ThinkingSelection::named(trimmed(value)) is Some
        },
{
}

/// What a message names is what the session is left holding, and nothing else
/// of the session changes.
pub proof fn what_a_message_names_is_remembered(
    plan: MessagePlan,
    session: Session,
    model: Option<Seq<char>>,
    effort: Option<Seq<char>>,
)
    requires
        plan.answers(session, model, effort),
    ensures
        plan.remembered.title is None,
        plan.remembered.closed_at is None,
        model is None <==> plan.remembered.model_alias is None,
        model is Some ==> change(plan.remembered.model_alias) == Some(Some(plan.alias@)),
        effort is None <==> plan.remembered.thinking_effort is None,
        effort matches Some(value) ==> (plan.thinking matches Some(selection) ==> change(
            plan.remembered.thinking_effort,
        ) == Some(Some(trimmed(value))) && selection.text() == trimmed(value)),
{
    if let Some(value) = effort {
        crate::models::thinking::a_level_goes_by_its_name(trimmed(value));
    }
}

/// A message is taken just where it says something, its session is there and
/// open, its thread is found, and it has a model to run on.
pub proof fn what_can_be_sent_is_taken(
    input: SendMessageRequest,
    session: Session,
    threads: ThreadRows,
)
    ensures
        send_refusal(input, None, threads) is Some,
        send_refusal(input, Some(session), threads) is None <==> {
            &&& trimmed(input.content@).len() > 0
            &&& session.closed_at is None
            &&& thread_for(input.thread_id, threads) is Ok
            &&& message_refusal(session, opt(input.model), opt(input.thinking_effort)) is None
        },
{
}

/// A turn sends the words as they were said, and then, only where environments
/// were added, what is announced of them.
pub proof fn a_turn_sends_what_was_said(content: Seq<char>, added: Seq<Seq<char>>)
    ensures
        ({
            let sent = turn_messages(content, added);
            &&& sent.len() == if added.len() > 0 {
                2nat
            } else {
                1nat
            }
            &&& sent[0].kind == "input"@
            &&& sent[0].message.content == seq![crate::message::BlockModel::Text(content)]
            &&& added.len() > 0 ==> sent[1].kind == "environments"@ && sent[1].message.content
                == seq![crate::message::BlockModel::Text(announcement_text(added))]
        }),
{
}

/// A stored row is replayed as the event it was: in its place, under its number
/// and its kind, with what it holds.
pub proof fn a_stored_row_is_replayed_as_it_was(run_id: u128, rows: Seq<Transcript>, i: int)
    requires
        0 <= i < rows.len(),
    ensures
        replayed(run_id, rows).len() == rows.len(),
        replayed(run_id, rows)[i].run_id == run_id,
        replayed(run_id, rows)[i].seq == rows[i].seq as int,
        replayed(run_id, rows)[i].kind == rows[i].kind@,
        replayed(run_id, rows)[i].payload == rows[i].payload@,
{
}

/// A subscriber that resumes nowhere, or resumed where there was nothing to
/// replay, gets everything.
pub proof fn nothing_is_held_back_without_a_replay(cursor: (u128, i64), run_id: u128, seq: int)
    requires
        seq > i64::MIN,
    ensures
        fresh(replay_end(None, Seq::empty()), run_id, seq),
        fresh(replay_end(Some(cursor), Seq::empty()), run_id, seq),
{
}

/// The document of an event names its run, its number and its kind, and holds
/// its payload as it is.
pub proof fn an_event_is_sent_as_it_is(event: EventModel)
    ensures
        event_json(event).get("run_id"@) == Some(JsonModel::Str(hyphenated(event.run_id))),
        event_json(event).get("seq"@) == Some(JsonModel::Int(event.seq)),
        event_json(event).get("kind"@) == Some(JsonModel::Str(event.kind)),
        event_json(event).get("payload"@) == Some(event.payload),
{
    reveal_strlit("run_id");
    reveal_strlit("seq");
    reveal_strlit("kind");
    reveal_strlit("payload");
    assert("run_id"@.len() == 6 && "seq"@.len() == 3 && "kind"@.len() == 4 && "payload"@.len()
        == 7);
    let members = seq![
        ("run_id"@, JsonModel::Str(hyphenated(event.run_id))),
        ("seq"@, JsonModel::Int(event.seq)),
        ("kind"@, JsonModel::Str(event.kind)),
        ("payload"@, event.payload),
    ];
    crate::json::an_object_holds_its_members(members, 0);
    crate::json::an_object_holds_its_members(members, 1);
    crate::json::an_object_holds_its_members(members, 2);
    crate::json::an_object_holds_its_members(members, 3);
}

/// A plan runs on the model that the message names, else on the session's, and
/// thinks as the message says, else as the session does.
pub proof fn a_plan_runs_with_what_was_named(
    plan: MessagePlan,
    session: Session,
    model: Option<Seq<char>>,
    effort: Option<Seq<char>>,
)
    requires
        plan.answers(session, model, effort),
    ensures
        model matches Some(name) ==> (trimmed(name).len() > 0 ==> plan.alias@ == trimmed(name)),
        model is None ==> opt(session.model_alias) == Some(plan.alias@),
        effort matches Some(value) ==> plan.thinking == ThinkingSelection::named(trimmed(value)),
        effort is None && session.thinking_effort is None ==> plan.thinking is None,
        effort is None && session.thinking_effort is Some ==> plan.thinking
            == ThinkingSelection::named(opt(session.thinking_effort)->0),
{
}

} // verus!
