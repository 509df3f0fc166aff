//! Runs: reading them back, stopping them, and trying them again.
use vstd::prelude::*;
use crate::error::{bad_request, refusal, AppError, ErrorModel};
use crate::json::{Json, JsonModel};
use crate::environments::{
    an_announcement_is_recognized, announces, is_announcement, lemma_one_text,
};
use crate::message::{
    a_stored_message_reads_back, block_of, text_message, transcript_to_message, MessageModel, Role,
};
use crate::models::session::Session;
use crate::models::thinking::ThinkingSelection;
use crate::run::{
    turns, unreachable_note, TurnMessage, TurnModel, KIND_ENVIRONMENTS, KIND_INPUT, KIND_MESSAGE, KIND_RUN_END,
    KIND_RUN_ERROR, KIND_RUN_INTERRUPTED,
};
use crate::routes::sessions::turn_messages;
use crate::text::{opt, same};

verus! {

/// One stored event of a run.
#[derive(Debug)]
pub struct Transcript {
    pub id: u128,
    pub run_id: u128,
    pub seq: i64,
    /// Free-form event tag, so that a new kind is not a migration.
    pub kind: String,
    pub payload: Json,
    pub created_at: i64,
}

/// What a row says, apart from where it is stored.
pub struct RowModel {
    pub kind: Seq<char>,
    pub payload: JsonModel,
}

impl Transcript {
    pub open spec fn said(self) -> RowModel {
        RowModel { kind: self.kind@, payload: self.payload@ }
    }
}

/// What a list of rows says.
pub open spec fn rows_of(rows: Seq<Transcript>) -> Seq<RowModel> {
    Seq::new(rows.len(), |i: int| rows[i].said())
}

/// A stored event as the client sees it.
#[derive(Debug)]
pub struct TranscriptResponse {
    pub id: u128,
    pub seq: i64,
    pub kind: String,
    pub payload: Json,
    pub created_at: i64,
}

pub fn transcript_response(t: &Transcript) -> (r: TranscriptResponse)
    ensures
        r.id == t.id,
        r.seq == t.seq,
        r.kind@ == t.kind@,
        r.payload@ == t.payload@,
        r.created_at == t.created_at,
{
    TranscriptResponse {
        id: t.id,
        seq: t.seq,
        kind: t.kind.clone(),
        payload: t.payload.duplicate(),
        created_at: t.created_at,
    }
}

/// How a stop that was asked for is answered, if not by having landed.
///
/// `raised` is whether this instance owns the run and was told to stop it;
/// `completed_at` is the run's row, read again after that: a run that finished
/// between the two is the common way to get past the first.
pub open spec fn interrupt_refusal(raised: bool, completed_at: Option<Option<i64>>) -> Option<
    ErrorModel,
> {
    if raised {
        None
    } else {
        match completed_at {
            None => Some(ErrorModel::NotFound),
            Some(Some(_)) => Some(ErrorModel::Conflict("run has already finished"@)),
            Some(None) => Some(
                ErrorModel::ServiceUnavailable("run is not in progress on this instance"@),
            ),
        }
    }
}

/// Answers a stop. One that reached no run here is reported rather than
/// answered as if it had landed.
pub fn interrupt(raised: bool, completed_at: Option<Option<i64>>) -> (r: Result<(), AppError>)
    ensures
        refusal(r) == interrupt_refusal(raised, completed_at),
{
    if raised {
        return Ok(());
    }
    match completed_at {
        None => Err(AppError::NotFound),
        Some(Some(_)) => Err(AppError::Conflict("run has already finished".to_owned())),
        Some(None) => Err(
            AppError::ServiceUnavailable("run is not in progress on this instance".to_owned()),
        ),
    }
}

// ---------------------------------------------------------------------------
// Retry
// ---------------------------------------------------------------------------

/// What a retry sends again.
#[derive(Debug, Clone, Copy, PartialEq, Eq, Structural)]
pub enum RetryMode {
    /// The original user input.
    Full,
    /// The input and the messages that were completed, so the model resumes
    /// where it left off.
    FromCheckpoint,
}

impl RetryMode {
    pub open spec fn text(self) -> Seq<char> {
        match self {
            RetryMode::Full => "full"@,
            RetryMode::FromCheckpoint => "from_checkpoint"@,
        }
    }

    pub fn as_str(&self) -> (r: &'static str)
        ensures
            r@ == self.text(),
    {
        match self {
            RetryMode::Full => "full",
            RetryMode::FromCheckpoint => "from_checkpoint",
        }
    }
}

pub fn default_retry_mode() -> (r: String)
    ensures
        r@ == "full"@,
{
    "full".to_owned()
}

/// The mode a retry asks for: a full one where it does not say.
pub open spec fn asked_mode(mode: Option<Seq<char>>) -> Option<RetryMode> {
    match mode {
        None => Some(RetryMode::Full),
        Some(text) => if text == "full"@ {
            Some(RetryMode::Full)
        } else if text == "from_checkpoint"@ {
            Some(RetryMode::FromCheckpoint)
        } else {
            None
        },
    }
}

/// Reads the mode a retry asks for.
pub fn retry_mode(mode: Option<String>) -> (r: Result<RetryMode, AppError>)
    ensures
        match r {
            Ok(chosen) => asked_mode(opt(mode)) == Some(chosen),
            Err(error) => asked_mode(opt(mode)) is None && error@ == ErrorModel::BadRequest(
                "mode must be \"full\" or \"from_checkpoint\""@,
            ),
        },
{
    let asked = match mode {
        Some(text) => text,
        None => default_retry_mode(),
    };
    if same(asked.as_str(), "full") {
        Ok(RetryMode::Full)
    } else if same(asked.as_str(), "from_checkpoint") {
        Ok(RetryMode::FromCheckpoint)
    } else {
        Err(bad_request("mode must be \"full\" or \"from_checkpoint\""))
    }
}

/// Why a run in progress is not retried.
pub fn check_completed(completed_at: Option<i64>) -> (r: Result<(), AppError>)
    ensures
        refusal(r) == if completed_at is None {
            Some(ErrorModel::Conflict("run is still in progress; interrupt it first"@))
        } else {
            None
        },
{
    if completed_at.is_none() {
        Err(AppError::Conflict("run is still in progress; interrupt it first".to_owned()))
    } else {
        Ok(())
    }
}

/// Whether a run's transcript has the marker of an end that can be retried.
pub open spec fn ended_badly(rows: Seq<RowModel>) -> bool {
    exists|i: int|
        0 <= i < rows.len() && ((#[trigger] rows[i]).kind == KIND_RUN_ERROR@ || rows[i].kind
            == KIND_RUN_INTERRUPTED@)
}

/// A run that succeeded has nothing to retry.
pub fn check_failed(rows: &Vec<Transcript>) -> (r: Result<(), AppError>)
    ensures
        refusal(r) == if ended_badly(rows_of(rows@)) {
            None
        } else {
            Some(ErrorModel::BadRequest("only failed or interrupted runs can be retried"@))
        },
{
    let ghost all = rows_of(rows@);
    let mut i: usize = 0;
    while i < rows.len()
        invariant
            i <= rows@.len(),
            all == rows_of(rows@),
            forall|k: int|
                0 <= k < i ==> (#[trigger] all[k]).kind != KIND_RUN_ERROR@ && all[k].kind
                    != KIND_RUN_INTERRUPTED@,
        decreases rows@.len() - i,
    {
        let kind = rows[i].kind.as_str();
        if same(kind, KIND_RUN_ERROR) || same(kind, KIND_RUN_INTERRUPTED) {
            assert(all[i as int].kind == kind@);
            return Ok(());
        }
        i += 1;
    }
    Err(bad_request("only failed or interrupted runs can be retried"))
}

/// What a retry runs with: what the session holds now.
pub fn retry_selection(session: &Session) -> (r: Result<
    (String, Option<ThinkingSelection>),
    AppError,
>)
    ensures
        refusal(r) == if session.closed_at is Some {
            Some(ErrorModel::BadRequest("session is closed"@))
        } else if session.model_alias is None {
            Some(ErrorModel::BadRequest("no model is selected for this session"@))
        } else {
            None
        },
        r matches Ok(chosen) ==> Some(chosen.0@) == opt(session.model_alias) && chosen.1
            == match opt(session.thinking_effort) {
            Some(stored) => ThinkingSelection::named(stored),
            None => None,
        },
{
    if session.closed_at.is_some() {
        return Err(bad_request("session is closed"));
    }
    let alias = match &session.model_alias {
        Some(alias) => alias.clone(),
        None => {
            return Err(bad_request("no model is selected for this session"));
        },
    };
    let thinking = match &session.thinking_effort {
        Some(stored) => ThinkingSelection::from_stored(Some(stored.as_str())),
        None => None,
    };
    Ok((alias, thinking))
}

/// A retry that can go ahead: how, and what it runs with.
#[derive(Debug)]
pub struct RetryPlan {
    pub mode: RetryMode,
    pub alias: String,
    pub thinking: Option<ThinkingSelection>,
}

/// Why a run is not retried. `run` is when it was completed, where the caller
/// may see it at all.
pub open spec fn retry_refusal(
    mode: Option<Seq<char>>,
    run: Option<Option<i64>>,
    rows: Seq<RowModel>,
    session: Session,
) -> Option<ErrorModel> {
    if asked_mode(mode) is None {
        Some(ErrorModel::BadRequest("mode must be \"full\" or \"from_checkpoint\""@))
    } else {
        match run {
            None => Some(ErrorModel::NotFound),
            Some(None) => Some(ErrorModel::Conflict("run is still in progress; interrupt it first"@)),
            Some(Some(_)) => if !ended_badly(rows) {
                Some(ErrorModel::BadRequest("only failed or interrupted runs can be retried"@))
            } else if session.closed_at is Some {
                Some(ErrorModel::BadRequest("session is closed"@))
            } else if session.model_alias is None {
                Some(ErrorModel::BadRequest("no model is selected for this session"@))
            } else {
                None
            },
        }
    }
}

/// Checks a retry before its input is reconstructed.
pub fn plan_retry(
    mode: Option<String>,
    run: Option<Option<i64>>,
    rows: &Vec<Transcript>,
    session: &Session,
) -> (r: Result<RetryPlan, AppError>)
    ensures
        refusal(r) == retry_refusal(opt(mode), run, rows_of(rows@), *session),
        r matches Ok(plan) ==> {
            &&& asked_mode(opt(mode)) == Some(plan.mode)
            &&& Some(plan.alias@) == opt(session.model_alias)
            &&& plan.thinking == match opt(session.thinking_effort) {
                Some(stored) => ThinkingSelection::named(stored),
                None => None,
            }
        },
{
    let mode: RetryMode = match retry_mode(mode) {
        Ok(mode) => mode,
        Err(error) => {
            return Err(error);
        },
    };
    let completed_at = match run {
        Some(completed_at) => completed_at,
        None => {
            return Err(AppError::NotFound);
        },
    };
    if let Err(error) = check_completed(completed_at) {
        return Err(error);
    }
    if let Err(error) = check_failed(rows) {
        return Err(error);
    }
    match retry_selection(session) {
        Ok((alias, thinking)) => Ok(RetryPlan { mode, alias, thinking }),
        Err(error) => Err(error),
    }
}

/// Whether a row marks a run's end.
pub open spec fn ends_run(kind: Seq<char>) -> bool {
    kind == KIND_RUN_END@ || kind == KIND_RUN_ERROR@ || kind == KIND_RUN_INTERRUPTED@
}

/// The turn a row is sent again as, where it is. Of what the session noted
/// down, only its announcements were ever sent to the model, so nothing else of
/// it is sent again. A completed message is sent again as input, and only from a
/// checkpoint.
pub open spec fn row_turn(mode: RetryMode, row: RowModel) -> Option<TurnModel> {
    let message = MessageModel::from_json(row.payload);
    if row.kind == KIND_INPUT@ {
        Some(TurnModel { kind: KIND_INPUT@, message })
    } else if row.kind == KIND_ENVIRONMENTS@ {
        if announces(message) {
            Some(TurnModel { kind: KIND_ENVIRONMENTS@, message })
        } else {
            None
        }
    } else if mode == RetryMode::FromCheckpoint && row.kind == KIND_MESSAGE@ {
        Some(TurnModel { kind: KIND_INPUT@, message })
    } else {
        None
    }
}

/// The turns that a run's rows are sent again as. A checkpoint reads no
/// further than the run's end.
pub open spec fn resent(mode: RetryMode, rows: Seq<RowModel>) -> Seq<TurnModel>
    decreases rows.len(),
{
    if rows.len() == 0 {
        Seq::empty()
    } else {
        match row_turn(mode, rows[0]) {
            Some(turn) => seq![turn] + resent(mode, rows.drop_first()),
            None => if mode == RetryMode::FromCheckpoint && ends_run(rows[0].kind) {
                Seq::empty()
            } else {
                resent(mode, rows.drop_first())
            },
        }
    }
}

/// Reconstructs what a failed run is retried with.
pub fn retry(mode: RetryMode, rows: &Vec<Transcript>) -> (r: Result<Vec<TurnMessage>, AppError>)
    ensures
        match r {
            Ok(input) => turns(input@) == resent(mode, rows_of(rows@)) && input@.len() > 0,
            Err(error) => resent(mode, rows_of(rows@)).len() == 0 && error@
                == ErrorModel::BadRequest("could not reconstruct input from the failed run"@),
        },
{
    let ghost all = rows_of(rows@);
    let mut input: Vec<TurnMessage> = Vec::new();
    let mut i: usize = 0;
    assert(turns(input@) + resent(mode, all.skip(0)) =~= resent(mode, all)) by {
        assert(all.skip(0) =~= all);
    }
    let mut going = true;
    while going && i < rows.len()
        invariant
            i <= rows@.len(),
            all == rows_of(rows@),
            resent(mode, all) == if going {
                turns(input@) + resent(mode, all.skip(i as int))
            } else {
                turns(input@)
            },
        decreases rows@.len() - i,
    {
        let row = &rows[i];
        let kind = row.kind.as_str();
        let ghost before = turns(input@);
        proof {
            assert(all.skip(i as int)[0] == all[i as int]);
            assert(all.skip(i as int).drop_first() =~= all.skip(i + 1));
        }
        let message = transcript_to_message(&row.payload);
        let sent_as = if same(kind, KIND_INPUT) {
            Some(KIND_INPUT)
        } else if same(kind, KIND_ENVIRONMENTS) {
            if is_announcement(&message) {
                Some(KIND_ENVIRONMENTS)
            } else {
                None
            }
        } else if mode == RetryMode::FromCheckpoint && same(kind, KIND_MESSAGE) {
            Some(KIND_INPUT)
        } else {
            None
        };
        match sent_as {
            Some(kind) => {
                let turn = TurnMessage { kind, message };
                input.push(turn);
                assert(turns(input@) =~= before.push(turn@));
                assert(before + (seq![turn@] + resent(mode, all.skip(i + 1))) =~= turns(input@)
                    + resent(mode, all.skip(i + 1)));
            },
            None => {
                if mode == RetryMode::FromCheckpoint && (same(kind, KIND_RUN_END) || same(
                    kind,
                    KIND_RUN_ERROR,
                ) || same(kind, KIND_RUN_INTERRUPTED)) {
                    going = false;
                    assert(before + Seq::empty() =~= before);
                }
            },
        }
        i += 1;
    }
    proof {
        if going {
            assert(all.skip(i as int) =~= Seq::empty());
            assert(turns(input@) + Seq::empty() =~= turns(input@));
        }
    }
    if input.len() == 0 {
        Err(bad_request("could not reconstruct input from the failed run"))
    } else {
        Ok(input)
    }
}

/// A full retry sends the input rows again and nothing else, in order.
pub proof fn a_full_retry_sends_only_the_input(rows: Seq<RowModel>)
    ensures
        forall|i: int|
            0 <= i < resent(RetryMode::Full, rows).len() ==> {
                let kind = (#[trigger] resent(RetryMode::Full, rows)[i]).kind;
                kind == KIND_INPUT@ || kind == KIND_ENVIRONMENTS@
            },
        resent(RetryMode::Full, rows).len() <= rows.len(),
    decreases rows.len(),
{
    if rows.len() > 0 {
        a_full_retry_sends_only_the_input(rows.drop_first());
        let rest = resent(RetryMode::Full, rows.drop_first());
        if let Some(turn) = row_turn(RetryMode::Full, rows[0]) {
            let whole = seq![turn] + rest;
            assert forall|i: int| 0 <= i < whole.len() implies (#[trigger] whole[i]).kind
                == KIND_INPUT@ || whole[i].kind == KIND_ENVIRONMENTS@ by {
                if i > 0 {
                    assert(whole[i] == rest[i - 1]);
                }
            }
        }
    }
}

/// What the session noted down for the reader alone is never sent to the
/// model, however a run is retried.
pub proof fn a_notice_is_never_sent(mode: RetryMode, label: Seq<char>, reason: Seq<char>)
    ensures
        row_turn(
            mode,
            RowModel { kind: KIND_ENVIRONMENTS@, payload: unreachable_note(label, reason) },
        ) is None,
{
    let text = "'"@ + label + "' could not be reached for this run: "@ + reason;
    let message = text_message(Role::User, text);
    a_stored_message_reads_back(message);
    lemma_one_text(Role::User, text);
    reveal_strlit("'");
    reveal_strlit("<environments>");
    reveal_strlit("environments");
    reveal_strlit("input");
    reveal_strlit("message");
    assert(text[0] == '\'');
    assert("<environments>"@[0] == '<');
    if announces(message) {
        assert(text.subrange(0, "<environments>"@.len() as int)[0] == '<');
    }
    assert("environments"@.len() == 12 && "input"@.len() == 5 && "message"@.len() == 7);
}

/// A message that was completed before a run failed is sent again from a
/// checkpoint with every block it holds: what was said, the tools that were
/// called, and what they answered.
pub proof fn a_checkpoint_carries_every_block(row: RowModel, list: Seq<JsonModel>, i: int)
    requires
        row.kind == KIND_MESSAGE@,
        row.payload.get("content"@) == Some(JsonModel::List(list)),
        0 <= i < list.len(),
    ensures
        row_turn(RetryMode::FromCheckpoint, row) matches Some(turn) && {
            &&& turn.message.content.len() == list.len()
            &&& turn.message.content[i] == block_of(list[i])
        },
{
    reveal_strlit("environments");
    reveal_strlit("input");
    reveal_strlit("message");
    assert("environments"@.len() == 12 && "input"@.len() == 5 && "message"@.len() == 7);
}

/// Whether a row was stored after a run's input: it is no input, and what the
/// session noted down by it is that an environment could not be reached.
pub open spec fn follows_input(row: RowModel) -> bool {
    &&& row.kind != KIND_INPUT@
    &&& row.kind == KIND_ENVIRONMENTS@ ==> exists|label: Seq<char>, reason: Seq<char>|
        row.payload == #[trigger] unreachable_note(label, reason)
}

proof fn lemma_nothing_follows(row: RowModel)
    requires
        follows_input(row),
    ensures
        row_turn(RetryMode::Full, row) is None,
{
    if row.kind == KIND_ENVIRONMENTS@ {
        let (label, reason) = choose|label: Seq<char>, reason: Seq<char>|
            row.payload == #[trigger] unreachable_note(label, reason);
        a_notice_is_never_sent(RetryMode::Full, label, reason);
        assert(row == (RowModel {
            kind: KIND_ENVIRONMENTS@,
            payload: unreachable_note(label, reason),
        }));
    }
}

/// A full retry sends the turn that was sent the first time, whatever the run
/// stored after its input.
pub proof fn a_full_retry_repeats_the_turn(input: Seq<TurnModel>, rows: Seq<RowModel>)
    requires
        rows.len() >= input.len(),
        forall|i: int|
            0 <= i < input.len() ==> {
                &&& (#[trigger] rows[i]).kind == input[i].kind
                &&& rows[i].payload == input[i].message.json()
                &&& input[i].kind == KIND_INPUT@ || (input[i].kind == KIND_ENVIRONMENTS@
                    && announces(input[i].message))
                &&& input[i].message.role != Role::System
                &&& input[i].message.plain()
            },
        forall|i: int| input.len() <= i < rows.len() ==> follows_input(#[trigger] rows[i]),
    ensures
        resent(RetryMode::Full, rows) == input,
    decreases rows.len(),
{
    let rest = rows.drop_first();
    if input.len() > 0 {
        let later = input.drop_first();
        a_stored_message_reads_back(input[0].message);
        assert(rows[0].kind == input[0].kind);
        assert forall|i: int| 0 <= i < later.len() implies {
            &&& (#[trigger] rest[i]).kind == later[i].kind
            &&& rest[i].payload == later[i].message.json()
            &&& later[i].kind == KIND_INPUT@ || (later[i].kind == KIND_ENVIRONMENTS@
                && announces(later[i].message))
            &&& later[i].message.role != Role::System
            &&& later[i].message.plain()
        } by {
            let _ = rows[i + 1];
        }
        assert forall|i: int| later.len() <= i < rest.len() implies follows_input(
            #[trigger] rest[i],
        ) by {
            let _ = rows[i + 1];
        }
        a_full_retry_repeats_the_turn(later, rest);
        assert(seq![input[0]] + later =~= input);
    } else if rows.len() > 0 {
        assert forall|i: int| 0 <= i < rest.len() implies follows_input(#[trigger] rest[i]) by {
            let _ = rows[i + 1];
        }
        assert(follows_input(rows[0]));
        lemma_nothing_follows(rows[0]);
        a_full_retry_repeats_the_turn(input, rest);
    } else {
        assert(input =~= Seq::empty());
    }
}

/// A full retry of a run that a message set off sends that message again, with
/// the announcement it came with, and nothing else.
pub proof fn a_full_retry_repeats_a_message(
    content: Seq<char>,
    added: Seq<Seq<char>>,
    rows: Seq<RowModel>,
)
    requires
        rows.len() >= turn_messages(content, added).len(),
        forall|i: int|
            0 <= i < turn_messages(content, added).len() ==> (#[trigger] rows[i]) == (RowModel {
                kind: turn_messages(content, added)[i].kind,
                payload: turn_messages(content, added)[i].message.json(),
            }),
        forall|i: int|
            turn_messages(content, added).len() <= i < rows.len() ==> follows_input(
                #[trigger] rows[i],
            ),
    ensures
        resent(RetryMode::Full, rows) == turn_messages(content, added),
{
    an_announcement_is_recognized(added);
    let input = turn_messages(content, added);
    assert forall|i: int| 0 <= i < input.len() implies {
        &&& (#[trigger] rows[i]).kind == input[i].kind
        &&& rows[i].payload == input[i].message.json()
        &&& input[i].kind == KIND_INPUT@ || (input[i].kind == KIND_ENVIRONMENTS@ && announces(
            input[i].message,
        ))
        &&& input[i].message.role != Role::System
        &&& input[i].message.plain()
    } by {
        assert(rows[i].kind == input[i].kind);
    }
    a_full_retry_repeats_the_turn(input, rows);
}

/// A stop is answered by where the run stands: as done where it was told to
/// stop, as too late where it had finished, and as out of reach where it goes on
/// elsewhere.
pub proof fn a_stop_is_answered_by_where_the_run_stands(
    raised: bool,
    completed_at: Option<Option<i64>>,
)
    ensures
        interrupt_refusal(raised, completed_at) is None <==> raised,
        interrupt_refusal(raised, completed_at) == Some(ErrorModel::NotFound) <==> !raised
            && completed_at is None,
        interrupt_refusal(raised, completed_at) matches Some(ErrorModel::Conflict(_)) <==> !raised
            && completed_at matches Some(Some(_)),
        interrupt_refusal(raised, completed_at) matches Some(ErrorModel::ServiceUnavailable(_))
            <==> !raised && completed_at matches Some(None),
{
}

/// A retry names its mode, or asks for a full one by naming none.
pub proof fn a_mode_goes_by_its_name(name: Seq<char>)
    ensures
        asked_mode(None) == Some(RetryMode::Full),
        asked_mode(Some(name)) == Some(RetryMode::Full) <==> name == "full"@,
        asked_mode(Some(name)) == Some(RetryMode::FromCheckpoint) <==> name == "from_checkpoint"@,
        forall|mode: RetryMode| #[trigger] asked_mode(Some(mode.text())) == Some(mode),
{
    reveal_strlit("full");
    reveal_strlit("from_checkpoint");
    assert("full"@.len() == 4 && "from_checkpoint"@.len() == 15);
}

/// One row that marks a bad end is enough, wherever it stands, and nothing else
/// is: not a run that ended well, and not one that only said something.
pub proof fn a_bad_end_counts_wherever_it_stands(
    before: Seq<RowModel>,
    row: RowModel,
    after: Seq<RowModel>,
)
    ensures
        row.kind == "run_error"@ || row.kind == "run_interrupted"@ ==> ended_badly(
            before + seq![row] + after,
        ),
        !ended_badly(before) && !ended_badly(after) && (row.kind == "run_end"@ || row.kind
            == "message"@ || row.kind == "input"@) ==> !ended_badly(before + seq![row] + after),
{
    let rows = before + seq![row] + after;
    assert(rows[before.len() as int] == row);
    if !ended_badly(before) && !ended_badly(after) && (row.kind == "run_end"@ || row.kind
        == "message"@ || row.kind == "input"@) {
        reveal_strlit("run_end");
        reveal_strlit("run_error");
        reveal_strlit("run_interrupted");
        reveal_strlit("message");
        reveal_strlit("input");
        assert("run_end"@.len() == 7 && "run_error"@.len() == 9 && "run_interrupted"@.len() == 15
            && "message"@.len() == 7 && "input"@.len() == 5);
        assert forall|i: int| 0 <= i < rows.len() implies (#[trigger] rows[i]).kind
            != KIND_RUN_ERROR@ && rows[i].kind != KIND_RUN_INTERRUPTED@ by {
            if i < before.len() {
                assert(rows[i] == before[i]);
            } else if i > before.len() {
                assert(rows[i] == after[i - before.len() - 1]);
            }
        }
    }
}

/// A run is retried just where it is there, has ended, ended badly, and its
/// session is open and has a model.
pub proof fn what_can_be_retried_is_retried(
    mode: Option<Seq<char>>,
    run: Option<Option<i64>>,
    rows: Seq<RowModel>,
    session: Session,
)
    ensures
        retry_refusal(mode, run, rows, session) is None <==> {
            &&& mode is None || mode == Some("full"@) || mode == Some("from_checkpoint"@)
            &&& run matches Some(Some(_))
            &&& ended_badly(rows)
            &&& session.closed_at is None
            &&& session.model_alias is Some
        },
{
}

proof fn lemma_resent_together(a: Seq<RowModel>, b: Seq<RowModel>, mode: RetryMode)
    requires
        forall|i: int|
            0 <= i < a.len() ==> mode == RetryMode::Full || !ends_run((#[trigger] a[i]).kind)
                || row_turn(mode, a[i]) is Some,
    ensures
        resent(mode, a + b) == resent(mode, a) + resent(mode, b),
    decreases a.len(),
{
    if a.len() == 0 {
        assert(a + b =~= b);
        assert(resent(mode, a) + resent(mode, b) =~= resent(mode, b));
    } else {
        let rest = a.drop_first();
        assert((a + b).drop_first() =~= rest + b);
        assert((a + b)[0] == a[0]);
        assert forall|i: int| 0 <= i < rest.len() implies mode == RetryMode::Full || !ends_run(
            (#[trigger] rest[i]).kind,
        ) || row_turn(mode, rest[i]) is Some by {
            assert(rest[i] == a[i + 1]);
        }
        lemma_resent_together(rest, b, mode);
        assert(resent(mode, a + b) =~= resent(mode, a) + resent(mode, b));
    }
}

/// A stored message is sent again as it was: an input one however the run is
/// retried, and a completed one from a checkpoint only; each as the message that
/// was stored, in the place it has among the others.
pub proof fn a_stored_message_is_sent_again(
    before: Seq<RowModel>,
    message: MessageModel,
    after: Seq<RowModel>,
)
    requires
        message.role != Role::System,
        message.plain(),
        forall|i: int| 0 <= i < before.len() ==> !ends_run((#[trigger] before[i]).kind),
    ensures
        ({
            let again = seq![TurnModel { kind: "input"@, message }];
            let input = seq![RowModel { kind: "input"@, payload: message.json() }];
            let completed = seq![RowModel { kind: "message"@, payload: message.json() }];
            let full = |rows: Seq<RowModel>| resent(RetryMode::Full, rows);
            let resumed = |rows: Seq<RowModel>| resent(RetryMode::FromCheckpoint, rows);
            &&& full(before + input + after) == full(before) + again + full(after)
            &&& full(before + completed + after) == full(before) + full(after)
            &&& resumed(before + input + after) == resumed(before) + again + resumed(after)
            &&& resumed(before + completed + after) == resumed(before) + again + resumed(after)
        }),
{
    a_stored_message_reads_back(message);
    reveal_strlit("environments");
    reveal_strlit("input");
    reveal_strlit("message");
    reveal_strlit("run_end");
    reveal_strlit("run_error");
    reveal_strlit("run_interrupted");
    assert("environments"@.len() == 12 && "input"@.len() == 5 && "message"@.len() == 7);
    assert("run_end"@.len() == 7 && "run_error"@.len() == 9 && "run_interrupted"@.len() == 15);
    assert("message"@[0] == 'm' && "run_end"@[0] == 'r');
    let again = TurnModel { kind: "input"@, message };
    let input = RowModel { kind: "input"@, payload: message.json() };
    let completed = RowModel { kind: "message"@, payload: message.json() };
    lemma_sent_between(before, input, after, RetryMode::Full);
    lemma_sent_between(before, completed, after, RetryMode::Full);
    lemma_sent_between(before, input, after, RetryMode::FromCheckpoint);
    lemma_sent_between(before, completed, after, RetryMode::FromCheckpoint);
    assert(row_turn(RetryMode::Full, input) == Some(again));
    assert(row_turn(RetryMode::FromCheckpoint, completed) == Some(again));
    assert(row_turn(RetryMode::Full, completed) is None);
    assert(resent(RetryMode::Full, before) + Seq::empty() =~= resent(RetryMode::Full, before));
}

proof fn lemma_sent_between(
    before: Seq<RowModel>,
    row: RowModel,
    after: Seq<RowModel>,
    mode: RetryMode,
)
    requires
        forall|i: int| 0 <= i < before.len() ==> !ends_run((#[trigger] before[i]).kind),
        !ends_run(row.kind),
    ensures
        resent(mode, before + seq![row] + after) == resent(mode, before) + (match row_turn(
            mode,
            row,
        ) {
            Some(turn) => seq![turn],
            None => Seq::empty(),
        }) + resent(mode, after),
{
    assert(before + seq![row] + after =~= before + (seq![row] + after));
    lemma_resent_together(before, seq![row] + after, mode);
    lemma_resent_together(seq![row], after, mode);
    assert(seq![row].drop_first() =~= Seq::empty());
    assert(resent(mode, Seq::<RowModel>::empty()) =~= Seq::empty());
    assert(resent(mode, seq![row]) =~= (match row_turn(mode, row) {
        Some(turn) => seq![turn],
        None => Seq::empty(),
    }));
    assert(resent(mode, before + seq![row] + after) =~= resent(mode, before) + (match row_turn(
        mode,
        row,
    ) {
        Some(turn) => seq![turn],
        None => Seq::empty(),
    }) + resent(mode, after));
}

/// A checkpoint resumes from what came before the run's end, and reads nothing
/// of what stands behind it.
pub proof fn a_checkpoint_ends_where_the_run_did(
    before: Seq<RowModel>,
    end: RowModel,
    after: Seq<RowModel>,
)
    requires
        end.kind == "run_error"@ || end.kind == "run_interrupted"@ || end.kind == "run_end"@,
        forall|i: int| 0 <= i < before.len() ==> !ends_run((#[trigger] before[i]).kind),
    ensures
        resent(RetryMode::FromCheckpoint, before + seq![end] + after) == resent(
            RetryMode::FromCheckpoint,
            before,
        ),
{
    reveal_strlit("environments");
    reveal_strlit("input");
    reveal_strlit("message");
    reveal_strlit("run_end");
    reveal_strlit("run_error");
    reveal_strlit("run_interrupted");
    assert("environments"@.len() == 12 && "input"@.len() == 5 && "message"@.len() == 7);
    assert("run_end"@.len() == 7 && "run_error"@.len() == 9 && "run_interrupted"@.len() == 15);
    assert("message"@[0] == 'm' && "run_end"@[0] == 'r');
    let mode = RetryMode::FromCheckpoint;
    let rest = seq![end] + after;
    assert(before + seq![end] + after =~= before + rest);
    lemma_resent_together(before, rest, mode);
    assert(rest[0] == end);
    assert(resent(mode, rest) =~= Seq::empty());
    assert(resent(mode, before) + Seq::empty() =~= resent(mode, before));
}

/// What is told of a run's rows is their kinds and their payloads, one by one
/// and in order.
pub proof fn a_row_says_what_it_holds(rows: Seq<Transcript>, i: int)
    requires
        0 <= i < rows.len(),
    ensures
        rows_of(rows).len() == rows.len(),
        rows_of(rows)[i].kind == rows[i].kind@,
        rows_of(rows)[i].payload == rows[i].payload@,
{
}

} // verus!
