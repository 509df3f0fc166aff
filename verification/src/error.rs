//! What can go wrong, and whose fault it is.
//!
//! A [`Denial`] is about the request and the caller repairs it; an unreachable
//! machine is about the world and the caller retries. [`AppError`] is what a
//! request is answered with.
use vstd::prelude::*;
use crate::text::{decimal, decimal_of, join2, join3, join4, join5};

verus! {

/// What a bound target can be asked to do.
#[derive(Debug, Clone, Copy, PartialEq, Eq, Structural)]
pub enum Capability {
    Exec,
    Background,
    Stdin,
    Pty,
    Read,
    Write,
    Edit,
    Patch,
    List,
}

impl Capability {
    pub open spec fn name(self) -> Seq<char> {
        match self {
            Capability::Exec => "exec"@,
            Capability::Background => "background"@,
            Capability::Stdin => "stdin"@,
            Capability::Pty => "pty"@,
            Capability::Read => "read"@,
            Capability::Write => "write"@,
            Capability::Edit => "edit"@,
            Capability::Patch => "patch"@,
            Capability::List => "list"@,
        }
    }

    pub fn as_str(&self) -> (r: &'static str)
        ensures
            r@ == self.name(),
    {
        match self {
            Capability::Exec => "exec",
            Capability::Background => "background",
            Capability::Stdin => "stdin",
            Capability::Pty => "pty",
            Capability::Read => "read",
            Capability::Write => "write",
            Capability::Edit => "edit",
            Capability::Patch => "patch",
            Capability::List => "list",
        }
    }
}

/// A refusal that stays a refusal until the request changes.
#[derive(Debug)]
pub enum Denial {
    NotFound { path: String },
    Malformed { what: String, reason: String },
    PathEscape { path: String, reason: String },
    EditRefused { path: String, reason: String },
    OutOfRange { path: String, offset: u64, len: u64 },
    BadPattern { pattern: String, reason: String },
    NoSuchProcess(u64),
    MissingCapability(Capability),
}

/// What a [`Denial`] says.
pub enum DenialModel {
    NotFound { path: Seq<char> },
    Malformed { what: Seq<char>, reason: Seq<char> },
    PathEscape { path: Seq<char>, reason: Seq<char> },
    EditRefused { path: Seq<char>, reason: Seq<char> },
    OutOfRange { path: Seq<char>, offset: u64, len: u64 },
    BadPattern { pattern: Seq<char>, reason: Seq<char> },
    NoSuchProcess(u64),
    MissingCapability(Capability),
}

impl View for Denial {
    type V = DenialModel;

    open spec fn view(&self) -> DenialModel {
        match *self {
            Denial::NotFound { path } => DenialModel::NotFound { path: path@ },
            Denial::Malformed { what, reason } => DenialModel::Malformed {
                what: what@,
                reason: reason@,
            },
            Denial::PathEscape { path, reason } => DenialModel::PathEscape {
                path: path@,
                reason: reason@,
            },
            Denial::EditRefused { path, reason } => DenialModel::EditRefused {
                path: path@,
                reason: reason@,
            },
            Denial::OutOfRange { path, offset, len } => DenialModel::OutOfRange {
                path: path@,
                offset,
                len,
            },
            Denial::BadPattern { pattern, reason } => DenialModel::BadPattern {
                pattern: pattern@,
                reason: reason@,
            },
            Denial::NoSuchProcess(id) => DenialModel::NoSuchProcess(id),
            Denial::MissingCapability(capability) => DenialModel::MissingCapability(capability),
        }
    }
}

impl DenialModel {
    /// The sentence a denial is told in.
    pub open spec fn sentence(self) -> Seq<char> {
        match self {
            DenialModel::NotFound { path } => "`"@ + path + "` was not found"@,
            DenialModel::Malformed { what, reason } => "malformed "@ + what + ": "@ + reason,
            DenialModel::PathEscape { path, reason } => "`"@ + path + "` "@ + reason,
            DenialModel::EditRefused { path, reason } => "`"@ + path + "` was not edited: "@
                + reason,
            DenialModel::OutOfRange { path, offset, len } => {
                "`"@ + path + "` has "@ + decimal(len as nat) + " lines; line "@ + (decimal(
                    offset as nat,
                ) + " is past its end"@)
            },
            DenialModel::BadPattern { pattern, reason } => "bad pattern `"@ + pattern + "`: "@
                + reason,
            DenialModel::NoSuchProcess(id) => "no process "@ + decimal(id as nat),
            DenialModel::MissingCapability(capability) => "this target cannot "@
                + capability.name(),
        }
    }
}

impl Denial {
    /// The denial as a sentence.
    pub fn describe(&self) -> (r: String)
        ensures
            r@ == self@.sentence(),
    {
        match self {
            Denial::NotFound { path } => join3("`", path.as_str(), "` was not found"),
            Denial::Malformed { what, reason } => {
                join4("malformed ", what.as_str(), ": ", reason.as_str())
            },
            Denial::PathEscape { path, reason } => {
                join4("`", path.as_str(), "` ", reason.as_str())
            },
            Denial::EditRefused { path, reason } => {
                join4("`", path.as_str(), "` was not edited: ", reason.as_str())
            },
            Denial::OutOfRange { path, offset, len } => {
                let size = decimal_of(*len);
                let at = join2(decimal_of(*offset).as_str(), " is past its end");
                let head = join5("`", path.as_str(), "` has ", size.as_str(), " lines; line ");
                join2(head.as_str(), at.as_str())
            },
            Denial::BadPattern { pattern, reason } => {
                join4("bad pattern `", pattern.as_str(), "`: ", reason.as_str())
            },
            Denial::NoSuchProcess(id) => join2("no process ", decimal_of(*id).as_str()),
            Denial::MissingCapability(capability) => {
                join2("this target cannot ", capability.as_str())
            },
        }
    }
}

/// Why an operation on a machine did not happen.
#[derive(Debug)]
pub enum Fault {
    Denied(Denial),
    Unreachable(String),
}

/// What a [`Fault`] says.
pub enum FaultModel {
    Denied(DenialModel),
    Unreachable(Seq<char>),
}

impl View for Fault {
    type V = FaultModel;

    open spec fn view(&self) -> FaultModel {
        match *self {
            Fault::Denied(denial) => FaultModel::Denied(denial@),
            Fault::Unreachable(reason) => FaultModel::Unreachable(reason@),
        }
    }
}

impl FaultModel {
    /// The sentence a fault is told in.
    pub open spec fn sentence(self) -> Seq<char> {
        match self {
            FaultModel::Denied(denial) => denial.sentence(),
            FaultModel::Unreachable(reason) => reason,
        }
    }
}

impl Fault {
    /// The fault as a sentence.
    pub fn describe(&self) -> (r: String)
        ensures
            r@ == self@.sentence(),
    {
        match self {
            Fault::Denied(denial) => denial.describe(),
            Fault::Unreachable(reason) => reason.clone(),
        }
    }
}

/// What a request is answered with when it is not answered.
#[derive(Debug)]
pub enum AppError {
    BadRequest(String),
    Unauthorized(String),
    NotFound,
    Conflict(String),
    ServiceUnavailable(String),
    BadGateway(String),
    Harness(String),
    /// A database failure, under the name of the place it happened.
    Database(String),
    Internal,
}

/// What an [`AppError`] says.
pub enum ErrorModel {
    BadRequest(Seq<char>),
    Unauthorized(Seq<char>),
    NotFound,
    Conflict(Seq<char>),
    ServiceUnavailable(Seq<char>),
    BadGateway(Seq<char>),
    Harness(Seq<char>),
    Database(Seq<char>),
    Internal,
}

impl View for AppError {
    type V = ErrorModel;

    open spec fn view(&self) -> ErrorModel {
        match *self {
            AppError::BadRequest(text) => ErrorModel::BadRequest(text@),
            AppError::Unauthorized(text) => ErrorModel::Unauthorized(text@),
            AppError::NotFound => ErrorModel::NotFound,
            AppError::Conflict(text) => ErrorModel::Conflict(text@),
            AppError::ServiceUnavailable(text) => ErrorModel::ServiceUnavailable(text@),
            AppError::BadGateway(text) => ErrorModel::BadGateway(text@),
            AppError::Harness(text) => ErrorModel::Harness(text@),
            AppError::Database(text) => ErrorModel::Database(text@),
            AppError::Internal => ErrorModel::Internal,
        }
    }
}

/// A `BadRequest` with a fixed text.
pub fn bad_request(text: &str) -> (r: AppError)
    ensures
        r@ == ErrorModel::BadRequest(text@),
{
    AppError::BadRequest(text.to_owned())
}

/// The error a result carries, if it carries one.
pub open spec fn refusal<T>(r: Result<T, AppError>) -> Option<ErrorModel> {
    match r {
        Ok(_) => None,
        Err(e) => Some(e@),
    }
}

/// The fault a result carries, if it carries one.
pub open spec fn faulted<T>(r: Result<T, Fault>) -> Option<FaultModel> {
    match r {
        Ok(_) => None,
        Err(e) => Some(e@),
    }
}

/// A denial says what it holds, each part in its place.
pub proof fn a_denial_says_what_it_holds(a: String, b: String, offset: u64, len: u64)
    ensures
        (Denial::NotFound { path: a })@ == (DenialModel::NotFound { path: a@ }),
        (Denial::Malformed { what: a, reason: b })@ == (DenialModel::Malformed {
            what: a@,
            reason: b@,
        }),
        (Denial::PathEscape { path: a, reason: b })@ == (DenialModel::PathEscape {
            path: a@,
            reason: b@,
        }),
        (Denial::EditRefused { path: a, reason: b })@ == (DenialModel::EditRefused {
            path: a@,
            reason: b@,
        }),
        (Denial::OutOfRange { path: a, offset, len })@ == (DenialModel::OutOfRange {
            path: a@,
            offset,
            len,
        }),
        (Denial::BadPattern { pattern: a, reason: b })@ == (DenialModel::BadPattern {
            pattern: a@,
            reason: b@,
        }),
        Denial::NoSuchProcess(offset)@ == DenialModel::NoSuchProcess(offset),
{
}

/// An error is told in the text it was made with, and a fault in its reason or
/// its denial.
pub proof fn an_error_says_what_it_holds(text: String, denial: Denial)
    ensures
        AppError::BadRequest(text)@ == ErrorModel::BadRequest(text@),
        AppError::Unauthorized(text)@ == ErrorModel::Unauthorized(text@),
        AppError::Conflict(text)@ == ErrorModel::Conflict(text@),
        AppError::ServiceUnavailable(text)@ == ErrorModel::ServiceUnavailable(text@),
        AppError::BadGateway(text)@ == ErrorModel::BadGateway(text@),
        AppError::Harness(text)@ == ErrorModel::Harness(text@),
        AppError::Database(text)@ == ErrorModel::Database(text@),
        AppError::NotFound@ == ErrorModel::NotFound,
        AppError::Internal@ == ErrorModel::Internal,
        Fault::Denied(denial)@ == FaultModel::Denied(denial@),
        Fault::Unreachable(text)@ == FaultModel::Unreachable(text@),
        Fault::Unreachable(text)@.sentence() == text@,
        Fault::Denied(denial)@.sentence() == denial@.sentence(),
        refusal(Err::<(), AppError>(AppError::BadRequest(text))) == Some(
            ErrorModel::BadRequest(text@),
        ),
        refusal(Ok::<(), AppError>(())) is None,
        faulted(Err::<(), Fault>(Fault::Unreachable(text))) == Some(
            FaultModel::Unreachable(text@),
        ),
        faulted(Ok::<(), Fault>(())) is None,
{
}

/// The sentence of a denial names what it is about and why.
pub proof fn a_sentence_names_what_it_is_about(
    path: Seq<char>,
    reason: Seq<char>,
    offset: u64,
    len: u64,
)
    ensures
        (DenialModel::NotFound { path }).sentence() == "`"@ + path + "` was not found"@,
        (DenialModel::Malformed { what: path, reason }).sentence() == "malformed "@ + path + ": "@
            + reason,
        (DenialModel::PathEscape { path, reason }).sentence() == "`"@ + path + "` "@ + reason,
        (DenialModel::EditRefused { path, reason }).sentence() == "`"@ + path
            + "` was not edited: "@ + reason,
        (DenialModel::OutOfRange { path, offset, len }).sentence() == "`"@ + path + "` has "@
            + decimal(len as nat) + " lines; line "@ + decimal(offset as nat)
            + " is past its end"@,
        (DenialModel::BadPattern { pattern: path, reason }).sentence() == "bad pattern `"@ + path
            + "`: "@ + reason,
        DenialModel::NoSuchProcess(len).sentence() == "no process "@ + decimal(len as nat),
{
    assert((DenialModel::OutOfRange { path, offset, len }).sentence() =~= "`"@ + path + "` has "@
        + decimal(len as nat) + " lines; line "@ + decimal(offset as nat)
        + " is past its end"@);
}

/// Each capability goes by its own name.
pub proof fn a_capability_goes_by_its_name(a: Capability, b: Capability)
    ensures
        a.name() == b.name() ==> a == b,
        Capability::Exec.name() == "exec"@ && Capability::Background.name() == "background"@,
        Capability::Stdin.name() == "stdin"@ && Capability::Pty.name() == "pty"@,
        Capability::Read.name() == "read"@ && Capability::Write.name() == "write"@,
        Capability::Edit.name() == "edit"@ && Capability::Patch.name() == "patch"@,
        Capability::List.name() == "list"@,
{
    reveal_strlit("exec");
    reveal_strlit("background");
    reveal_strlit("stdin");
    reveal_strlit("pty");
    reveal_strlit("read");
    reveal_strlit("write");
    reveal_strlit("edit");
    reveal_strlit("patch");
    reveal_strlit("list");
    assert("exec"@[1] == 'x' && "background"@[0] == 'b' && "stdin"@[0] == 's' && "pty"@[1] == 't'
        && "read"@[0] == 'r' && "write"@[0] == 'w' && "edit"@[1] == 'd' && "patch"@[1] == 'a'
        && "list"@[0] == 'l' && "exec"@[0] == 'e' && "pty"@[0] == 'p' && "edit"@[0] == 'e'
        && "patch"@[0] == 'p');
}

} // verus!
