//! Commands, and how they end.
use vstd::prelude::*;
use crate::environment::path::RootedPath;

verus! {

/// What a process can be told.
#[derive(Debug, Clone, Copy, PartialEq, Eq, Structural)]
pub enum Signal {
    Hangup,
    Interrupt,
    Quit,
    Kill,
    Term,
}

impl Signal {
    /// The signal's number.
    pub open spec fn code(self) -> int {
        match self {
            Signal::Hangup => 1,
            Signal::Interrupt => 2,
            Signal::Quit => 3,
            Signal::Kill => 9,
            Signal::Term => 15,
        }
    }

    pub fn number(&self) -> (r: i32)
        ensures
            r == self.code(),
    {
        match self {
            Signal::Hangup => 1,
            Signal::Interrupt => 2,
            Signal::Quit => 3,
            Signal::Kill => 9,
            Signal::Term => 15,
        }
    }

    pub fn from_number(number: i32) -> (r: Option<Signal>)
        ensures
            match r {
                Some(signal) => signal.code() == number,
                None => forall|signal: Signal| #[trigger] signal.code() != number,
            },
    {
        match number {
            1 => Some(Signal::Hangup),
            2 => Some(Signal::Interrupt),
            3 => Some(Signal::Quit),
            9 => Some(Signal::Kill),
            15 => Some(Signal::Term),
            _ => None,
        }
    }
}

/// How a command ended. A nonzero code and a timeout are results, not faults.
#[derive(Debug, Clone, Copy, PartialEq, Eq, Structural)]
pub enum Outcome {
    Completed { code: i32 },
    Signaled { signal: Signal },
    TimedOut,
}

/// How a reaped process ended, given the signal that ended it and the code it
/// left: one that neither names a known signal nor left a code is told as -1.
pub fn outcome_of(signal: Option<i32>, code: Option<i32>) -> (r: Outcome)
    ensures
        match r {
            Outcome::Signaled { signal: s } => signal == Some(s.code() as i32),
            Outcome::Completed { code: c } => (signal matches Some(n) ==> forall|s: Signal|
                #[trigger] s.code() != n) && c == match code {
                Some(value) => value,
                None => -1i32,
            },
            Outcome::TimedOut => false,
        },
{
    if let Some(number) = signal {
        if let Some(known) = Signal::from_number(number) {
            return Outcome::Signaled { signal: known };
        }
    }
    Outcome::Completed {
        code: match code {
            Some(value) => value,
            None => -1,
        },
    }
}

/// What is to be run on a target.
#[derive(Debug)]
pub struct Exec {
    pub command: String,
    /// The directory to run in; the target's root where it is left out.
    pub cwd: Option<RootedPath>,
    pub env: Vec<(String, String)>,
    pub stdin: Option<Vec<u8>>,
    pub timeout_ms: u64,
}

/// What a transport is handed to run.
#[derive(Debug)]
pub struct Run {
    pub argv: Vec<String>,
    pub cwd: String,
    pub env: Vec<(String, String)>,
    pub pty: bool,
}

/// How far a background process's output was read.
#[derive(Debug, Clone, Copy, PartialEq, Eq, Structural)]
pub struct Cursor {
    pub stdout: u64,
    pub stderr: u64,
}

/// Signals go by the numbers that systems know them by, each by its own.
pub proof fn signals_go_by_their_numbers(a: Signal, b: Signal)
    ensures
        a.code() == b.code() ==> a == b,
        Signal::Hangup.code() == 1 && Signal::Interrupt.code() == 2 && Signal::Quit.code() == 3
            && Signal::Kill.code() == 9 && Signal::Term.code() == 15,
{
}

} // verus!
