//! What one executed command hands back.
use vstd::prelude::*;

verus! {

/// The outcome of running one command: its standard output when it
/// succeeded, or its standard error and exit code when it failed.
pub enum ExecOutput {
    Success(Vec<u8>),
    Failure(Vec<u8>, Option<i32>),
}

/// What an attempt to run a command gave, as plain values: its output, its
/// standard error and exit code, or why it could not be started.
pub enum OutcomeModel {
    Success(Seq<u8>),
    Failure(Seq<u8>, Option<i32>),
    NotStarted(Seq<char>),
}

/// The outcome of an attempt, as plain values.
pub open spec fn outcome_of(r: Result<ExecOutput, String>) -> OutcomeModel {
    match r {
        Ok(ExecOutput::Success(b)) => OutcomeModel::Success(b@),
        Ok(ExecOutput::Failure(b, code)) => OutcomeModel::Failure(b@, code),
        Err(m) => OutcomeModel::NotStarted(m@),
    }
}

/// One attempt to run a command: the command, its input and what it gave.
pub struct ExecCall {
    pub command: Seq<char>,
    pub input: Seq<u8>,
    pub outcome: OutcomeModel,
}

} // verus!
