//! Results of running the steps of a command one by one, keeping every
//! intermediate output.
use crate::rura::Rura;
use crate::shell::exec::{Exec, RunError};
use crate::shell::pipeline_runner::ONE_MILLISECOND_NANOS;
use crate::shell::split_runner::SplitCmdRunner;
use crate::text::line_count_spec;
use vstd::prelude::*;
use vstd::string::*;
use vstd::utf8::encode_utf8;

verus! {

/// Runs the steps of a command, keeping each step's output.
pub trait CmdRunner {
    /// Runs the steps of `command` in order, each on the output of the one
    /// before.
    fn run(&mut self, command: &Rura) -> Result<CmdResult, RunError>;

    /// Replaces the input of the first step.
    fn update_stdin(&mut self, stdin: Vec<u8>);
}

/// Builds the step-by-step runner.
pub struct CmdRunners;

impl CmdRunners {
    /// A runner of the steps of commands on `stdin`. Intermediate outputs are
    /// kept in every result, so `_no_cache` changes nothing.
    pub fn new<E: Exec>(exec: E, stdin: Vec<u8>, _no_cache: bool) -> (r: SplitCmdRunner<E>)
        ensures
            r.executor == exec,
            r.stdin@ == stdin@,
            r.executions@.len() == 0,
    {
        SplitCmdRunner::new(exec, stdin)
    }
}

/// A step that completed: its text, what it printed, and how long it took
/// (nanoseconds) when that was measured.
pub struct OkOutput {
    pub command: String,
    pub bytes: Vec<u8>,
    pub duration: Option<u128>,
}

/// A step-by-step result: the input, the output of each completed step, and
/// the standard error and exit code of the step that failed, if one did.
pub struct CmdResult {
    pub stdin: Vec<u8>,
    pub ok_outputs: Vec<OkOutput>,
    pub error_output: Option<(Vec<u8>, Option<i32>)>,
}

/// A missing duration counts as zero.
pub open spec fn duration_or_zero(d: Option<u128>) -> int {
    match d {
        Some(x) => x as int,
        None => 0,
    }
}

/// Sum of the durations of the first `n` outputs.
pub open spec fn ok_durations_sum(outputs: Seq<OkOutput>, n: int) -> int
    decreases n,
{
    if n <= 0 {
        0
    } else {
        ok_durations_sum(outputs, n - 1) + duration_or_zero(outputs[n - 1].duration)
    }
}

pub proof fn lemma_ok_durations_sum_monotone(outputs: Seq<OkOutput>, m: int, n: int)
    requires
        0 <= m <= n,
    ensures
        ok_durations_sum(outputs, m) <= ok_durations_sum(outputs, n),
    decreases n - m,
{
    if m < n {
        lemma_ok_durations_sum_monotone(outputs, m, n - 1);
    }
}

impl CmdResult {
    /// A result with no input, no step and no failure.
    pub fn new() -> (r: CmdResult)
        ensures
            r.stdin@.len() == 0,
            r.ok_outputs@.len() == 0,
            r.error_output is None,
    {
        CmdResult { stdin: Vec::new(), ok_outputs: Vec::new(), error_output: None }
    }

    /// A result that failed before any step, with the message `err` as the
    /// failure's output.
    pub fn error(err: String, code: Option<i32>) -> (r: CmdResult)
        ensures
            r.stdin@.len() == 0,
            r.ok_outputs@.len() == 0,
            r.error_output matches Some((b, c)) && b@ == encode_utf8(err@) && c == code,
    {
        let bytes = err.as_str().as_bytes_vec();
        CmdResult { stdin: Vec::new(), ok_outputs: Vec::new(), error_output: Some((bytes, code)) }
    }

    /// A result that failed before any step, with `err` as the failure's
    /// output.
    pub fn error_bytes(err: Vec<u8>, code: Option<i32>) -> (r: CmdResult)
        ensures
            r.stdin@.len() == 0,
            r.ok_outputs@.len() == 0,
            r.error_output matches Some((b, c)) && b@ == err@ && c == code,
    {
        CmdResult { stdin: Vec::new(), ok_outputs: Vec::new(), error_output: Some((err, code)) }
    }

    /// Total time of the completed steps, in nanoseconds; a step without a
    /// measured duration counts as zero.
    pub fn total_duration(&self) -> (d: u128)
        requires
            ok_durations_sum(self.ok_outputs@, self.ok_outputs@.len() as int) <= u128::MAX,
        ensures
            d == ok_durations_sum(self.ok_outputs@, self.ok_outputs@.len() as int),
    {
        let mut d: u128 = 0;
        let mut i: usize = 0;
        while i < self.ok_outputs.len()
            invariant
                i <= self.ok_outputs@.len(),
                d == ok_durations_sum(self.ok_outputs@, i as int),
                ok_durations_sum(self.ok_outputs@, self.ok_outputs@.len() as int) <= u128::MAX,
            decreases self.ok_outputs@.len() - i,
        {
            proof {
                lemma_ok_durations_sum_monotone(self.ok_outputs@, i as int + 1, self.ok_outputs@.len() as int);
            }
            let step = match self.ok_outputs[i].duration {
                Some(x) => x,
                None => 0,
            };
            d = d + step;
            i = i + 1;
        }
        d
    }

    /// Whether no step failed.
    pub fn all_ok(&self) -> (b: bool)
        ensures
            b == (self.error_output is None),
    {
        self.error_output.is_none()
    }

    /// What each completed step printed, in order.
    pub fn ok_outputs(&self) -> (r: Vec<Vec<u8>>)
        ensures
            r@.len() == self.ok_outputs@.len(),
            forall|i: int| 0 <= i < r@.len() ==> #[trigger] r@[i]@ == self.ok_outputs@[i].bytes@,
    {
        let mut r: Vec<Vec<u8>> = Vec::new();
        let mut i: usize = 0;
        while i < self.ok_outputs.len()
            invariant
                i <= self.ok_outputs@.len(),
                r@.len() == i,
                forall|j: int| 0 <= j < i ==> #[trigger] r@[j]@ == self.ok_outputs@[j].bytes@,
            decreases self.ok_outputs@.len() - i,
        {
            let b = self.ok_outputs[i].bytes.clone();
            assert(b@ =~= self.ok_outputs@[i as int].bytes@);
            r.push(b);
            i = i + 1;
        }
        r
    }

    /// Index of the failed step: the number of steps that completed before it.
    pub fn failed_subcommand(&self) -> (r: Option<usize>)
        ensures
            self.error_output is Some ==> r == Some(self.ok_outputs@.len() as usize),
            self.error_output is None ==> r is None,
    {
        if self.error_output.is_some() {
            Some(self.ok_outputs.len())
        } else {
            None
        }
    }

    /// A result of one completed step, `test-cmd`, that printed `bytes` in
    /// one millisecond, on an empty input.
    pub fn from_bytes(bytes: Vec<u8>) -> (r: CmdResult)
        ensures
            r.stdin@.len() == 0,
            r.ok_outputs@.len() == 1,
            r.ok_outputs@[0].command@ == "test-cmd"@,
            r.ok_outputs@[0].bytes@ == bytes@,
            r.ok_outputs@[0].duration == Some(ONE_MILLISECOND_NANOS),
            r.error_output is None,
    {
        Self::from_bytes_with_stdin(bytes, Vec::new())
    }

    /// A result of one completed step, `test-cmd`, that printed `bytes` in
    /// one millisecond, on the input `stdin`.
    pub fn from_bytes_with_stdin(bytes: Vec<u8>, stdin: Vec<u8>) -> (r: CmdResult)
        ensures
            r.stdin@ == stdin@,
            r.ok_outputs@.len() == 1,
            r.ok_outputs@[0].command@ == "test-cmd"@,
            r.ok_outputs@[0].bytes@ == bytes@,
            r.ok_outputs@[0].duration == Some(ONE_MILLISECOND_NANOS),
            r.error_output is None,
    {
        let command = "test-cmd";
        let mut ok_outputs: Vec<OkOutput> = Vec::new();
        ok_outputs.push(OkOutput { command: command.to_owned(), bytes, duration: Some(ONE_MILLISECOND_NANOS) });
        CmdResult { stdin, ok_outputs, error_output: None }
    }
}

} // verus!
