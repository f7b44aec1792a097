//! The result of running a pipeline step by step.
use crate::rura::Rura;
use crate::shell::cached_runner::{cache_backed, CachedPipelineRunner};
use crate::shell::exec::{Exec, RunError};
use crate::text::{line_count, line_count_spec};
use vstd::prelude::*;

verus! {

/// Runs whole pipelines on an input that can be replaced.
pub trait PipelineRunner {
    /// Runs the steps of `rura` in order, each on the output of the one before.
    fn run(&mut self, rura: &Rura) -> Result<PipelineRun, RunError>;

    /// Replaces the input of the first step.
    fn update_stdin(&mut self, stdin: Vec<u8>);
}

/// Builds the pipeline runner.
pub struct PipelineRunners;

impl PipelineRunners {
    /// A caching runner on `stdin`; `no_cache` turns the cache off.
    pub fn new<E: Exec>(exec: E, stdin: Vec<u8>, no_cache: bool) -> (r: CachedPipelineRunner<E>)
        ensures
            r.executor == exec,
            r.stdin.bytes@ == stdin@,
            r.stdin.lines == line_count_spec(stdin@),
            r.cache@.len() == 0,
            r.use_cache == !no_cache,
            r.executions@.len() == 0,
            cache_backed(r.cache@, r.stdin.bytes@, r.executions@),
    {
        CachedPipelineRunner::new(exec, stdin, !no_cache)
    }
}

/// One second's thousandth, in nanoseconds.
pub const ONE_MILLISECOND_NANOS: u128 = 1_000_000u128;

/// A step that completed: the step's text, what it printed, how many lines
/// that is, how long it took (nanoseconds) and whether the output came from
/// the cache.
pub struct StepOutput {
    pub command: String,
    pub bytes: Vec<u8>,
    pub lines: usize,
    pub duration: u128,
    pub cached: bool,
}

impl StepOutput {
    pub fn new(command: String, bytes: Vec<u8>, duration: u128, cached: bool) -> (r: StepOutput)
        ensures
            r.command@ == command@,
            r.bytes@ == bytes@,
            r.lines == line_count_spec(bytes@),
            r.duration == duration,
            r.cached == cached,
    {
        let lines = line_count(bytes.as_slice());
        StepOutput { command, lines, bytes, duration, cached }
    }

    /// A field-by-field copy.
    pub fn duplicate(&self) -> (r: StepOutput)
        ensures
            r.command@ == self.command@,
            r.bytes@ == self.bytes@,
            r.lines == self.lines,
            r.duration == self.duration,
            r.cached == self.cached,
    {
        let bytes = self.bytes.clone();
        assert(bytes@ =~= self.bytes@);
        StepOutput {
            command: self.command.clone(),
            bytes,
            lines: self.lines,
            duration: self.duration,
            cached: self.cached,
        }
    }
}

/// The step that failed: its text, what it wrote to standard error, how many
/// lines that is, its exit code when it had one, and how long it took.
pub struct StepFailure {
    pub command: String,
    pub bytes: Vec<u8>,
    pub lines: usize,
    pub code: Option<i32>,
    pub duration: u128,
}

impl StepFailure {
    pub fn new(command: String, bytes: Vec<u8>, code: Option<i32>, duration: u128) -> (r: StepFailure)
        ensures
            r.command@ == command@,
            r.bytes@ == bytes@,
            r.lines == line_count_spec(bytes@),
            r.code == code,
            r.duration == duration,
    {
        let lines = line_count(bytes.as_slice());
        StepFailure { command, lines, bytes, code, duration }
    }
}

/// The input of the first step, with its line count.
pub struct Stdin {
    pub bytes: Vec<u8>,
    pub lines: usize,
}

impl Stdin {
    pub fn new(bytes: Vec<u8>) -> (r: Stdin)
        ensures
            r.bytes@ == bytes@,
            r.lines == line_count_spec(bytes@),
    {
        let lines = line_count(bytes.as_slice());
        Stdin { lines, bytes }
    }

    /// A field-by-field copy.
    pub fn duplicate(&self) -> (r: Stdin)
        ensures
            r.bytes@ == self.bytes@,
            r.lines == self.lines,
    {
        let bytes = self.bytes.clone();
        assert(bytes@ =~= self.bytes@);
        Stdin { bytes, lines: self.lines }
    }
}

impl Default for Stdin {
    fn default() -> (r: Stdin)
        ensures
            r.bytes@.len() == 0,
            r.lines == 0,
    {
        Stdin { bytes: Vec::new(), lines: 0 }
    }
}

/// A pipeline run: its input, the steps that completed, in order, and the
/// step that failed, if one did (the one after the last completed step).
pub struct PipelineRun {
    pub stdin: Stdin,
    pub steps: Vec<StepOutput>,
    pub failure: Option<StepFailure>,
}

/// Sum of the durations of the first `n` steps.
pub open spec fn durations_sum(steps: Seq<StepOutput>, n: int) -> int
    decreases n,
{
    if n <= 0 {
        0
    } else {
        durations_sum(steps, n - 1) + steps[n - 1].duration
    }
}

pub proof fn lemma_durations_sum_monotone(steps: Seq<StepOutput>, m: int, n: int)
    requires
        0 <= m <= n,
    ensures
        durations_sum(steps, m) <= durations_sum(steps, n),
    decreases n - m,
{
    if m < n {
        lemma_durations_sum_monotone(steps, m, n - 1);
    }
}

impl Default for PipelineRun {
    fn default() -> (r: PipelineRun)
        ensures
            r.stdin.bytes@.len() == 0,
            r.stdin.lines == 0,
            r.steps@.len() == 0,
            r.failure is None,
    {
        PipelineRun { stdin: Stdin { bytes: Vec::new(), lines: 0 }, steps: Vec::new(), failure: None }
    }
}

impl PipelineRun {
    /// A run that failed before any step, with `err` as the failed command's
    /// text, no output, and a duration of one millisecond.
    pub fn error(err: String, code: Option<i32>) -> (r: PipelineRun)
        ensures
            r.stdin.bytes@.len() == 0,
            r.stdin.lines == 0,
            r.steps@.len() == 0,
            r.failure matches Some(f) && f.command@ == err@ && f.bytes@.len() == 0 && f.lines == 0
                && f.code == code && f.duration == ONE_MILLISECOND_NANOS,
    {
        PipelineRun {
            stdin: Stdin { bytes: Vec::new(), lines: 0 },
            steps: Vec::new(),
            failure: Some(StepFailure::new(err, Vec::new(), code, ONE_MILLISECOND_NANOS)),
        }
    }

    /// A run that failed before any step, with `err` as what the failed
    /// command printed, an empty command text, and a duration of one
    /// millisecond.
    pub fn error_bytes(err: Vec<u8>, code: Option<i32>) -> (r: PipelineRun)
        ensures
            r.stdin.bytes@.len() == 0,
            r.stdin.lines == 0,
            r.steps@.len() == 0,
            r.failure matches Some(f) && f.command@.len() == 0 && f.bytes@ == err@
                && f.lines == line_count_spec(err@) && f.code == code
                && f.duration == ONE_MILLISECOND_NANOS,
    {
        PipelineRun {
            stdin: Stdin { bytes: Vec::new(), lines: 0 },
            steps: Vec::new(),
            failure: Some(StepFailure::new(String::new(), err, code, ONE_MILLISECOND_NANOS)),
        }
    }

    /// Total time of the completed steps, in nanoseconds.
    pub fn total_duration(&self) -> (d: u128)
        requires
            durations_sum(self.steps@, self.steps@.len() as int) <= u128::MAX,
        ensures
            d == durations_sum(self.steps@, self.steps@.len() as int),
    {
        let mut d: u128 = 0;
        let mut i: usize = 0;
        while i < self.steps.len()
            invariant
                i <= self.steps@.len(),
                d == durations_sum(self.steps@, i as int),
                durations_sum(self.steps@, self.steps@.len() as int) <= u128::MAX,
            decreases self.steps@.len() - i,
        {
            proof {
                lemma_durations_sum_monotone(self.steps@, i as int + 1, self.steps@.len() as int);
            }
            d = d + self.steps[i].duration;
            i = i + 1;
        }
        d
    }

    /// Whether no step failed.
    pub fn succeeded(&self) -> (b: bool)
        ensures
            b == (self.failure is None),
    {
        self.failure.is_none()
    }

    /// What each completed step printed, in order.
    pub fn step_bytes(&self) -> (r: Vec<Vec<u8>>)
        ensures
            r@.len() == self.steps@.len(),
            forall|i: int| 0 <= i < r@.len() ==> #[trigger] r@[i]@ == self.steps@[i].bytes@,
    {
        let mut r: Vec<Vec<u8>> = Vec::new();
        let mut i: usize = 0;
        while i < self.steps.len()
            invariant
                i <= self.steps@.len(),
                r@.len() == i,
                forall|j: int| 0 <= j < i ==> #[trigger] r@[j]@ == self.steps@[j].bytes@,
            decreases self.steps@.len() - i,
        {
            let b = self.steps[i].bytes.clone();
            assert(b@ =~= self.steps@[i as int].bytes@);
            r.push(b);
            i = i + 1;
        }
        r
    }

    /// What the failed step printed, with its exit code.
    pub fn failure_bytes(&self) -> (r: Option<(Vec<u8>, Option<i32>)>)
        ensures
            match self.failure {
                None => r is None,
                Some(f) => r matches Some((b, c)) && b@ == f.bytes@ && c == f.code,
            },
    {
        match &self.failure {
            None => None,
            Some(f) => {
                let b = f.bytes.clone();
                assert(b@ =~= f.bytes@);
                Some((b, f.code))
            },
        }
    }

    /// Index of the failed step: the number of steps that completed before it.
    pub fn failed_step_index(&self) -> (r: Option<usize>)
        ensures
            self.failure is Some ==> r == Some(self.steps@.len() as usize),
            self.failure is None ==> r is None,
    {
        if self.failure.is_some() {
            Some(self.steps.len())
        } else {
            None
        }
    }

    /// A run of one completed step, `test-cmd`, that printed `bytes` in one
    /// millisecond, on an empty input.
    pub fn from_bytes(bytes: Vec<u8>) -> (r: PipelineRun)
        ensures
            r.stdin.bytes@.len() == 0,
            r.stdin.lines == 0,
            r.steps@.len() == 1,
            r.steps@[0].command@ == "test-cmd"@,
            r.steps@[0].bytes@ == bytes@,
            r.steps@[0].lines == line_count_spec(bytes@),
            r.steps@[0].duration == ONE_MILLISECOND_NANOS,
            !r.steps@[0].cached,
            r.failure is None,
    {
        Self::from_bytes_with_stdin(bytes, Vec::new())
    }

    /// A run of one completed step, `test-cmd`, that printed `bytes` in one
    /// millisecond, on the input `stdin`.
    pub fn from_bytes_with_stdin(bytes: Vec<u8>, stdin: Vec<u8>) -> (r: PipelineRun)
        ensures
            r.stdin.bytes@ == stdin@,
            r.stdin.lines == line_count_spec(stdin@),
            r.steps@.len() == 1,
            r.steps@[0].command@ == "test-cmd"@,
            r.steps@[0].bytes@ == bytes@,
            r.steps@[0].lines == line_count_spec(bytes@),
            r.steps@[0].duration == ONE_MILLISECOND_NANOS,
            !r.steps@[0].cached,
            r.failure is None,
    {
        let command = "test-cmd";
        let mut steps: Vec<StepOutput> = Vec::new();
        steps.push(StepOutput::new(command.to_owned(), bytes, ONE_MILLISECOND_NANOS, false));
        PipelineRun { stdin: Stdin::new(stdin), steps, failure: None }
    }
}

} // verus!
