//! A pipeline runner that hands the whole pipeline to the shell as one
//! command.
use crate::rura::Rura;
use crate::shell::exec::{clock_duration, clock_measured, clock_now, nanos_since, Exec, RunError, StepTiming};
use crate::shell::output::{outcome_of, ExecCall, ExecOutput, OutcomeModel};
use crate::shell::pipeline_runner::{PipelineRun, PipelineRunner, Stdin, StepFailure, StepOutput};
use crate::text::{join_with_pipe, line_count_spec};
use vstd::prelude::*;

verus! {

/// Runs a pipeline as a single command: the steps joined by `|`.
pub struct SimplePipelineRunner<E> {
    pub executor: E,
    pub stdin: Stdin,
    /// Every attempt to run a command so far, in order.
    pub executions: Ghost<Seq<ExecCall>>,
}

/// `run` is the run of the single command `command` on `stdin` that gave
/// the outcome `outcome`: one completed step with its output, or the failure
/// with its output and exit code.
pub open spec fn single_run_of(run: PipelineRun, stdin: Stdin, command: Seq<char>, outcome: OutcomeModel) -> bool {
    &&& run.stdin.bytes@ == stdin.bytes@
    &&& run.stdin.lines == stdin.lines
    &&& match outcome {
        OutcomeModel::Success(bytes) => {
            &&& run.steps@.len() == 1
            &&& run.steps@[0].command@ == command
            &&& run.steps@[0].bytes@ == bytes
            &&& run.steps@[0].lines == line_count_spec(bytes)
            &&& !run.steps@[0].cached
            &&& run.failure is None
        },
        OutcomeModel::Failure(bytes, code) => {
            &&& run.steps@.len() == 0
            &&& run.failure matches Some(f) && f.command@ == command && f.bytes@ == bytes
                && f.lines == line_count_spec(bytes) && f.code == code
        },
        OutcomeModel::NotStarted(_) => false,
    }
}

/// The run of the single command `command` on `stdin` that gave `output` in
/// `duration` nanoseconds: one completed step, or the failure.
pub fn single_command_run(stdin: &Stdin, command: String, output: ExecOutput, duration: u128) -> (r: PipelineRun)
    ensures
        r.stdin.bytes@ == stdin.bytes@,
        r.stdin.lines == stdin.lines,
        match output {
            ExecOutput::Success(bytes) => {
                &&& r.steps@.len() == 1
                &&& r.steps@[0].command@ == command@
                &&& r.steps@[0].bytes@ == bytes@
                &&& r.steps@[0].lines == line_count_spec(bytes@)
                &&& r.steps@[0].duration == duration
                &&& !r.steps@[0].cached
                &&& r.failure is None
            },
            ExecOutput::Failure(bytes, code) => {
                &&& r.steps@.len() == 0
                &&& r.failure matches Some(f) && f.command@ == command@ && f.bytes@ == bytes@
                    && f.lines == line_count_spec(bytes@) && f.code == code && f.duration == duration
            },
        },
{
    match output {
        ExecOutput::Success(bytes) => {
            let mut steps: Vec<StepOutput> = Vec::new();
            steps.push(StepOutput::new(command, bytes, duration, false));
            PipelineRun { stdin: stdin.duplicate(), steps, failure: None }
        },
        ExecOutput::Failure(bytes, code) => PipelineRun {
            stdin: stdin.duplicate(),
            steps: Vec::new(),
            failure: Some(StepFailure::new(command, bytes, code, duration)),
        },
    }
}

impl<E: Exec> SimplePipelineRunner<E> {
    /// A runner on the input `stdin`.
    pub fn new(exec: E, stdin: Vec<u8>) -> (r: Self)
        ensures
            r.executor == exec,
            r.stdin.bytes@ == stdin@,
            r.stdin.lines == line_count_spec(stdin@),
            r.executions@.len() == 0,
    {
        SimplePipelineRunner { executor: exec, stdin: Stdin::new(stdin), executions: Ghost(Seq::empty()) }
    }
}

impl<E: Exec> PipelineRunner for SimplePipelineRunner<E> {
    /// An empty pipeline gives a run without steps; any other is executed as
    /// the one command `rura.to_string()` on the runner's input.
    fn run(&mut self, rura: &Rura) -> (r: Result<PipelineRun, RunError>)
        ensures
            final(self).executor == old(self).executor,
            final(self).stdin == old(self).stdin,
            rura.steps@.len() == 0 ==> {
                &&& final(self).executions == old(self).executions
                &&& r matches Ok(run) && run.stdin.bytes@ == old(self).stdin.bytes@ && run.stdin.lines
                    == old(self).stdin.lines && run.steps@.len() == 0 && run.failure is None
            },
            rura.steps@.len() > 0 ==> {
                let call = final(self).executions@.last();
                &&& final(self).executions@.len() == old(self).executions@.len() + 1
                &&& final(self).executions@.drop_last() == old(self).executions@
                &&& call.command == join_with_pipe(rura.steps_view())
                &&& call.input == old(self).stdin.bytes@
                &&& match call.outcome {
                    OutcomeModel::NotStarted(m) => r matches Err(RunError::Exec(e)) && e@ == m,
                    _ => match r {
                        Ok(run) => {
                            &&& single_run_of(run, old(self).stdin, call.command, call.outcome)
                            &&& run.steps@.len() == 1 ==> clock_duration(run.steps@[0].duration)
                            &&& run.failure matches Some(f) ==> clock_duration(f.duration)
                        },
                        Err(e) => e is Clock,
                    },
                }
            },
    {
        if rura.is_empty() {
            return Ok(PipelineRun { stdin: self.stdin.duplicate(), steps: Vec::new(), failure: None });
        }
        let started = clock_now();
        let command = rura.to_string();
        let answer = self.executor.exec(&command, &self.stdin.bytes);
        let ghost call = ExecCall { command: command@, input: self.stdin.bytes@, outcome: outcome_of(answer) };
        self.executions = Ghost(self.executions@.push(call));
        proof {
            assert(self.executions@.drop_last() =~= old(self).executions@);
        }
        let output = match answer {
            Ok(o) => o,
            Err(e) => {
                return Err(RunError::Exec(e));
            },
        };
        let duration = match nanos_since(&started) {
            Ok(d) => d,
            Err(e) => {
                return Err(e);
            },
        };
        assert(clock_measured(StepTiming { started, nanos: duration }));
        Ok(single_command_run(&self.stdin, command, output, duration))
    }

    fn update_stdin(&mut self, stdin: Vec<u8>)
        ensures
            final(self).executor == old(self).executor,
            final(self).stdin.bytes@ == stdin@,
            final(self).stdin.lines == line_count_spec(stdin@),
            final(self).executions == old(self).executions,
    {
        self.stdin = Stdin::new(stdin);
    }
}

} // verus!
