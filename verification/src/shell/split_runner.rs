//! A command runner that executes each step on its own and keeps every
//! intermediate output.
use crate::rura::Rura;
use crate::shell::cmd_runner::{CmdResult, CmdRunner, OkOutput};
use crate::shell::exec::{clock_duration, clock_measured, clock_now, nanos_since, Exec, RunError, StepTiming};
use crate::shell::output::{outcome_of, ExecCall, ExecOutput, OutcomeModel};
use crate::text::strings_view;
use vstd::prelude::*;

verus! {

/// Runs the steps of a command one by one, each on the output of the one
/// before.
pub struct SplitCmdRunner<E> {
    pub executor: E,
    pub stdin: Vec<u8>,
    /// Every attempt to run a command so far, in order.
    pub executions: Ghost<Seq<ExecCall>>,
}

/// `calls` are executions of the first steps of `t`, in order: the first
/// on `stdin`, each next one on what the one before printed.
pub open spec fn chained(calls: Seq<ExecCall>, stdin: Seq<u8>, t: Seq<Seq<char>>) -> bool {
    &&& calls.len() <= t.len()
    &&& forall|j: int| 0 <= j < calls.len() ==> (#[trigger] calls[j]).command == t[j]
    &&& calls.len() > 0 ==> calls[0].input == stdin
    &&& forall|j: int| 0 < j < calls.len() ==> calls[j - 1].outcome == OutcomeModel::Success((#[trigger] calls[j]).input)
}

/// `res` is what the executions `calls` of the steps of `t` on `stdin` gave:
/// one output per step that succeeded, in order, and, when a step failed,
/// its standard error and exit code, with no step after it run.
pub open spec fn split_ran_as(res: CmdResult, calls: Seq<ExecCall>, stdin: Seq<u8>, t: Seq<Seq<char>>) -> bool {
    let ok = res.ok_outputs@;
    &&& chained(calls, stdin, t)
    &&& calls.len() == ok.len() + if res.error_output is Some { 1int } else { 0int }
    &&& forall|j: int|
        0 <= j < ok.len() ==> {
            &&& calls[j].outcome == OutcomeModel::Success((#[trigger] ok[j]).bytes@)
            &&& ok[j].command@ == t[j]
            &&& (ok[j].duration matches Some(d) && clock_duration(d))
        }
    &&& match res.error_output {
        None => ok.len() == t.len(),
        Some((b, code)) => calls.last().outcome == OutcomeModel::Failure(b@, code),
    }
}

/// How a run of the steps of `t` on `stdin` that gave up ended: its
/// executions `calls` were in order, all but the last succeeded, and the
/// last could not be started (`RunError::Exec`, with its message) or ran
/// (`RunError::Clock`).
pub open spec fn split_gave_up(e: RunError, calls: Seq<ExecCall>, stdin: Seq<u8>, t: Seq<Seq<char>>) -> bool {
    &&& chained(calls, stdin, t)
    &&& calls.len() >= 1
    &&& forall|j: int| 0 <= j < calls.len() - 1 ==> (#[trigger] calls[j]).outcome is Success
    &&& match e {
        RunError::Exec(m) => calls.last().outcome == OutcomeModel::NotStarted(m@),
        RunError::Clock => !(calls.last().outcome is NotStarted),
    }
}

/// The input of the next step: the runner's input before the first step, the
/// previous step's output after it.
pub open spec fn split_input(stdin: Seq<u8>, outputs: Seq<OkOutput>) -> Seq<u8> {
    if outputs.len() == 0 {
        stdin
    } else {
        outputs.last().bytes@
    }
}

impl<E: Exec> SplitCmdRunner<E> {
    pub fn new(exec: E, stdin: Vec<u8>) -> (r: Self)
        ensures
            r.executor == exec,
            r.stdin@ == stdin@,
            r.executions@.len() == 0,
    {
        SplitCmdRunner { executor: exec, stdin, executions: Ghost(Seq::empty()) }
    }

    /// The input of the step after `outputs`.
    pub fn input_after<'a>(&'a self, outputs: &'a Vec<OkOutput>) -> (r: &'a Vec<u8>)
        ensures
            r@ == split_input(self.stdin@, outputs@),
    {
        if outputs.len() == 0 {
            &self.stdin
        } else {
            &outputs[outputs.len() - 1].bytes
        }
    }
}

/// Takes what executing step `command` gave, in `duration` nanoseconds: a
/// success adds its output to `outputs` and gives `None`; a failure leaves
/// `outputs` as they are and gives its standard error and exit code.
pub fn record_step(outputs: &mut Vec<OkOutput>, command: String, output: ExecOutput, duration: u128) -> (failure: Option<(Vec<u8>, Option<i32>)>)
    ensures
        match output {
            ExecOutput::Success(b) => {
                &&& failure is None
                &&& final(outputs)@.len() == old(outputs)@.len() + 1
                &&& final(outputs)@.take(old(outputs)@.len() as int) == old(outputs)@
                &&& final(outputs)@.last().command == command
                &&& final(outputs)@.last().bytes == b
                &&& final(outputs)@.last().duration == Some(duration)
            },
            ExecOutput::Failure(b, c) => {
                &&& failure == Some((b, c))
                &&& final(outputs)@ == old(outputs)@
            },
        },
{
    match output {
        ExecOutput::Success(bytes) => {
            outputs.push(OkOutput { command, bytes, duration: Some(duration) });
            assert(outputs@.take(old(outputs)@.len() as int) =~= old(outputs)@);
            None
        },
        ExecOutput::Failure(bytes, code) => Some((bytes, code)),
    }
}

impl<E: Exec> CmdRunner for SplitCmdRunner<E> {
    /// An empty command gives the input itself as the only output. Otherwise
    /// each trimmed step is executed in order until one fails; the outputs
    /// of the steps before it are kept, and its standard error and exit code
    /// are the result's error.
    fn run(&mut self, command: &Rura) -> (r: Result<CmdResult, RunError>)
        ensures
            final(self).executor == old(self).executor,
            final(self).stdin == old(self).stdin,
            final(self).executions@.len() >= old(self).executions@.len(),
            final(self).executions@.take(old(self).executions@.len() as int) == old(self).executions@,
            ({
                let calls = final(self).executions@.skip(old(self).executions@.len() as int);
                if command.steps@.len() == 0 {
                    &&& calls.len() == 0
                    &&& r matches Ok(res) && res.stdin@ == old(self).stdin@ && res.ok_outputs@.len() == 1
                        && res.ok_outputs@[0].bytes@ == old(self).stdin@ && res.ok_outputs@[0].command@.len() == 0
                        && res.ok_outputs@[0].duration is None && res.error_output is None
                } else {
                    match r {
                        Ok(res) => {
                            &&& res.stdin@ == old(self).stdin@
                            &&& split_ran_as(res, calls, old(self).stdin@, command.trimmed_view())
                        },
                        Err(e) => split_gave_up(e, calls, old(self).stdin@, command.trimmed_view()),
                    }
                }
            }),
    {
        let ghost log0 = self.executions@;
        proof {
            assert(self.executions@.take(log0.len() as int) =~= log0);
            assert(self.executions@.skip(log0.len() as int) =~= Seq::<ExecCall>::empty());
        }
        if command.is_empty() {
            let mut ok_outputs: Vec<OkOutput> = Vec::new();
            let bytes = self.stdin.clone();
            assert(bytes@ =~= self.stdin@);
            ok_outputs.push(OkOutput { command: String::new(), bytes, duration: None });
            let stdin = self.stdin.clone();
            assert(stdin@ =~= self.stdin@);
            return Ok(CmdResult { stdin, ok_outputs, error_output: None });
        }
        let started = clock_now();
        let t = command.trimmed();
        assert(strings_view(t@) =~= command.trimmed_view());
        let ghost tv = command.trimmed_view();
        let mut outputs: Vec<OkOutput> = Vec::new();
        let mut i: usize = 0;
        while i < t.len()
            invariant
                t@.len() == command.steps@.len(),
                strings_view(t@) == tv,
                tv == command.trimmed_view(),
                i <= t@.len(),
                outputs@.len() == i,
                forall|j: int|
                    0 <= j < i ==> (#[trigger] outputs@[j]).command@ == t@[j]@ && (outputs@[j].duration matches Some(d) && clock_duration(d)),
                self.stdin == old(self).stdin,
                self.executor == old(self).executor,
                log0 == old(self).executions@,
                self.executions@.len() == log0.len() + i,
                self.executions@.take(log0.len() as int) == log0,
                chained(self.executions@.skip(log0.len() as int), self.stdin@, tv),
                forall|j: int|
                    0 <= j < i ==> self.executions@.skip(log0.len() as int)[j].outcome == OutcomeModel::Success(
                        (#[trigger] outputs@[j]).bytes@,
                    ),
            decreases t@.len() - i,
        {
            let ghost done = self.executions@.skip(log0.len() as int);
            let step_started = clock_now();
            let answer = self.executor.exec(&t[i], self.input_after(&outputs));
            let ghost call = ExecCall {
                command: t@[i as int]@,
                input: split_input(self.stdin@, outputs@),
                outcome: outcome_of(answer),
            };
            self.executions = Ghost(self.executions@.push(call));
            let ghost calls = self.executions@.skip(log0.len() as int);
            proof {
                assert(self.executions@.take(log0.len() as int) =~= log0);
                assert(calls =~= done.push(call));
                assert(strings_view(t@)[i as int] == t@[i as int]@);
                if i > 0 {
                    assert(outputs@.last() == outputs@[i - 1]);
                    assert(done[i - 1].outcome == OutcomeModel::Success(outputs@[i - 1].bytes@));
                }
                assert forall|j: int| 0 < j < calls.len() implies calls[j - 1].outcome == OutcomeModel::Success(
                    (#[trigger] calls[j]).input,
                ) by {
                    if j < i {
                        assert(calls[j] == done[j]);
                        assert(calls[j - 1] == done[j - 1]);
                    } else {
                        assert(calls[j - 1] == done[j - 1]);
                    }
                }
                assert(chained(calls, self.stdin@, tv));
                assert forall|j: int| 0 <= j < calls.len() - 1 implies (#[trigger] calls[j]).outcome is Success by {
                    assert(calls[j] == done[j]);
                    assert(done[j].outcome == OutcomeModel::Success(outputs@[j].bytes@));
                }
            }
            let output = match answer {
                Ok(o) => o,
                Err(e) => {
                    assert(split_gave_up(RunError::Exec(e), calls, self.stdin@, tv));
                    return Err(RunError::Exec(e));
                },
            };
            let duration = match nanos_since(&step_started) {
                Ok(d) => d,
                Err(e) => {
                    assert(split_gave_up(e, calls, self.stdin@, tv));
                    return Err(e);
                },
            };
            assert(clock_measured(StepTiming { started: step_started, nanos: duration }));
            let ghost before = outputs@;
            let step = t[i].clone();
            assert(step@ == t@[i as int]@);
            match record_step(&mut outputs, step, output, duration) {
                None => {
                    assert(outputs@[i as int] == outputs@.last());
                    assert(outputs@[i as int].command@ == t@[i as int]@);
                    assert forall|j: int| 0 <= j < i + 1 implies (#[trigger] outputs@[j]).command@ == t@[j]@
                        && (outputs@[j].duration matches Some(d) && clock_duration(d)) by {
                        if j < i {
                            assert(outputs@.take(i as int)[j] == outputs@[j]);
                            assert(before[j].command@ == t@[j]@);
                        }
                    }
                    assert forall|j: int| 0 <= j < i + 1 implies calls[j].outcome == OutcomeModel::Success(
                        (#[trigger] outputs@[j]).bytes@,
                    ) by {
                        if j < i {
                            assert(outputs@.take(i as int)[j] == outputs@[j]);
                            assert(calls[j] == done[j]);
                        }
                    }
                },
                Some((bytes, code)) => {
                    let stdin = self.stdin.clone();
                    assert(stdin@ =~= self.stdin@);
                    assert(strings_view(t@)[i as int] == t@[i as int]@);
                    let res = CmdResult { stdin, ok_outputs: outputs, error_output: Some((bytes, code)) };
                    assert forall|j: int| 0 <= j < res.ok_outputs@.len() implies {
                        &&& calls[j].outcome == OutcomeModel::Success((#[trigger] res.ok_outputs@[j]).bytes@)
                        &&& res.ok_outputs@[j].command@ == tv[j]
                        &&& (res.ok_outputs@[j].duration matches Some(d) && clock_duration(d))
                    } by {
                        assert(calls[j] == done[j]);
                    }
                    assert(split_ran_as(res, calls, self.stdin@, tv));
                    return Ok(res);
                },
            }
            i = i + 1;
        }
        let ghost calls = self.executions@.skip(log0.len() as int);
        if nanos_since(&started).is_err() {
            proof {
                assert(calls.len() == t@.len());
                assert forall|j: int| 0 <= j < calls.len() - 1 implies (#[trigger] calls[j]).outcome is Success by {
                    assert(calls[j].outcome == OutcomeModel::Success(outputs@[j].bytes@));
                }
                assert(calls.last() == calls[calls.len() - 1]);
                assert(calls[calls.len() - 1].outcome == OutcomeModel::Success(outputs@[calls.len() - 1].bytes@));
            }
            return Err(RunError::Clock);
        }
        let stdin = self.stdin.clone();
        assert(stdin@ =~= self.stdin@);
        let res = CmdResult { stdin, ok_outputs: outputs, error_output: None };
        proof {
            assert forall|j: int| 0 <= j < res.ok_outputs@.len() implies {
                &&& calls[j].outcome == OutcomeModel::Success((#[trigger] res.ok_outputs@[j]).bytes@)
                &&& res.ok_outputs@[j].command@ == tv[j]
                &&& (res.ok_outputs@[j].duration matches Some(d) && clock_duration(d))
            } by {
                assert(strings_view(t@)[j] == t@[j]@);
            }
        }
        Ok(res)
    }

    fn update_stdin(&mut self, stdin: Vec<u8>)
        ensures
            final(self).executor == old(self).executor,
            final(self).stdin@ == stdin@,
            final(self).executions == old(self).executions,
    {
        self.stdin = stdin;
    }
}

} // verus!
