use rura::rura::Rura;
use rura::shell::cached_runner::CachedPipelineRunner;
use rura::shell::cmd_runner::{CmdRunner, OkOutput};
use rura::shell::exec::{Exec, RunError};
use rura::shell::output::ExecOutput;
use rura::shell::pipeline_runner::PipelineRunner;
use rura::shell::simple_runner::SimplePipelineRunner;
use rura::shell::split_runner::{record_step, SplitCmdRunner};
use std::cell::RefCell;
use std::rc::Rc;

/// Prints "<command>-output"; a command containing "err" fails with code 1,
/// and one containing "missing" cannot be started.
struct MockExec {
    calls: Rc<RefCell<Vec<(String, String)>>>,
}

impl Exec for MockExec {
    fn exec(&self, command: &String, stdin: &Vec<u8>) -> Result<ExecOutput, String> {
        self.calls
            .borrow_mut()
            .push((command.clone(), String::from_utf8_lossy(stdin).into_owned()));
        if command.contains("missing") {
            return Err(format!("{command}: not found"));
        }
        let out = format!("{command}-output").into_bytes();
        if command.contains("err") {
            Ok(ExecOutput::Failure(out, Some(1)))
        } else {
            Ok(ExecOutput::Success(out))
        }
    }
}

fn mock() -> (MockExec, Rc<RefCell<Vec<(String, String)>>>) {
    let calls = Rc::new(RefCell::new(vec![]));
    (MockExec { calls: calls.clone() }, calls)
}

fn rura(steps: &[&str]) -> Rura {
    Rura::from(steps.iter().map(|s| s.to_string()).collect::<Vec<_>>())
}

fn as_strings(o: Vec<Vec<u8>>) -> Vec<String> {
    o.iter().map(|a| String::from_utf8_lossy(a).into_owned()).collect()
}

fn calls_of(v: &[(&str, &str)]) -> Vec<(String, String)> {
    v.iter().map(|(a, b)| (a.to_string(), b.to_string())).collect()
}

fn cached_runner(exec: MockExec, use_cache: bool) -> CachedPipelineRunner<MockExec> {
    CachedPipelineRunner::new(exec, "stdin".as_bytes().to_vec(), use_cache)
}

fn cache_no_duration(runner: &CachedPipelineRunner<MockExec>) -> Vec<(String, String)> {
    runner
        .cache
        .iter()
        .map(|e| (e.command.clone(), String::from_utf8_lossy(&e.bytes).into_owned()))
        .collect()
}

fn cache_entries(v: &[(&str, &str)]) -> Vec<(String, String)> {
    calls_of(v)
}

// ---- cached runner, with cache ----

#[test]
fn cached_runner_test_run_empty_command_cached() {
    let (exec, _calls) = mock();
    let mut runner = cached_runner(exec, true);
    let result = runner.run(&rura(&[])).ok().unwrap();
    assert_eq!(result.step_bytes(), Vec::<Vec<u8>>::new());
}

#[test]
fn cached_runner_test_runner_calling_three_subcommands() {
    let (exec, calls) = mock();
    let mut runner = cached_runner(exec, true);
    let result = runner.run(&rura(&["cmd1", "cmd2", "cmd3"])).ok().unwrap();
    assert_eq!(result.stdin.bytes, "stdin".as_bytes().to_vec());
    assert_eq!(as_strings(result.step_bytes()), vec!["cmd1-output", "cmd2-output", "cmd3-output"]);
    assert_eq!(
        *calls.borrow(),
        calls_of(&[("cmd1", "stdin"), ("cmd2", "cmd1-output"), ("cmd3", "cmd2-output")])
    );
    assert_eq!(
        cache_no_duration(&runner),
        cache_entries(&[("cmd1", "cmd1-output"), ("cmd2", "cmd2-output"), ("cmd3", "cmd3-output")])
    );
}

#[test]
fn cached_runner_test_runner_shorter_command() {
    let (exec, calls) = mock();
    let mut runner = cached_runner(exec, true);
    let _init_run = runner.run(&rura(&["cmd1", "cmd2", "cmd3"])).ok().unwrap();
    calls.borrow_mut().clear();

    let result = runner.run(&rura(&["cmd1"])).ok().unwrap();
    assert_eq!(result.stdin.bytes, "stdin".as_bytes().to_vec());
    assert_eq!(as_strings(result.step_bytes()), vec!["cmd1-output"]);
    assert_eq!(*calls.borrow(), vec![]);
    assert_eq!(
        cache_no_duration(&runner),
        cache_entries(&[("cmd1", "cmd1-output"), ("cmd2", "cmd2-output"), ("cmd3", "cmd3-output")])
    );
}

#[test]
fn cached_runner_test_runner_extended_command() {
    let (exec, calls) = mock();
    let mut runner = cached_runner(exec, true);
    let _init_run = runner.run(&rura(&["cmd1", "cmd2"])).ok().unwrap();
    calls.borrow_mut().clear();

    let result = runner.run(&rura(&["cmd1", "cmd2", "cmd3", "cmd4"])).ok().unwrap();
    assert_eq!(result.stdin.bytes, "stdin".as_bytes().to_vec());
    assert_eq!(
        as_strings(result.step_bytes()),
        vec!["cmd1-output", "cmd2-output", "cmd3-output", "cmd4-output"]
    );
    assert_eq!(*calls.borrow(), calls_of(&[("cmd3", "cmd2-output"), ("cmd4", "cmd3-output")]));
    assert_eq!(
        cache_no_duration(&runner),
        cache_entries(&[
            ("cmd1", "cmd1-output"),
            ("cmd2", "cmd2-output"),
            ("cmd3", "cmd3-output"),
            ("cmd4", "cmd4-output")
        ])
    );
}

#[test]
fn cached_runner_test_runner_modified_in_the_middle() {
    let (exec, calls) = mock();
    let mut runner = cached_runner(exec, true);
    let _init_run = runner.run(&rura(&["cmd1", "cmd2", "cmd3"])).ok().unwrap();
    calls.borrow_mut().clear();

    let result = runner.run(&rura(&["cmd1", "cmd2mod"])).ok().unwrap();
    assert_eq!(result.stdin.bytes, "stdin".as_bytes().to_vec());
    assert_eq!(as_strings(result.step_bytes()), vec!["cmd1-output", "cmd2mod-output"]);
    assert_eq!(*calls.borrow(), calls_of(&[("cmd2mod", "cmd1-output")]));
    assert_eq!(
        cache_no_duration(&runner),
        cache_entries(&[("cmd1", "cmd1-output"), ("cmd2mod", "cmd2mod-output")])
    );
}

#[test]
fn cached_runner_test_runner_modified_in_the_middle_and_extended() {
    let (exec, calls) = mock();
    let mut runner = cached_runner(exec, true);
    let _init_run = runner.run(&rura(&["cmd1", "cmd2", "cmd3"])).ok().unwrap();
    calls.borrow_mut().clear();

    let result = runner.run(&rura(&["cmd1", "cmd2mod", "cmd3"])).ok().unwrap();
    assert_eq!(result.stdin.bytes, "stdin".as_bytes().to_vec());
    assert_eq!(
        as_strings(result.step_bytes()),
        vec!["cmd1-output", "cmd2mod-output", "cmd3-output"]
    );
    assert_eq!(
        *calls.borrow(),
        calls_of(&[("cmd2mod", "cmd1-output"), ("cmd3", "cmd2mod-output")])
    );
    assert_eq!(
        cache_no_duration(&runner),
        cache_entries(&[
            ("cmd1", "cmd1-output"),
            ("cmd2mod", "cmd2mod-output"),
            ("cmd3", "cmd3-output")
        ])
    );
}

#[test]
fn cached_runner_test_runner_errors() {
    let (exec, calls) = mock();
    let mut runner = cached_runner(exec, true);
    let result = runner.run(&rura(&["cmd1", "cmd2err", "cmd3"])).ok().unwrap();
    assert_eq!(result.stdin.bytes, "stdin".as_bytes().to_vec());
    assert_eq!(as_strings(result.step_bytes()), vec!["cmd1-output"]);
    assert_eq!(result.failure_bytes(), Some(("cmd2err-output".as_bytes().to_vec(), Some(1))));
    assert_eq!(*calls.borrow(), calls_of(&[("cmd1", "stdin"), ("cmd2err", "cmd1-output")]));
    assert_eq!(cache_no_duration(&runner), cache_entries(&[("cmd1", "cmd1-output")]));
}

#[test]
fn cached_runner_test_runner_errors_clear_cache() {
    let (exec, calls) = mock();
    let mut runner = cached_runner(exec, true);
    let _init_run = runner.run(&rura(&["cmd1", "cmd2", "cmd3"])).ok().unwrap();
    calls.borrow_mut().clear();

    let result = runner.run(&rura(&["cmd1", "cmd2err", "cmd3"])).ok().unwrap();
    assert_eq!(result.stdin.bytes, "stdin".as_bytes().to_vec());
    assert_eq!(as_strings(result.step_bytes()), vec!["cmd1-output"]);
    assert_eq!(result.failure_bytes(), Some(("cmd2err-output".as_bytes().to_vec(), Some(1))));
    assert_eq!(*calls.borrow(), calls_of(&[("cmd2err", "cmd1-output")]));
    assert_eq!(cache_no_duration(&runner), cache_entries(&[("cmd1", "cmd1-output")]));
}

// ---- cached runner, without cache ----

#[test]
fn no_cache_test_run_empty_command() {
    let (exec, _calls) = mock();
    let mut runner = cached_runner(exec, false);
    let result = runner.run(&rura(&[])).ok().unwrap();
    assert_eq!(result.step_bytes(), Vec::<Vec<u8>>::new());
}

#[test]
fn no_cache_test_runner_calling_three_subcommands() {
    let (exec, calls) = mock();
    let mut runner = cached_runner(exec, false);
    let result = runner.run(&rura(&["cmd1", "cmd2", "cmd3"])).ok().unwrap();
    assert_eq!(result.stdin.bytes, "stdin".as_bytes().to_vec());
    assert_eq!(as_strings(result.step_bytes()), vec!["cmd1-output", "cmd2-output", "cmd3-output"]);
    assert_eq!(
        *calls.borrow(),
        calls_of(&[("cmd1", "stdin"), ("cmd2", "cmd1-output"), ("cmd3", "cmd2-output")])
    );
    assert!(runner.cache.is_empty());
}

#[test]
fn no_cache_test_runner_shorter_command() {
    let (exec, calls) = mock();
    let mut runner = cached_runner(exec, false);
    let _init_run = runner.run(&rura(&["cmd1", "cmd2", "cmd3"])).ok().unwrap();
    calls.borrow_mut().clear();
    let result = runner.run(&rura(&["cmd1"])).ok().unwrap();
    assert_eq!(result.stdin.bytes, "stdin".as_bytes().to_vec());
    assert_eq!(as_strings(result.step_bytes()), vec!["cmd1-output"]);
    assert_eq!(*calls.borrow(), calls_of(&[("cmd1", "stdin")]));
    assert!(runner.cache.is_empty());
}

#[test]
fn no_cache_test_runner_extended_command() {
    let (exec, calls) = mock();
    let mut runner = cached_runner(exec, false);
    let _init_run = runner.run(&rura(&["cmd1", "cmd2"])).ok().unwrap();
    calls.borrow_mut().clear();
    let result = runner.run(&rura(&["cmd1", "cmd2", "cmd3", "cmd4"])).ok().unwrap();
    assert_eq!(result.stdin.bytes, "stdin".as_bytes().to_vec());
    assert_eq!(
        as_strings(result.step_bytes()),
        vec!["cmd1-output", "cmd2-output", "cmd3-output", "cmd4-output"]
    );
    assert_eq!(
        *calls.borrow(),
        calls_of(&[
            ("cmd1", "stdin"),
            ("cmd2", "cmd1-output"),
            ("cmd3", "cmd2-output"),
            ("cmd4", "cmd3-output")
        ])
    );
    assert!(runner.cache.is_empty());
}

#[test]
fn no_cache_test_runner_modified_in_the_middle() {
    let (exec, calls) = mock();
    let mut runner = cached_runner(exec, false);
    let _init_run = runner.run(&rura(&["cmd1", "cmd2", "cmd3"])).ok().unwrap();
    calls.borrow_mut().clear();
    let result = runner.run(&rura(&["cmd1", "cmd2mod"])).ok().unwrap();
    assert_eq!(result.stdin.bytes, "stdin".as_bytes().to_vec());
    assert_eq!(as_strings(result.step_bytes()), vec!["cmd1-output", "cmd2mod-output"]);
    assert_eq!(*calls.borrow(), calls_of(&[("cmd1", "stdin"), ("cmd2mod", "cmd1-output")]));
    assert!(runner.cache.is_empty());
}

#[test]
fn no_cache_test_runner_modified_in_the_middle_and_extended() {
    let (exec, calls) = mock();
    let mut runner = cached_runner(exec, false);
    let _init_run = runner.run(&rura(&["cmd1", "cmd2", "cmd3"])).ok().unwrap();
    calls.borrow_mut().clear();
    let result = runner.run(&rura(&["cmd1", "cmd2mod", "cmd3"])).ok().unwrap();
    assert_eq!(result.stdin.bytes, "stdin".as_bytes().to_vec());
    assert_eq!(
        as_strings(result.step_bytes()),
        vec!["cmd1-output", "cmd2mod-output", "cmd3-output"]
    );
    assert_eq!(
        *calls.borrow(),
        calls_of(&[("cmd1", "stdin"), ("cmd2mod", "cmd1-output"), ("cmd3", "cmd2mod-output")])
    );
    assert!(runner.cache.is_empty());
}

#[test]
fn no_cache_test_runner_errors() {
    let (exec, calls) = mock();
    let mut runner = cached_runner(exec, false);
    let result = runner.run(&rura(&["cmd1", "cmd2err", "cmd3"])).ok().unwrap();
    assert_eq!(result.stdin.bytes, "stdin".as_bytes().to_vec());
    assert_eq!(as_strings(result.step_bytes()), vec!["cmd1-output"]);
    assert_eq!(result.failure_bytes(), Some(("cmd2err-output".as_bytes().to_vec(), Some(1))));
    assert_eq!(*calls.borrow(), calls_of(&[("cmd1", "stdin"), ("cmd2err", "cmd1-output")]));
    assert!(runner.cache.is_empty());
}

#[test]
fn no_cache_test_runner_errors_clear_cache() {
    let (exec, calls) = mock();
    let mut runner = cached_runner(exec, false);
    let _init_run = runner.run(&rura(&["cmd1", "cmd2", "cmd3"])).ok().unwrap();
    calls.borrow_mut().clear();
    let result = runner.run(&rura(&["cmd1", "cmd2err", "cmd3"])).ok().unwrap();
    assert_eq!(result.stdin.bytes, "stdin".as_bytes().to_vec());
    assert_eq!(as_strings(result.step_bytes()), vec!["cmd1-output"]);
    assert_eq!(result.failure_bytes(), Some(("cmd2err-output".as_bytes().to_vec(), Some(1))));
    assert_eq!(*calls.borrow(), calls_of(&[("cmd1", "stdin"), ("cmd2err", "cmd1-output")]));
    assert!(runner.cache.is_empty());
}

// ---- more cached runner behaviour ----

#[test]
fn cached_runner_trims_steps_and_reuses_cache() {
    let (exec, calls) = mock();
    let mut runner = cached_runner(exec, true);
    let first = runner.run(&rura(&[" cmd1 ", "cmd2  "])).ok().unwrap();
    assert!(first.succeeded());
    assert_eq!(first.steps[0].command, "cmd1");
    calls.borrow_mut().clear();
    let second = runner.run(&rura(&["cmd1", " cmd2"])).ok().unwrap();
    assert_eq!(*calls.borrow(), vec![]);
    assert!(second.steps.iter().all(|s| s.cached));
    assert_eq!(as_strings(second.step_bytes()), vec!["cmd1-output", "cmd2-output"]);
}

#[test]
fn cached_runner_update_stdin_clears_cache() {
    let (exec, calls) = mock();
    let mut runner = cached_runner(exec, true);
    runner.run(&rura(&["cmd1"])).ok().unwrap();
    runner.update_stdin("new".as_bytes().to_vec());
    assert!(runner.cache.is_empty());
    assert_eq!(runner.stdin.lines, 1);
    calls.borrow_mut().clear();
    runner.run(&rura(&["cmd1"])).ok().unwrap();
    assert_eq!(*calls.borrow(), calls_of(&[("cmd1", "new")]));
}

#[test]
fn cached_runner_failure_index_and_lines() {
    let (exec, _calls) = mock();
    let mut runner = cached_runner(exec, true);
    let result = runner.run(&rura(&["a", "b", "err"])).ok().unwrap();
    assert_eq!(result.failed_step_index(), Some(2));
    assert!(!result.succeeded());
    let failure = result.failure.as_ref().unwrap();
    assert_eq!(failure.command, "err");
    assert_eq!(failure.lines, 1);
    assert_eq!(failure.code, Some(1));
}

// ---- simple runner ----

#[test]
fn test_ok_command() {
    let (exec, _calls) = mock();
    let mut runner = SimplePipelineRunner::new(exec, "stdin".as_bytes().to_vec());
    let result = runner.run(&Rura::from("echo hello")).ok().unwrap();
    assert_eq!(result.stdin.bytes, "stdin".as_bytes().to_vec());
    assert_eq!(as_strings(result.step_bytes()), vec!["echo hello-output"]);
}

#[test]
fn simple_runner_test_run_empty_command() {
    let (exec, _calls) = mock();
    let mut runner = SimplePipelineRunner::new(exec, "stdin".as_bytes().to_vec());
    let result = runner.run(&Rura::from(Vec::<String>::new())).ok().unwrap();
    assert_eq!(result.stdin.bytes, "stdin".as_bytes().to_vec());
    assert_eq!(as_strings(result.step_bytes()), Vec::<String>::new());
}

#[test]
fn simple_runner_joins_steps_with_pipe() {
    let (exec, calls) = mock();
    let mut runner = SimplePipelineRunner::new(exec, "a\nb\n".as_bytes().to_vec());
    assert_eq!(runner.stdin.lines, 2);
    let result = runner.run(&rura(&["ls ", " wc err"])).ok().unwrap();
    assert_eq!(*calls.borrow(), calls_of(&[("ls | wc err", "a\nb\n")]));
    assert!(result.steps.is_empty());
    assert_eq!(result.failure.as_ref().unwrap().command, "ls | wc err");
}

// ---- split runner ----

#[test]
fn split_runner_test_run_empty_command() {
    let (exec, calls) = mock();
    let mut runner = SplitCmdRunner::new(exec, "stdin".as_bytes().to_vec());
    let result = runner.run(&Rura::from(Vec::<String>::new())).ok().unwrap();
    assert_eq!(result.stdin, "stdin".as_bytes().to_vec());
    assert_eq!(as_strings(result.ok_outputs()), vec!["stdin"]);
    assert_eq!(*calls.borrow(), vec![]);
}

#[test]
fn test_cmd_runner_calling_three_subcommands() {
    let (exec, calls) = mock();
    let mut runner = SplitCmdRunner::new(exec, "stdin".as_bytes().to_vec());
    let result = runner.run(&rura(&["cmd1", "cmd2", "cmd3"])).ok().unwrap();
    assert_eq!(result.stdin, "stdin".as_bytes().to_vec());
    assert_eq!(as_strings(result.ok_outputs()), vec!["cmd1-output", "cmd2-output", "cmd3-output"]);
    assert_eq!(
        *calls.borrow(),
        calls_of(&[("cmd1", "stdin"), ("cmd2", "cmd1-output"), ("cmd3", "cmd2-output")])
    );
}

#[test]
fn test_cmd_runner_errors() {
    let (exec, _calls) = mock();
    let mut runner = SplitCmdRunner::new(exec, "stdin".as_bytes().to_vec());
    let result = runner.run(&rura(&["cmd1", "cmd2err", "cmd3"])).ok().unwrap();
    assert_eq!(result.stdin, "stdin".as_bytes().to_vec());
    assert_eq!(as_strings(result.ok_outputs()), vec!["cmd1-output"]);
    assert_eq!(result.error_output, Some(("cmd2err-output".as_bytes().to_vec(), Some(1))));
    assert_eq!(result.failed_subcommand(), Some(1));
    assert!(!result.all_ok());
}

#[test]
fn split_runner_records_steps() {
    let mut outputs: Vec<OkOutput> = vec![];
    assert!(record_step(&mut outputs, "a".to_string(), ExecOutput::Success(b"1".to_vec()), 5).is_none());
    assert_eq!(outputs.len(), 1);
    assert_eq!(outputs[0].command, "a");
    assert_eq!(outputs[0].bytes, b"1".to_vec());
    assert_eq!(outputs[0].duration, Some(5));
    let failure = record_step(&mut outputs, "b".to_string(), ExecOutput::Failure(b"e".to_vec(), Some(2)), 7);
    assert_eq!(failure, Some((b"e".to_vec(), Some(2))));
    assert_eq!(outputs.len(), 1);
}

#[test]
fn cached_runner_keeps_completed_steps_when_a_command_cannot_start() {
    let (exec, calls) = mock();
    let mut runner = cached_runner(exec, true);
    assert!(runner.run(&rura(&["cmd1", "cmd2", "missing", "cmd4"])).is_err());
    assert_eq!(
        *calls.borrow(),
        calls_of(&[("cmd1", "stdin"), ("cmd2", "cmd1-output"), ("missing", "cmd2-output")])
    );
    assert_eq!(cache_no_duration(&runner), cache_entries(&[("cmd1", "cmd1-output"), ("cmd2", "cmd2-output")]));
    calls.borrow_mut().clear();
    let result = runner.run(&rura(&["cmd1", "cmd2", "cmd3"])).ok().unwrap();
    assert_eq!(*calls.borrow(), calls_of(&[("cmd3", "cmd2-output")]));
    assert!(result.steps[0].cached && result.steps[1].cached && !result.steps[2].cached);
}

#[test]
fn no_cache_runner_never_serves_from_cache_after_an_error() {
    let (exec, calls) = mock();
    let mut runner = cached_runner(exec, false);
    assert!(runner.run(&rura(&["cmd1", "missing"])).is_err());
    assert!(runner.cache.is_empty());
    calls.borrow_mut().clear();
    let result = runner.run(&rura(&["cmd1", "cmd2"])).ok().unwrap();
    assert_eq!(*calls.borrow(), calls_of(&[("cmd1", "stdin"), ("cmd2", "cmd1-output")]));
    assert!(result.steps.iter().all(|s| !s.cached));
    assert!(runner.cache.is_empty());
}

#[test]
fn cached_and_fresh_runs_agree() {
    let (exec, _) = mock();
    let mut cached = cached_runner(exec, true);
    cached.run(&rura(&["cmd1", "cmd2", "cmd3"])).ok().unwrap();
    let with_cache = cached.run(&rura(&["cmd1", "cmd2", "cmd2err"])).ok().unwrap();
    let (exec, _) = mock();
    let mut fresh = cached_runner(exec, true);
    let without = fresh.run(&rura(&["cmd1", "cmd2", "cmd2err"])).ok().unwrap();
    assert_eq!(with_cache.step_bytes(), without.step_bytes());
    assert_eq!(with_cache.failure_bytes(), without.failure_bytes());
    assert!(with_cache.steps[0].cached && !without.steps[0].cached);
}

#[test]
fn simple_runner_counts_input_lines() {
    let (exec, _calls) = mock();
    let runner = SimplePipelineRunner::new(exec, "stdin".as_bytes().to_vec());
    assert_eq!(runner.stdin.lines, 1);
}

#[test]
fn runners_report_a_command_that_cannot_start() {
    let (exec, calls) = mock();
    let mut split = SplitCmdRunner::new(exec, "stdin".as_bytes().to_vec());
    let r = split.run(&rura(&["cmd1", "missing", "cmd3"]));
    assert!(matches!(r, Err(RunError::Exec(ref m)) if m == "missing: not found"));
    assert_eq!(*calls.borrow(), calls_of(&[("cmd1", "stdin"), ("missing", "cmd1-output")]));

    let (exec, calls) = mock();
    let mut simple = SimplePipelineRunner::new(exec, "in".as_bytes().to_vec());
    let r = simple.run(&rura(&["ls", "missing"]));
    assert!(matches!(r, Err(RunError::Exec(ref m)) if m == "ls|missing: not found"));
    assert_eq!(*calls.borrow(), calls_of(&[("ls|missing", "in")]));

    let (exec, _) = mock();
    let mut cached = cached_runner(exec, true);
    let r = cached.run(&rura(&["missing"]));
    assert!(matches!(r, Err(RunError::Exec(ref m)) if m == "missing: not found"));
}
