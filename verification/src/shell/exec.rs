//! Executing one command, and measuring how long it took.
use crate::shell::output::ExecOutput;
use std::time::{Duration, SystemTime, SystemTimeError};
use vstd::prelude::*;

verus! {

/// Something that runs one command of a pipeline: the system shell in the
/// application, a scripted stand-in in tests.
pub trait Exec {
    /// Runs `command` with `stdin` as its standard input. `Err` when the
    /// command could not be started at all.
    fn exec(&self, command: &String, stdin: &Vec<u8>) -> Result<ExecOutput, String>;
}

/// Why a runner gave up on a run.
pub enum RunError {
    /// A command could not be started.
    Exec(String),
    /// The clock went backwards while a command ran.
    Clock,
}

#[verifier::external_type_specification]
#[verifier::external_body]
pub struct ExSystemTime(SystemTime);

#[verifier::external_type_specification]
#[verifier::external_body]
pub struct ExSystemTimeError(SystemTimeError);

/// `SystemTime::now`: reads the wall clock; nothing is claimed of the value.
#[verifier::external_body]
pub fn clock_now() -> SystemTime {
    SystemTime::now()
}

/// `SystemTime::elapsed`: depends on the clock; nothing is claimed of the
/// value or of when it fails.
#[verifier::external_body]
pub fn clock_elapsed(since: &SystemTime) -> Result<Duration, SystemTimeError> {
    since.elapsed()
}

/// `Duration::as_nanos`: the duration in whole nanoseconds. Verus sees
/// nothing inside a `Duration`, so nothing is claimed of the value.
#[verifier::external_body]
pub fn duration_nanos(d: &Duration) -> u128 {
    d.as_nanos()
}

/// Whether `nanos` is a measure of the time since the clock read `since`:
/// what `Duration::as_nanos` gave for what `SystemTime::elapsed` gave for
/// it.
pub open spec fn measured_since(since: SystemTime, nanos: u128) -> bool {
    exists|d: Duration|
        #[trigger] call_ensures(clock_elapsed, (&since,), Ok::<Duration, SystemTimeError>(d)) && call_ensures(
            duration_nanos,
            (&d,),
            nanos,
        )
}

/// A time measured for a command: the clock reading taken before it ran
/// (what `SystemTime::now` gave), and the nanoseconds measured since then.
pub struct StepTiming {
    pub started: SystemTime,
    pub nanos: u128,
}

/// Whether a timing is a real measurement: its start is a clock reading and
/// its nanoseconds are a measure of the time since that reading.
pub open spec fn clock_measured(t: StepTiming) -> bool {
    &&& call_ensures(clock_now, (), t.started)
    &&& measured_since(t.started, t.nanos)
}

/// Whether `nanos` is a time the clock measured: the nanoseconds of some
/// real measurement (see `clock_measured`).
pub open spec fn clock_duration(nanos: u128) -> bool {
    exists|t: StepTiming| #[trigger] clock_measured(t) && t.nanos == nanos
}

/// Nanoseconds since `since`, or `RunError::Clock` when the clock went
/// backwards.
pub fn nanos_since(since: &SystemTime) -> (r: Result<u128, RunError>)
    ensures
        r matches Err(e) ==> e is Clock,
        r matches Ok(n) ==> measured_since(*since, n),
{
    match clock_elapsed(since) {
        Ok(d) => Ok(duration_nanos(&d)),
        Err(_) => Err(RunError::Clock),
    }
}

} // verus!
