//! A pipeline runner that runs each step on the output of the previous one
//! and keeps the outputs of successful steps, so that a later run of a
//! pipeline that starts with the same steps reuses them.
use crate::rura::Rura;
use crate::shell::exec::{clock_duration, clock_measured, clock_now, nanos_since, Exec, RunError, StepTiming};
use crate::shell::output::{outcome_of, ExecCall, ExecOutput, OutcomeModel};
use crate::shell::pipeline_runner::{PipelineRun, PipelineRunner, Stdin, StepFailure, StepOutput};
use crate::text::{line_count_spec, strings_view};
use vstd::prelude::*;

verus! {

/// A remembered step: its trimmed text, what it printed and how long it took
/// (nanoseconds).
pub struct CacheEntry {
    pub command: String,
    pub bytes: Vec<u8>,
    pub duration: u128,
}

/// A cache entry as plain values.
pub open spec fn entry_view(e: CacheEntry) -> (Seq<char>, Seq<u8>, u128) {
    (e.command@, e.bytes@, e.duration)
}

/// A cache as plain values.
pub open spec fn cache_view(c: Seq<CacheEntry>) -> Seq<(Seq<char>, Seq<u8>, u128)> {
    c.map_values(|e: CacheEntry| entry_view(e))
}

/// The commands that a cache remembers, in order.
pub open spec fn cache_commands(c: Seq<CacheEntry>) -> Seq<Seq<char>> {
    c.map_values(|e: CacheEntry| e.command@)
}

/// A completed step as the cache entry it gives.
pub open spec fn step_entry(s: StepOutput) -> (Seq<char>, Seq<u8>, u128) {
    (s.command@, s.bytes@, s.duration)
}

/// Completed steps as the cache entries they give.
pub open spec fn steps_as_entries(s: Seq<StepOutput>) -> Seq<(Seq<char>, Seq<u8>, u128)> {
    s.map_values(|x: StepOutput| step_entry(x))
}

/// How many leading elements `a` and `b` have in common.
pub open spec fn common_prefix_len(a: Seq<Seq<char>>, b: Seq<Seq<char>>) -> nat
    decreases a.len(),
{
    if a.len() == 0 || b.len() == 0 || a[0] != b[0] {
        0
    } else {
        1 + common_prefix_len(a.drop_first(), b.drop_first())
    }
}

/// How many cache entries a run of `steps` keeps: those before the first
/// step that differs from the cached one; all of them when no step of the
/// pipeline differs (also when the cache is longer than the pipeline).
pub open spec fn kept_len(cached: Seq<Seq<char>>, steps: Seq<Seq<char>>) -> nat {
    let p = common_prefix_len(cached, steps);
    if p < cached.len() && p < steps.len() {
        p
    } else {
        cached.len()
    }
}

/// How many steps of a run of `steps` come from the cache.
pub open spec fn reused_len(cached: Seq<Seq<char>>, steps: Seq<Seq<char>>) -> nat {
    let k = kept_len(cached, steps);
    if k < steps.len() {
        k
    } else {
        steps.len()
    }
}

/// The input of the next step: the run's input before the first step, the
/// previous step's output after it.
pub open spec fn step_input(stdin: Seq<u8>, steps: Seq<StepOutput>) -> Seq<u8> {
    if steps.len() == 0 {
        stdin
    } else {
        steps.last().bytes@
    }
}

pub proof fn lemma_common_prefix(a: Seq<Seq<char>>, b: Seq<Seq<char>>)
    ensures
        common_prefix_len(a, b) <= a.len(),
        common_prefix_len(a, b) <= b.len(),
        forall|j: int| 0 <= j < common_prefix_len(a, b) ==> a[j] == b[j],
        common_prefix_len(a, b) < a.len() && common_prefix_len(a, b) < b.len()
            ==> a[common_prefix_len(a, b) as int] != b[common_prefix_len(a, b) as int],
    decreases a.len(),
{
    if a.len() == 0 || b.len() == 0 || a[0] != b[0] {
    } else {
        lemma_common_prefix(a.drop_first(), b.drop_first());
        assert forall|j: int| 0 <= j < common_prefix_len(a, b) implies a[j] == b[j] by {
            if j > 0 {
                assert(a.drop_first()[j - 1] == b.drop_first()[j - 1]);
            }
        }
    }
}

/// `common_prefix_len(a, b)` is the `i` at which `a` and `b` first differ or
/// one of them ends.
pub proof fn lemma_common_prefix_at(a: Seq<Seq<char>>, b: Seq<Seq<char>>, i: nat)
    requires
        i <= a.len(),
        i <= b.len(),
        forall|j: int| 0 <= j < i ==> a[j] == b[j],
        i == a.len() || i == b.len() || a[i as int] != b[i as int],
    ensures
        common_prefix_len(a, b) == i,
{
    lemma_common_prefix(a, b);
    let p = common_prefix_len(a, b);
    if p < i {
        assert(a[p as int] == b[p as int]);
    } else if p > i {
        assert(a[i as int] == b[i as int]);
    }
}

/// Every cache entry that a run keeps agrees with the pipeline's step at its
/// position, and a step that differs from the cached one at its position
/// drops that entry and every entry after it.
pub proof fn law_kept_entries_agree(c: Seq<Seq<char>>, t: Seq<Seq<char>>)
    ensures
        kept_len(c, t) <= c.len(),
        reused_len(c, t) <= t.len(),
        forall|j: int| 0 <= j < kept_len(c, t) && j < t.len() ==> c[j] == t[j],
        forall|j: int| 0 <= j < c.len() && j < t.len() && c[j] != t[j] ==> kept_len(c, t) <= j,
{
    lemma_common_prefix(c, t);
}

/// After a run in which every step succeeded, with caching on, a run of the
/// same pipeline takes every step from the cache, and each reused output and
/// duration is the one of that step in the first run.
pub proof fn law_successful_run_is_reused(
    c: Seq<CacheEntry>,
    stdin: Stdin,
    t: Seq<Seq<char>>,
    run: PipelineRun,
    c2: Seq<CacheEntry>,
)
    requires
        run_consistent(run, stdin, t, c, reused_len(cache_commands(c), t)),
        run.failure is None,
        run.steps@.len() == t.len(),
        cache_view(c2) == cache_after(
            c,
            kept_len(cache_commands(c), t),
            reused_len(cache_commands(c), t),
            run.steps@,
            true,
        ),
    ensures
        kept_len(cache_commands(c2), t) == c2.len(),
        reused_len(cache_commands(c2), t) == t.len(),
        forall|i: int|
            0 <= i < t.len() ==> (#[trigger] c2[i]).bytes@ == run.steps@[i].bytes@ && c2[i].duration
                == run.steps@[i].duration,
{
    let a = cache_commands(c);
    let k = kept_len(a, t);
    let n = reused_len(a, t);
    lemma_common_prefix(a, t);
    assert(cache_view(c2).len() == c2.len());
    assert(c2.len() >= t.len());
    assert forall|i: int| 0 <= i < t.len() implies (#[trigger] c2[i]).command@ == t[i] && c2[i].bytes@
        == run.steps@[i].bytes@ && c2[i].duration == run.steps@[i].duration by {
        assert(cache_view(c2)[i] == entry_view(c2[i]));
        if i < n {
            assert(cache_view(c2)[i] == cache_view(c)[i]);
            assert(c[i].command@ == a[i]);
        } else {
            assert(cache_view(c2)[i] == steps_as_entries(run.steps@.skip(n as int))[i - k]);
            assert(run.steps@.skip(n as int)[i - n] == run.steps@[i]);
        }
    }
    let a2 = cache_commands(c2);
    assert forall|j: int| 0 <= j < t.len() implies a2[j] == t[j] by {
        assert(a2[j] == c2[j].command@);
    }
    lemma_common_prefix_at(a2, t, t.len());
}

/// Without caching, a run that starts from an empty cache leaves it empty.
pub proof fn law_without_cache_nothing_is_remembered(
    c: Seq<CacheEntry>,
    t: Seq<Seq<char>>,
    steps: Seq<StepOutput>,
)
    requires
        c.len() == 0,
    ensures
        cache_after(
            c,
            kept_len(cache_commands(c), t),
            reused_len(cache_commands(c), t),
            steps,
            false,
        ).len() == 0,
{
    assert(cache_view(c).take(0) =~= Seq::<(Seq<char>, Seq<u8>, u128)>::empty());
}

/// With an empty cache, as after a new input, a run takes no step from the
/// cache and keeps nothing of it.
pub proof fn law_empty_cache_reuses_nothing(t: Seq<Seq<char>>)
    ensures
        kept_len(Seq::empty(), t) == 0,
        reused_len(Seq::empty(), t) == 0,
{
}

/// A runner without caching runs every step: from an empty cache a run of
/// any steps takes none of them from it (so, by `run`'s contract, it
/// executes them from the first, each on the output of the one before) and
/// leaves the cache empty for the next run, whatever steps it completed.
pub proof fn law_without_cache_every_step_runs(c: Seq<CacheEntry>, t: Seq<Seq<char>>, steps: Seq<StepOutput>)
    requires
        c.len() == 0,
    ensures
        reused_len(cache_commands(c), t) == 0,
        cache_after(c, kept_len(cache_commands(c), t), reused_len(cache_commands(c), t), steps, false).len() == 0,
{
    assert(cache_commands(c) =~= Seq::<Seq<char>>::empty());
    assert(cache_view(c).take(0) =~= Seq::<(Seq<char>, Seq<u8>, u128)>::empty());
}

/// A run in progress: the trimmed steps, how many of them came from the
/// cache, and the steps done so far.
pub struct PendingRun {
    pub commands: Vec<String>,
    pub reused: usize,
    pub run: PipelineRun,
}

impl PendingRun {
    /// Whether a step remains to be executed.
    pub open spec fn has_next(&self) -> bool {
        self.run.failure is None && self.run.steps@.len() < self.commands@.len()
    }
}

/// The steps of `run` agree with the trimmed steps `t`, on the input `stdin`,
/// with the first `n` of them taken from the cache `c`.
pub open spec fn run_consistent(run: PipelineRun, stdin: Stdin, t: Seq<Seq<char>>, c: Seq<CacheEntry>, n: nat) -> bool {
    &&& run.stdin.bytes@ == stdin.bytes@
    &&& run.stdin.lines == stdin.lines
    &&& n <= run.steps@.len() <= t.len()
    &&& forall|i: int|
        0 <= i < run.steps@.len() ==> {
            &&& (#[trigger] run.steps@[i]).command@ == t[i]
            &&& run.steps@[i].lines == line_count_spec(run.steps@[i].bytes@)
            &&& run.steps@[i].cached == (i < n)
        }
    &&& forall|i: int|
        0 <= i < n ==> {
            &&& (#[trigger] run.steps@[i]).bytes@ == c[i].bytes@
            &&& run.steps@[i].duration == c[i].duration
        }
    &&& run.failure matches Some(f) ==> {
        &&& run.steps@.len() < t.len()
        &&& f.command@ == t[run.steps@.len() as int]
        &&& f.lines == line_count_spec(f.bytes@)
    }
}

/// The cache after the steps of `run` past the `n` reused ones: the `k`
/// entries kept from `c`, followed, when caching, by those steps.
pub open spec fn cache_after(c: Seq<CacheEntry>, k: nat, n: nat, steps: Seq<StepOutput>, use_cache: bool) -> Seq<(Seq<char>, Seq<u8>, u128)> {
    if use_cache {
        cache_view(c).take(k as int) + steps_as_entries(steps.skip(n as int))
    } else {
        cache_view(c).take(k as int)
    }
}

/// `calls` are the executions of the completed steps `steps` of a run of
/// `t` on `stdin` past the `n` taken from the cache: one per step, in order,
/// each of its step's command on the output of the step before (on `stdin`
/// for the first step), each giving that step's output.
pub open spec fn executed_steps(calls: Seq<ExecCall>, stdin: Seq<u8>, t: Seq<Seq<char>>, n: nat, steps: Seq<StepOutput>) -> bool {
    &&& n <= steps.len()
    &&& calls.len() == steps.len() - n
    &&& forall|j: int|
        0 <= j < calls.len() ==> {
            &&& (#[trigger] calls[j]).command == t[n + j]
            &&& calls[j].input == step_input(stdin, steps.take(n + j))
            &&& calls[j].outcome == OutcomeModel::Success(steps[n + j].bytes@)
        }
}

/// `call` is an execution of the step after the completed steps `steps` of
/// `t`, on the output of the last of them (on `stdin` when there is none).
pub open spec fn next_step_call(call: ExecCall, stdin: Seq<u8>, t: Seq<Seq<char>>, steps: Seq<StepOutput>) -> bool {
    &&& call.command == t[steps.len() as int]
    &&& call.input == step_input(stdin, steps)
}

/// How a run of `t` from the cache `c` that gave up ended: it had completed
/// the steps of `run`, its executions `calls` were those of the executed
/// steps and then one of the next step, and it left the cache `cache`.
pub open spec fn gave_up_after(
    run: PipelineRun,
    calls: Seq<ExecCall>,
    stdin: Stdin,
    t: Seq<Seq<char>>,
    c: Seq<CacheEntry>,
    cache: Seq<CacheEntry>,
    use_cache: bool,
) -> bool {
    let k = kept_len(cache_commands(c), t);
    let n = reused_len(cache_commands(c), t);
    &&& run_consistent(run, stdin, t, c, n)
    &&& run.failure is None
    &&& run.steps@.len() < t.len()
    &&& calls.len() >= 1
    &&& executed_steps(calls.drop_last(), stdin.bytes@, t, n, run.steps@)
    &&& next_step_call(calls.last(), stdin.bytes@, t, run.steps@)
    &&& cache_view(cache) == cache_after(c, k, n, run.steps@, use_cache)
}

/// The execution that gives a cache entry: its command on the entry
/// before it (on `stdin` for the first), giving its output.
pub open spec fn entry_call(cache: Seq<CacheEntry>, stdin: Seq<u8>, i: int) -> ExecCall {
    ExecCall {
        command: cache[i].command@,
        input: if i == 0 { stdin } else { cache[i - 1].bytes@ },
        outcome: OutcomeModel::Success(cache[i].bytes@),
    }
}

/// Every cache entry is an output that the executor gave, among the
/// executions `log`, for the entry's command on the entry before it (on
/// `stdin` for the first).
pub open spec fn cache_backed(cache: Seq<CacheEntry>, stdin: Seq<u8>, log: Seq<ExecCall>) -> bool {
    forall|i: int| 0 <= i < cache.len() ==> log.contains(#[trigger] entry_call(cache, stdin, i))
}

/// Every completed step of `run` carries an output that the executor gave,
/// among the executions `log`, for that step of `t` on the output of the
/// step before (on `stdin` for the first); so does the failed step.
pub open spec fn steps_given(log: Seq<ExecCall>, stdin: Seq<u8>, t: Seq<Seq<char>>, run: PipelineRun) -> bool {
    &&& forall|i: int|
        0 <= i < run.steps@.len() ==> log.contains(
            ExecCall {
                command: t[i],
                input: step_input(stdin, run.steps@.take(i)),
                outcome: OutcomeModel::Success((#[trigger] run.steps@[i]).bytes@),
            },
        )
    &&& run.failure matches Some(f) ==> log.contains(
        ExecCall {
            command: t[run.steps@.len() as int],
            input: step_input(stdin, run.steps@),
            outcome: OutcomeModel::Failure(f.bytes@, f.code),
        },
    )
}

/// Runs a pipeline step by step, remembering the output of each successful
/// step when `use_cache` is set; the executions it made are kept as ghost
/// state, for the contracts.
pub struct CachedPipelineRunner<E> {
    pub executor: E,
    pub stdin: Stdin,
    pub cache: Vec<CacheEntry>,
    pub use_cache: bool,
    /// Every attempt to run a command so far, in order.
    pub executions: Ghost<Seq<ExecCall>>,
    /// The time measured for every command that ran, in order.
    pub timings: Ghost<Seq<StepTiming>>,
}

/// The durations of the steps of a run past the `n` taken from the cache,
/// and of its failed step, are the times measured for them, in order: one
/// timing per executed step, each a real clock measurement.
#[verifier::opaque]
pub open spec fn timed_steps(steps: Seq<StepOutput>, failure: Option<StepFailure>, n: nat, timings: Seq<StepTiming>) -> bool {
    &&& n <= steps.len()
    &&& timings.len() == steps.len() - n + (if failure is Some { 1int } else { 0int })
    &&& forall|j: int| 0 <= j < steps.len() - n ==> steps[n + j].duration == (#[trigger] timings[j]).nanos
    &&& failure matches Some(f) ==> f.duration == timings.last().nanos
    &&& forall|j: int| 0 <= j < timings.len() ==> clock_measured(#[trigger] timings[j])
}

/// Every step a run executed, and its failed step, carries a time the clock
/// measured for it: the nanoseconds since a clock reading, as
/// `SystemTime::elapsed` and `Duration::as_nanos` gave them; the `j`-th
/// executed step carries the `j`-th time measured in the run. (`run` states
/// `timed_steps` of its steps and the timings it added.)
pub proof fn law_executed_steps_carry_measured_times(
    steps: Seq<StepOutput>,
    failure: Option<StepFailure>,
    n: nat,
    timings: Seq<StepTiming>,
)
    requires
        timed_steps(steps, failure, n, timings),
    ensures
        forall|i: int| n <= i < steps.len() ==> clock_duration(#[trigger] steps[i].duration),
        forall|j: int| 0 <= j < steps.len() - n ==> steps[n + j].duration == (#[trigger] timings[j]).nanos,
        failure matches Some(f) ==> clock_duration(f.duration) && f.duration == timings.last().nanos,
{
    reveal(timed_steps);
    assert forall|i: int| n <= i < steps.len() implies clock_duration(#[trigger] steps[i].duration) by {
        let t = timings[i - n];
        assert(steps[n + (i - n)].duration == t.nanos);
        assert(clock_measured(t));
    }
    if let Some(f) = failure {
        assert(clock_measured(timings[timings.len() - 1]));
    }
}

/// The timings `now` extend `before`, and those added are the timings of
/// the steps of a run past the `n` taken from the cache.
#[verifier::opaque]
spec fn timings_grew(before: Seq<StepTiming>, now: Seq<StepTiming>, steps: Seq<StepOutput>, failure: Option<StepFailure>, n: nat) -> bool {
    &&& now.len() >= before.len()
    &&& now.take(before.len() as int) == before
    &&& timed_steps(steps, failure, n, now.skip(before.len() as int))
}

proof fn lemma_timings_grew_start(before: Seq<StepTiming>, steps: Seq<StepOutput>, n: nat)
    requires
        steps.len() == n,
    ensures
        timings_grew(before, before, steps, None, n),
{
    reveal(timings_grew);
    lemma_timed_start(steps, n);
    assert(before.take(before.len() as int) =~= before);
    assert(before.skip(before.len() as int) =~= Seq::<StepTiming>::empty());
}

proof fn lemma_timings_grew_unfold(before: Seq<StepTiming>, now: Seq<StepTiming>, steps: Seq<StepOutput>, failure: Option<StepFailure>, n: nat)
    requires
        timings_grew(before, now, steps, failure, n),
    ensures
        now.len() >= before.len(),
        now.take(before.len() as int) == before,
        timed_steps(steps, failure, n, now.skip(before.len() as int)),
{
    reveal(timings_grew);
}

proof fn lemma_timings_grew_step(
    before: Seq<StepTiming>,
    now: Seq<StepTiming>,
    steps0: Seq<StepOutput>,
    steps1: Seq<StepOutput>,
    failure1: Option<StepFailure>,
    n: nat,
    timing: StepTiming,
)
    requires
        timings_grew(before, now, steps0, None, n),
        clock_measured(timing),
        ({
            ||| steps1.len() == steps0.len() + 1 && steps1.drop_last() == steps0 && steps1.last().duration
                == timing.nanos && failure1 is None
            ||| steps1 == steps0 && (failure1 matches Some(f) && f.duration == timing.nanos)
        }),
    ensures
        timings_grew(before, now.push(timing), steps1, failure1, n),
{
    reveal(timings_grew);
    let now1 = now.push(timing);
    assert(now1.take(before.len() as int) =~= before);
    assert(now1.skip(before.len() as int) =~= now.skip(before.len() as int).push(timing));
    lemma_timed_after_record(steps0, steps1, failure1, n, now.skip(before.len() as int), timing);
}

/// Before any step runs, no time was measured.
proof fn lemma_timed_start(steps: Seq<StepOutput>, n: nat)
    requires
        steps.len() == n,
    ensures
        timed_steps(steps, None, n, Seq::empty()),
{
    reveal(timed_steps);
}

/// Recording a completed or failed step keeps its duration the time just
/// measured.
proof fn lemma_timed_after_record(
    steps0: Seq<StepOutput>,
    steps1: Seq<StepOutput>,
    failure1: Option<StepFailure>,
    n: nat,
    tim0: Seq<StepTiming>,
    timing: StepTiming,
)
    requires
        timed_steps(steps0, None, n, tim0),
        clock_measured(timing),
        ({
            ||| steps1.len() == steps0.len() + 1 && steps1.drop_last() == steps0 && steps1.last().duration
                == timing.nanos && failure1 is None
            ||| steps1 == steps0 && (failure1 matches Some(f) && f.duration == timing.nanos)
        }),
    ensures
        timed_steps(steps1, failure1, n, tim0.push(timing)),
{
    reveal(timed_steps);
    let tim1 = tim0.push(timing);
    assert forall|j: int| 0 <= j < steps1.len() - n implies steps1[n + j].duration == (#[trigger] tim1[j]).nanos by {
        if n + j < steps0.len() {
            assert(steps1[n + j] == steps0[n + j]) by {
                if steps1.len() == steps0.len() + 1 {
                    assert(steps1.drop_last()[n + j] == steps1[n + j]);
                }
            }
            assert(tim1[j] == tim0[j]);
        }
    }
    assert forall|j: int| 0 <= j < tim1.len() implies clock_measured(#[trigger] tim1[j]) by {
        if j < tim0.len() {
            assert(tim1[j] == tim0[j]);
        }
    }
}

impl<E: Exec> CachedPipelineRunner<E> {
    pub fn new(exec: E, stdin: Vec<u8>, use_cache: bool) -> (r: Self)
        ensures
            r.executor == exec,
            r.stdin.bytes@ == stdin@,
            r.stdin.lines == line_count_spec(stdin@),
            r.cache@.len() == 0,
            r.use_cache == use_cache,
            r.executions@.len() == 0,
            r.timings@.len() == 0,
            cache_backed(r.cache@, r.stdin.bytes@, r.executions@),
    {
        CachedPipelineRunner {
            executor: exec,
            stdin: Stdin::new(stdin),
            cache: Vec::new(),
            use_cache,
            executions: Ghost(Seq::empty()),
            timings: Ghost(Seq::empty()),
        }
    }

    /// How many cache entries agree with the trimmed steps `t`.
    fn kept_cache_len(&self, t: &Vec<String>) -> (k: usize)
        ensures
            k == kept_len(cache_commands(self.cache@), strings_view(t@)),
    {
        let ghost a = cache_commands(self.cache@);
        let ghost b = strings_view(t@);
        let mut i: usize = 0;
        while i < self.cache.len() && i < t.len()
            invariant
                i <= self.cache@.len(),
                i <= t@.len(),
                a == cache_commands(self.cache@),
                b == strings_view(t@),
                forall|j: int| 0 <= j < i ==> a[j] == b[j],
            decreases self.cache@.len() - i,
        {
            if !(self.cache[i].command == t[i]) {
                proof {
                    lemma_common_prefix_at(a, b, i as nat);
                }
                return i;
            }
            i = i + 1;
        }
        proof {
            lemma_common_prefix_at(a, b, i as nat);
        }
        self.cache.len()
    }

    /// Starts a run of `rura`: drops the cache entries from the first step
    /// that differs from the cached one, and takes from the cache the steps
    /// that it still holds.
    pub fn start(&mut self, rura: &Rura) -> (p: PendingRun)
        ensures
            final(self).executor == old(self).executor,
            final(self).executions == old(self).executions,
            final(self).timings == old(self).timings,
            final(self).stdin == old(self).stdin,
            final(self).use_cache == old(self).use_cache,
            strings_view(p.commands@) == rura.trimmed_view(),
            p.reused == reused_len(cache_commands(old(self).cache@), rura.trimmed_view()),
            cache_view(final(self).cache@) == cache_view(old(self).cache@).take(
                kept_len(cache_commands(old(self).cache@), rura.trimmed_view()) as int,
            ),
            p.run.failure is None,
            p.run.steps@.len() == p.reused,
            run_consistent(p.run, old(self).stdin, rura.trimmed_view(), old(self).cache@, p.reused as nat),
    {
        let t = rura.trimmed();
        assert(strings_view(t@) =~= rura.trimmed_view());
        let k = self.kept_cache_len(&t);
        let ghost c = self.cache@;
        proof {
            lemma_common_prefix(cache_commands(c), strings_view(t@));
        }
        self.cache.truncate(k);
        assert(cache_view(self.cache@) =~= cache_view(c).take(k as int));
        let n = if k < t.len() { k } else { t.len() };
        let mut steps: Vec<StepOutput> = Vec::new();
        let mut i: usize = 0;
        while i < n
            invariant
                n <= k <= c.len(),
                n <= t@.len(),
                self.cache@ == c.subrange(0, k as int),
                k == kept_len(cache_commands(c), strings_view(t@)),
                forall|j: int| 0 <= j < common_prefix_len(cache_commands(c), strings_view(t@))
                    ==> cache_commands(c)[j] == strings_view(t@)[j],
                i <= n,
                steps@.len() == i,
                forall|j: int|
                    0 <= j < i ==> {
                        &&& (#[trigger] steps@[j]).command@ == t@[j]@
                        &&& steps@[j].bytes@ == c[j].bytes@
                        &&& steps@[j].duration == c[j].duration
                        &&& steps@[j].lines == line_count_spec(steps@[j].bytes@)
                        &&& steps@[j].cached
                    },
            decreases n - i,
        {
            let bytes = self.cache[i].bytes.clone();
            assert(bytes@ =~= c[i as int].bytes@);
            steps.push(StepOutput::new(t[i].clone(), bytes, self.cache[i].duration, true));
            i = i + 1;
        }
        let run = PipelineRun { stdin: self.stdin.duplicate(), steps, failure: None };
        PendingRun { commands: t, reused: n, run }
    }

    /// The input of the next step of `p`.
    pub fn input_for<'a>(&'a self, p: &'a PendingRun) -> (r: &'a Vec<u8>)
        ensures
            r@ == step_input(self.stdin.bytes@, p.run.steps@),
    {
        if p.run.steps.len() == 0 {
            &self.stdin.bytes
        } else {
            &p.run.steps[p.run.steps.len() - 1].bytes
        }
    }

    /// Records what the next step of `p` gave: a completed step, remembered
    /// when caching, or the run's failure.
    pub fn record(&mut self, p: &mut PendingRun, output: ExecOutput, duration: u128)
        requires
            old(p).has_next(),
        ensures
            final(self).executor == old(self).executor,
            final(self).executions == old(self).executions,
            final(self).timings == old(self).timings,
            final(self).stdin == old(self).stdin,
            final(self).use_cache == old(self).use_cache,
            final(p).commands == old(p).commands,
            final(p).reused == old(p).reused,
            final(p).run.stdin == old(p).run.stdin,
            match output {
                ExecOutput::Success(bytes) => {
                    &&& final(p).run.steps@.len() == old(p).run.steps@.len() + 1
                    &&& final(p).run.steps@.drop_last() == old(p).run.steps@
                    &&& final(p).run.steps@.last().command@ == old(p).commands@[old(p).run.steps@.len() as int]@
                    &&& final(p).run.steps@.last().bytes@ == bytes@
                    &&& final(p).run.steps@.last().lines == line_count_spec(bytes@)
                    &&& final(p).run.steps@.last().duration == duration
                    &&& !final(p).run.steps@.last().cached
                    &&& final(p).run.failure is None
                    &&& cache_view(final(self).cache@) == if old(self).use_cache {
                        cache_view(old(self).cache@).push(
                            (old(p).commands@[old(p).run.steps@.len() as int]@, bytes@, duration),
                        )
                    } else {
                        cache_view(old(self).cache@)
                    }
                },
                ExecOutput::Failure(bytes, code) => {
                    &&& final(p).run.steps == old(p).run.steps
                    &&& final(p).run.failure matches Some(f) && f.command@
                        == old(p).commands@[old(p).run.steps@.len() as int]@ && f.bytes@ == bytes@
                        && f.lines == line_count_spec(bytes@) && f.code == code && f.duration == duration
                    &&& final(self).cache == old(self).cache
                },
            },
    {
        let i = p.run.steps.len();
        match output {
            ExecOutput::Success(bytes) => {
                if self.use_cache {
                    let kept = bytes.clone();
                    assert(kept@ =~= bytes@);
                    self.cache.push(CacheEntry { command: p.commands[i].clone(), bytes: kept, duration });
                    assert(cache_view(self.cache@) =~= cache_view(old(self).cache@).push(
                        (old(p).commands@[i as int]@, bytes@, duration),
                    ));
                }
                p.run.steps.push(StepOutput::new(p.commands[i].clone(), bytes, duration, false));
            },
            ExecOutput::Failure(bytes, code) => {
                p.run.failure = Some(StepFailure::new(p.commands[i].clone(), bytes, code, duration));
            },
        }
    }
}

/// `calls` are the executions of a run of `t` on `stdin` that took `n`
/// steps from the cache and gave `run`: those of its executed steps, and,
/// when it failed, the execution of the failed step, on the output of the
/// last completed step, giving the failure's output and exit code.
pub open spec fn ran_as(run: PipelineRun, calls: Seq<ExecCall>, stdin: Seq<u8>, t: Seq<Seq<char>>, n: nat) -> bool {
    match run.failure {
        None => executed_steps(calls, stdin, t, n, run.steps@),
        Some(f) => {
            &&& calls.len() >= 1
            &&& executed_steps(calls.drop_last(), stdin, t, n, run.steps@)
            &&& next_step_call(calls.last(), stdin, t, run.steps@)
            &&& calls.last().outcome == OutcomeModel::Failure(f.bytes@, f.code)
        },
    }
}

proof fn lemma_take_last(steps: Seq<StepOutput>, i: int)
    requires
        0 < i <= steps.len(),
    ensures
        step_input(Seq::empty(), steps.take(i)) == steps[i - 1].bytes@,
        steps.take(i).last() == steps[i - 1],
{
}

/// The cache is transparent: when every cache entry is an output the
/// executor gave for its step on the entry before, every step of a run,
/// whether taken from the cache or executed, and its failed step, carry an
/// output that the executor gave for that step on the output of the step
/// before (see `law_cache_is_transparent` for what follows).
pub proof fn law_every_step_is_an_execution_output(c: Seq<CacheEntry>, stdin: Stdin, log0: Seq<ExecCall>, log: Seq<ExecCall>, t: Seq<Seq<char>>, run: PipelineRun)
    requires
        cache_backed(c, stdin.bytes@, log0),
        log.len() >= log0.len(),
        log.take(log0.len() as int) == log0,
        run_consistent(run, stdin, t, c, reused_len(cache_commands(c), t)),
        ran_as(run, log.skip(log0.len() as int), stdin.bytes@, t, reused_len(cache_commands(c), t)),
    ensures
        steps_given(log, stdin.bytes@, t, run),
{
    let n = reused_len(cache_commands(c), t);
    let k = kept_len(cache_commands(c), t);
    law_kept_entries_agree(cache_commands(c), t);
    let calls = log.skip(log0.len() as int);
    let done = if run.failure is None { calls } else { calls.drop_last() };
    assert(executed_steps(done, stdin.bytes@, t, n, run.steps@));
    let steps = run.steps@;
    assert forall|i: int| 0 <= i < steps.len() implies log.contains(
        ExecCall {
            command: t[i],
            input: step_input(stdin.bytes@, steps.take(i)),
            outcome: OutcomeModel::Success((#[trigger] steps[i]).bytes@),
        },
    ) by {
        let target = ExecCall {
            command: t[i],
            input: step_input(stdin.bytes@, steps.take(i)),
            outcome: OutcomeModel::Success(steps[i].bytes@),
        };
        if i < n {
            assert(cache_commands(c)[i] == c[i].command@);
            let e = entry_call(c, stdin.bytes@, i);
            assert(log0.contains(e));
            let idx = choose|idx: int| 0 <= idx < log0.len() && log0[idx] == e;
            assert(log.take(log0.len() as int)[idx] == log[idx]);
            if i > 0 {
                assert(steps.take(i).last() == steps[i - 1]);
            }
            assert(e == target);
            assert(log[idx] == target);
        } else {
            let j = i - n;
            assert(done[j] == calls[j]);
            assert(calls[j] == log[log0.len() + j]);
            assert(done[j] == target);
        }
    }
    if let Some(f) = run.failure {
        assert(calls.last() == log[log.len() - 1]);
    }
}

/// Whether the executions agree: the same command on the same input always
/// gave the same outcome.
pub open spec fn executions_agree(log: Seq<ExecCall>) -> bool {
    forall|i: int, j: int|
        0 <= i < log.len() && 0 <= j < log.len() && (#[trigger] log[i]).command == (#[trigger] log[j]).command
            && log[i].input == log[j].input ==> log[i].outcome == log[j].outcome
}

proof fn lemma_same_call_same_outcome(log: Seq<ExecCall>, a: ExecCall, b: ExecCall)
    requires
        executions_agree(log),
        log.contains(a),
        log.contains(b),
        a.command == b.command,
        a.input == b.input,
    ensures
        a.outcome == b.outcome,
{
    let i = choose|i: int| 0 <= i < log.len() && log[i] == a;
    let j = choose|j: int| 0 <= j < log.len() && log[j] == b;
    assert(log[i].command == log[j].command);
}

/// Two runs backed by agreeing executions have the same first `m` outputs.
proof fn lemma_steps_agree(log: Seq<ExecCall>, stdin: Seq<u8>, t: Seq<Seq<char>>, cached: PipelineRun, fresh: PipelineRun, m: int)
    requires
        executions_agree(log),
        steps_given(log, stdin, t, cached),
        steps_given(log, stdin, t, fresh),
        0 <= m <= cached.steps@.len(),
        m <= fresh.steps@.len(),
    ensures
        forall|j: int| 0 <= j < m ==> (#[trigger] cached.steps@[j]).bytes@ == fresh.steps@[j].bytes@,
    decreases m,
{
    if m > 0 {
        let i = m - 1;
        let a = cached.steps@;
        let b = fresh.steps@;
        lemma_steps_agree(log, stdin, t, cached, fresh, i);
        assert(step_input(stdin, a.take(i)) == step_input(stdin, b.take(i))) by {
            if i > 0 {
                assert(a.take(i).last() == a[i - 1]);
                assert(b.take(i).last() == b[i - 1]);
            }
        }
        let ca = ExecCall { command: t[i], input: step_input(stdin, a.take(i)), outcome: OutcomeModel::Success(a[i].bytes@) };
        let cb = ExecCall { command: t[i], input: step_input(stdin, b.take(i)), outcome: OutcomeModel::Success(b[i].bytes@) };
        assert(log.contains(ca));
        assert(log.contains(cb));
        lemma_same_call_same_outcome(log, ca, cb);
    }
}

/// Whether `run` is a run of the steps `t` as far as its shape goes: its
/// failure, if any, is at the step after the completed ones, and without one
/// every step completed.
pub open spec fn run_shape(run: PipelineRun, t: Seq<Seq<char>>) -> bool {
    &&& run.steps@.len() <= t.len()
    &&& (run.failure is None <==> run.steps@.len() == t.len())
}

/// Two runs of the same steps on the same input whose outputs the same
/// agreeing executions gave have the same outputs and failure.
proof fn lemma_runs_agree(
    log: Seq<ExecCall>,
    stdin: Seq<u8>,
    t: Seq<Seq<char>>,
    cached: PipelineRun,
    fresh: PipelineRun,
)
    requires
        executions_agree(log),
        steps_given(log, stdin, t, cached),
        steps_given(log, stdin, t, fresh),
        run_shape(cached, t),
        run_shape(fresh, t),
    ensures
        cached.steps@.len() == fresh.steps@.len(),
        forall|i: int| 0 <= i < cached.steps@.len() ==> (#[trigger] cached.steps@[i]).bytes@ == fresh.steps@[i].bytes@,
        cached.failure is Some <==> fresh.failure is Some,
        cached.failure matches Some(f) ==> (fresh.failure matches Some(g) && f.bytes@ == g.bytes@ && f.code == g.code),
{
    let a = cached.steps@;
    let b = fresh.steps@;
    let m: int = if a.len() <= b.len() { a.len() as int } else { b.len() as int };
    lemma_steps_agree(log, stdin, t, cached, fresh, m);
    assert(step_input(stdin, a.take(m)) == step_input(stdin, b.take(m))) by {
        if m > 0 {
            assert(a.take(m).last() == a[m - 1]);
            assert(b.take(m).last() == b[m - 1]);
        }
    }
    if a.len() < b.len() {
        let f = cached.failure->0;
        assert(a.take(m) =~= a);
        let ca = ExecCall { command: t[m], input: step_input(stdin, a), outcome: OutcomeModel::Failure(f.bytes@, f.code) };
        let cb = ExecCall { command: t[m], input: step_input(stdin, b.take(m)), outcome: OutcomeModel::Success(b[m].bytes@) };
        assert(log.contains(ca));
        assert(log.contains(cb));
        lemma_same_call_same_outcome(log, ca, cb);
    } else if b.len() < a.len() {
        let g = fresh.failure->0;
        assert(b.take(m) =~= b);
        let cb = ExecCall { command: t[m], input: step_input(stdin, b), outcome: OutcomeModel::Failure(g.bytes@, g.code) };
        let ca = ExecCall { command: t[m], input: step_input(stdin, a.take(m)), outcome: OutcomeModel::Success(a[m].bytes@) };
        assert(log.contains(ca));
        assert(log.contains(cb));
        lemma_same_call_same_outcome(log, ca, cb);
    } else if cached.failure is Some {
        let f = cached.failure->0;
        let g = fresh.failure->0;
        assert(a.take(m) =~= a);
        assert(b.take(m) =~= b);
        let ca = ExecCall { command: t[m], input: step_input(stdin, a), outcome: OutcomeModel::Failure(f.bytes@, f.code) };
        let cb = ExecCall { command: t[m], input: step_input(stdin, b), outcome: OutcomeModel::Failure(g.bytes@, g.code) };
        assert(log.contains(ca));
        assert(log.contains(cb));
        lemma_same_call_same_outcome(log, ca, cb);
    }
}

/// An execution found among `log` is found among `log` followed by more,
/// and among more executions followed by `log`.
proof fn lemma_steps_given_in_longer_log(log: Seq<ExecCall>, more: Seq<ExecCall>, stdin: Seq<u8>, t: Seq<Seq<char>>, run: PipelineRun)
    requires
        steps_given(log, stdin, t, run),
    ensures
        steps_given(log + more, stdin, t, run),
        steps_given(more + log, stdin, t, run),
{
    assert forall|x: ExecCall| log.contains(x) implies (log + more).contains(x) && (more + log).contains(x) by {
        let i = choose|i: int| 0 <= i < log.len() && log[i] == x;
        assert((log + more)[i] == x);
        assert((more + log)[more.len() + i] == x);
    }
}

/// The cache is transparent: a run by a caching runner and a run by a
/// runner with an empty cache, of the same steps on the same input, give
/// the same step outputs and the same failure (output and exit code), as
/// long as the executor gave the same outcome for the same command and input
/// across both runners' executions. `run` gives what this asks of each: its
/// steps are those of the trimmed steps, it fails only before the last, and,
/// since `new` starts a runner with a cache backed by its executions and
/// every run keeps it so, each of its outputs is one that the executor gave
/// for that step on the output of the step before (`steps_given`). So with
/// such an executor the cached flags, durations and which executions are
/// made are all that caching changes.
pub proof fn law_cache_is_transparent(
    cached_log: Seq<ExecCall>,
    fresh_log: Seq<ExecCall>,
    stdin: Seq<u8>,
    t: Seq<Seq<char>>,
    cached: PipelineRun,
    fresh: PipelineRun,
)
    requires
        executions_agree(cached_log + fresh_log),
        steps_given(cached_log, stdin, t, cached),
        steps_given(fresh_log, stdin, t, fresh),
        run_shape(cached, t),
        run_shape(fresh, t),
    ensures
        cached.steps@.len() == fresh.steps@.len(),
        forall|i: int| 0 <= i < cached.steps@.len() ==> (#[trigger] cached.steps@[i]).bytes@ == fresh.steps@[i].bytes@,
        cached.failure is Some <==> fresh.failure is Some,
        cached.failure matches Some(f) ==> (fresh.failure matches Some(g) && f.bytes@ == g.bytes@ && f.code == g.code),
{
    lemma_steps_given_in_longer_log(cached_log, fresh_log, stdin, t, cached);
    lemma_steps_given_in_longer_log(fresh_log, cached_log, stdin, t, fresh);
    lemma_runs_agree(cached_log + fresh_log, stdin, t, cached, fresh);
}

/// A run keeps the cache backed by the executions.
proof fn lemma_cache_stays_backed(
    c: Seq<CacheEntry>,
    stdin: Stdin,
    log0: Seq<ExecCall>,
    log: Seq<ExecCall>,
    t: Seq<Seq<char>>,
    run: PipelineRun,
    done: Seq<ExecCall>,
    use_cache: bool,
    c2: Seq<CacheEntry>,
)
    requires
        cache_backed(c, stdin.bytes@, log0),
        log.len() >= log0.len() + done.len(),
        log.take(log0.len() as int) == log0,
        forall|j: int| 0 <= j < done.len() ==> done[j] == log[log0.len() + j],
        run_consistent(run, stdin, t, c, reused_len(cache_commands(c), t)),
        executed_steps(done, stdin.bytes@, t, reused_len(cache_commands(c), t), run.steps@),
        cache_view(c2) == cache_after(
            c,
            kept_len(cache_commands(c), t),
            reused_len(cache_commands(c), t),
            run.steps@,
            use_cache,
        ),
    ensures
        cache_backed(c2, stdin.bytes@, log),
{
    let n = reused_len(cache_commands(c), t);
    let k = kept_len(cache_commands(c), t);
    law_kept_entries_agree(cache_commands(c), t);
    let steps = run.steps@;
    assert forall|i: int| 0 <= i < c2.len() implies log.contains(#[trigger] entry_call(c2, stdin.bytes@, i)) by {
        assert(cache_view(c2)[i] == entry_view(c2[i]));
        if i > 0 {
            assert(cache_view(c2)[i - 1] == entry_view(c2[i - 1]));
        }
        if i < k {
            assert(cache_view(c2)[i] == cache_view(c)[i]);
            assert(cache_view(c)[i] == entry_view(c[i]));
            if i > 0 {
                assert(cache_view(c2)[i - 1] == cache_view(c)[i - 1]);
                assert(cache_view(c)[i - 1] == entry_view(c[i - 1]));
            }
            let e = entry_call(c, stdin.bytes@, i);
            assert(entry_call(c2, stdin.bytes@, i) == e);
            assert(log0.contains(e));
            let idx = choose|idx: int| 0 <= idx < log0.len() && log0[idx] == e;
            assert(log.take(log0.len() as int)[idx] == log[idx]);
        } else {
            let j = i - k;
            assert(cache_view(c2).len() == c2.len());
            assert(cache_view(c).take(k as int).len() == k);
            if !use_cache {
                assert(cache_view(c2).len() == k);
            }
            assert(use_cache);
            assert(steps.skip(n as int).len() == steps.len() - n);
            assert(steps_as_entries(steps.skip(n as int)).len() == steps.len() - n);
            assert(c2.len() == k + steps.len() - n);
            assert(k == n);
            assert(cache_view(c2)[i] == steps_as_entries(steps.skip(n as int))[j]);
            assert(steps.skip(n as int)[j] == steps[n + j]);
            if i > 0 {
                if i - 1 < k {
                    assert(cache_view(c2)[i - 1] == cache_view(c)[i - 1]);
                    assert(cache_view(c)[i - 1] == entry_view(c[i - 1]));
                } else {
                    assert(cache_view(c2)[i - 1] == steps_as_entries(steps.skip(n as int))[j - 1]);
                    assert(steps.skip(n as int)[j - 1] == steps[n + j - 1]);
                }
                assert(steps.take(n + j).last() == steps[n + j - 1]);
            }
            assert(done[j].command == t[n + j]);
            assert(entry_call(c2, stdin.bytes@, i) == done[j]);
            assert(log[log0.len() + j] == done[j]);
        }
    }
}

impl<E: Exec> PipelineRunner for CachedPipelineRunner<E> {
    /// Runs `rura`: the steps still in the cache are taken from it, the
    /// others are executed in order, each on the output of the one before (the
    /// first on the runner's input), until one fails. With `use_cache`, each
    /// executed step that succeeds is remembered.
    #[verifier::rlimit(80)]
    #[verifier::spinoff_prover]
    fn run(&mut self, rura: &Rura) -> (r: Result<PipelineRun, RunError>)
        ensures
            final(self).executor == old(self).executor,
            final(self).stdin == old(self).stdin,
            final(self).use_cache == old(self).use_cache,
            final(self).executions@.len() >= old(self).executions@.len(),
            final(self).executions@.take(old(self).executions@.len() as int) == old(self).executions@,
            final(self).timings@.len() >= old(self).timings@.len(),
            final(self).timings@.take(old(self).timings@.len() as int) == old(self).timings@,
            ({
                let t = rura.trimmed_view();
                let c = old(self).cache@;
                let k = kept_len(cache_commands(c), t);
                let n = reused_len(cache_commands(c), t);
                let calls = final(self).executions@.skip(old(self).executions@.len() as int);
                &&& n == t.len() ==> r is Ok
                &&& match r {
                    Ok(run) => {
                        &&& run_consistent(run, old(self).stdin, t, c, n)
                        &&& timed_steps(
                            run.steps@,
                            run.failure,
                            n,
                            final(self).timings@.skip(old(self).timings@.len() as int),
                        )
                        &&& (run.failure is None <==> run.steps@.len() == t.len())
                        &&& cache_view(final(self).cache@) == cache_after(c, k, n, run.steps@, old(self).use_cache)
                        &&& ran_as(run, calls, old(self).stdin.bytes@, t, n)
                    },
                    Err(e) => {
                        &&& calls.len() >= 1
                        &&& match e {
                            RunError::Exec(m) => calls.last().outcome == OutcomeModel::NotStarted(m@),
                            RunError::Clock => !(calls.last().outcome is NotStarted),
                        }
                        &&& k <= final(self).cache@.len()
                        &&& cache_view(final(self).cache@).take(k as int) == cache_view(c).take(k as int)
                        &&& exists|run: PipelineRun|
                            #[trigger] gave_up_after(run, calls, old(self).stdin, t, c, final(self).cache@, old(self).use_cache)
                    },
                }
                &&& !old(self).use_cache && c.len() == 0 ==> final(self).cache@.len() == 0
                &&& c.len() == 0 ==> {
                    &&& n == 0
                    &&& r matches Ok(run) ==> {
                        &&& ran_as(run, calls, old(self).stdin.bytes@, t, 0)
                        &&& forall|i: int| 0 <= i < run.steps@.len() ==> !(#[trigger] run.steps@[i]).cached
                    }
                }
                &&& cache_backed(c, old(self).stdin.bytes@, old(self).executions@) ==> {
                    &&& cache_backed(final(self).cache@, old(self).stdin.bytes@, final(self).executions@)
                    &&& r matches Ok(run) ==> steps_given(final(self).executions@, old(self).stdin.bytes@, t, run)
                }
            }),
    {
        let ghost t = rura.trimmed_view();
        let ghost c = self.cache@;
        let ghost k = kept_len(cache_commands(c), t);
        let ghost n = reused_len(cache_commands(c), t);
        let ghost stdin0 = self.stdin;
        let ghost log0 = self.executions@;
        let ghost tim0 = self.timings@;
        proof {
            if c.len() == 0 {
                assert(cache_commands(c) =~= Seq::<Seq<char>>::empty());
                law_empty_cache_reuses_nothing(t);
            }
        }
        let mut p = self.start(rura);
        proof {
            assert(cache_view(self.cache@) =~= cache_after(c, k, n, p.run.steps@, self.use_cache));
            assert(self.executions@.take(log0.len() as int) =~= log0);
            assert(self.executions@.skip(log0.len() as int) =~= Seq::<ExecCall>::empty());
            lemma_timings_grew_start(tim0, p.run.steps@, n);
        }
        while p.run.failure.is_none() && p.run.steps.len() < p.commands.len()
            invariant
                self.stdin == stdin0,
                stdin0 == old(self).stdin,
                c == old(self).cache@,
                t == rura.trimmed_view(),
                k == kept_len(cache_commands(c), t),
                n == reused_len(cache_commands(c), t),
                strings_view(p.commands@) == t,
                p.reused == n,
                k <= c.len(),
                n <= k || n == t.len(),
                run_consistent(p.run, stdin0, t, c, n),
                cache_view(self.cache@) == cache_after(c, k, n, p.run.steps@, self.use_cache),
                self.executor == old(self).executor,
                self.use_cache == old(self).use_cache,
                log0 == old(self).executions@,
                self.executions@.len() >= log0.len(),
                self.executions@.take(log0.len() as int) == log0,
                ran_as(p.run, self.executions@.skip(log0.len() as int), stdin0.bytes@, t, n),
                tim0 == old(self).timings@,
                timings_grew(tim0, self.timings@, p.run.steps@, p.run.failure, n),
            decreases p.commands@.len() - p.run.steps@.len() + if p.run.failure is None { 1int } else { 0int },
        {
            let ghost done = self.executions@.skip(log0.len() as int);
            let started = clock_now();
            let result = self.executor.exec(&p.commands[p.run.steps.len()], self.input_for(&p));
            let ghost call = ExecCall {
                command: p.commands@[p.run.steps@.len() as int]@,
                input: step_input(stdin0.bytes@, p.run.steps@),
                outcome: outcome_of(result),
            };
            self.executions = Ghost(self.executions@.push(call));
            proof {
                let calls = self.executions@.skip(log0.len() as int);
                assert(self.executions@.take(log0.len() as int) =~= log0);
                assert(calls =~= done.push(call));
                assert(calls.drop_last() =~= done);
                assert(strings_view(p.commands@)[p.run.steps@.len() as int] == p.commands@[p.run.steps@.len() as int]@);
                assert(gave_up_after(p.run, calls, stdin0, t, c, self.cache@, self.use_cache));
            }
            match result {
                Err(e) => {
                    proof {
                        lemma_timings_grew_unfold(tim0, self.timings@, p.run.steps@, p.run.failure, n);
                        assert(cache_view(self.cache@).take(k as int) =~= cache_view(c).take(k as int));
                        if cache_backed(c, stdin0.bytes@, log0) {
                            lemma_cache_stays_backed(c, stdin0, log0, self.executions@, t, p.run, done, self.use_cache, self.cache@);
                        }
                    }
                    return Err(RunError::Exec(e));
                },
                Ok(output) => {
                    let duration = match nanos_since(&started) {
                        Ok(d) => d,
                        Err(e) => {
                            proof {
                                lemma_timings_grew_unfold(tim0, self.timings@, p.run.steps@, p.run.failure, n);
                                assert(cache_view(self.cache@).take(k as int) =~= cache_view(c).take(k as int));
                                if cache_backed(c, stdin0.bytes@, log0) {
                                    lemma_cache_stays_backed(c, stdin0, log0, self.executions@, t, p.run, done, self.use_cache, self.cache@);
                                }
                            }
                            return Err(e);
                        },
                    };
                    let ghost steps0 = p.run.steps@;
                    let ghost cache0 = self.cache@;
                    let ghost timing = StepTiming { started, nanos: duration };
                    let ghost timings0 = self.timings@;
                    self.timings = Ghost(self.timings@.push(timing));
                    assert(forall|i: int| 0 <= i < n ==> (#[trigger] steps0[i]).bytes@ == c[i].bytes@ && steps0[i].duration == c[i].duration);
                    self.record(&mut p, output, duration);
                    proof {
                        lemma_timings_grew_step(tim0, timings0, steps0, p.run.steps@, p.run.failure, n, timing);
                        assert({
                            &&& run_consistent(p.run, stdin0, t, c, n)
                            &&& cache_view(self.cache@) == cache_after(c, k, n, p.run.steps@, self.use_cache)
                            &&& ran_as(p.run, self.executions@.skip(log0.len() as int), stdin0.bytes@, t, n)
                        }) by {
                            assert(strings_view(p.commands@)[steps0.len() as int] == p.commands@[steps0.len() as int]@);
                            if p.run.steps@.len() > steps0.len() {
                                assert(p.run.steps@.skip(n as int).drop_last() =~= steps0.skip(n as int));
                                assert(steps_as_entries(p.run.steps@.skip(n as int)) =~= steps_as_entries(
                                    steps0.skip(n as int),
                                ).push(step_entry(p.run.steps@.last())));
                                assert forall|i: int| 0 <= i < steps0.len() implies p.run.steps@[i] == steps0[i] by {
                                    assert(p.run.steps@.drop_last()[i] == steps0[i]);
                                }
                                let last = steps0.len() as int;
                                assert(p.run.steps@[last] == p.run.steps@.last());
                                assert forall|i: int| 0 <= i < p.run.steps@.len() implies {
                                    &&& (#[trigger] p.run.steps@[i]).command@ == t[i]
                                    &&& p.run.steps@[i].lines == line_count_spec(p.run.steps@[i].bytes@)
                                    &&& p.run.steps@[i].cached == (i < n)
                                } by {
                                    if i < last {
                                        assert(p.run.steps@[i] == steps0[i]);
                                    }
                                }
                            }
                            assert(cache_view(self.cache@) =~= cache_after(c, k, n, p.run.steps@, self.use_cache));
                            assert(p.run.stdin.bytes@ == stdin0.bytes@);
                            assert(n <= p.run.steps@.len() <= t.len());
                            assert forall|i: int| 0 <= i < n implies (#[trigger] p.run.steps@[i]).bytes@ == c[i].bytes@ && p.run.steps@[i].duration == c[i].duration by {
                                assert(p.run.steps@[i] == steps0[i]);
                            }
                            assert(p.run.failure matches Some(f) ==> p.run.steps@.len() < t.len());
                            assert(p.run.failure matches Some(f) ==> f.command@ == t[p.run.steps@.len() as int]);
                            let calls = self.executions@.skip(log0.len() as int);
                            if p.run.steps@.len() > steps0.len() {
                                let steps1 = p.run.steps@;
                                assert forall|j: int| 0 <= j < calls.len() implies {
                                    &&& (#[trigger] calls[j]).command == t[n + j]
                                    &&& calls[j].input == step_input(stdin0.bytes@, steps1.take(n + j))
                                    &&& calls[j].outcome == OutcomeModel::Success(steps1[n + j].bytes@)
                                } by {
                                    assert(steps1.take(n + j) =~= steps0.take(n + j));
                                    if j < done.len() {
                                        assert(calls[j] == done[j]);
                                        assert(steps1[n + j] == steps0[n + j]);
                                    } else {
                                        assert(calls[j] == call);
                                        assert(n + j == steps0.len());
                                        assert(steps0.take(n + j) =~= steps0);
                                    }
                                }
                            }
                        }
                    }
                },
            }
        }
        proof {
            lemma_timings_grew_unfold(tim0, self.timings@, p.run.steps@, p.run.failure, n);
            if cache_backed(c, stdin0.bytes@, log0) {
                law_every_step_is_an_execution_output(c, stdin0, log0, self.executions@, t, p.run);
                let calls = self.executions@.skip(log0.len() as int);
                let done = if p.run.failure is None { calls } else { calls.drop_last() };
                assert forall|j: int| 0 <= j < done.len() implies done[j] == self.executions@[log0.len() + j] by {
                    assert(done[j] == calls[j]);
                }
                lemma_cache_stays_backed(c, stdin0, log0, self.executions@, t, p.run, done, self.use_cache, self.cache@);
            }
            if !self.use_cache && c.len() == 0 {
                assert(cache_view(self.cache@).len() == 0);
            }
        }
        Ok(p.run)
    }

    /// Takes a new input, which invalidates every remembered step.
    fn update_stdin(&mut self, stdin: Vec<u8>)
        ensures
            final(self).executor == old(self).executor,
            final(self).use_cache == old(self).use_cache,
            final(self).stdin.bytes@ == stdin@,
            final(self).stdin.lines == line_count_spec(stdin@),
            final(self).cache@.len() == 0,
            final(self).executions == old(self).executions,
            final(self).timings == old(self).timings,
            cache_backed(final(self).cache@, final(self).stdin.bytes@, final(self).executions@),
    {
        self.stdin = Stdin::new(stdin);
        self.cache.clear();
    }
}

} // verus!
