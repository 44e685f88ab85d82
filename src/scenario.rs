//! One scenario as a state machine, and the report a sweep builds.
//!
//! The caller performs each `Action` (spawning, writing, reading, waiting)
//! and hands back what happened as an `Event`, with the time elapsed since the
//! scenario began. The machine decides what comes next and keeps the timing.
use vstd::prelude::*;
use crate::protocol::{decimal, fill_random_request, fill_random_verb, set_memory_size_request, set_memory_size_verb};
use crate::stats::{aggregate, sum_of, Aggregates};
use crate::sweep::SweepConfig;

verus! {

#[derive(Clone, Copy, Debug, PartialEq, Eq)]
pub enum Phase {
    Idle,
    LoadStarting,
    Sizing,
    Filling,
    Iterating,
    TearingDown,
    Completed,
    Failed,
}

/// What happened since the last action.
#[derive(Clone, Copy, Debug, PartialEq, Eq)]
pub enum Event {
    /// The workload generator is running.
    LoadStarted,
    /// The `Done` sentinel arrived.
    Acknowledged,
    /// The target exited on its own.
    TargetExited,
    /// Spawning, writing, reading or reaping failed.
    StepFailed,
    /// The workload generator was told to exit and has been reaped.
    TornDown,
}

/// What the caller does next.
#[derive(Clone, Debug, PartialEq, Eq)]
pub enum Action {
    /// Spawn the workload generator.
    StartLoad,
    /// Write the line to the workload generator, then read until `Done`.
    Request(Vec<u8>),
    /// Run the target once against the workload generator's process id.
    RunTarget,
    /// Send `exit` to the workload generator and reap it.
    TearDown,
    /// The scenario is over.
    Finish,
}

/// Durations of one scenario.
#[derive(Clone, Debug, PartialEq, Eq)]
pub struct Timing {
    pub setup: u64,
    /// One per completed iteration, in iteration order.
    pub durations: Vec<u64>,
    pub total: u64,
}

pub struct Scenario {
    size: u64,
    seed: u64,
    iterations: usize,
    phase: Phase,
    clock: u64,
    mark: u64,
    failed: bool,
    timing: Timing,
}

impl Scenario {
    pub closed spec fn size_spec(&self) -> u64 {
        self.size
    }

    pub closed spec fn seed_spec(&self) -> u64 {
        self.seed
    }

    pub closed spec fn iterations_spec(&self) -> usize {
        self.iterations
    }

    pub closed spec fn phase_spec(&self) -> Phase {
        self.phase
    }

    pub closed spec fn clock_spec(&self) -> u64 {
        self.clock
    }

    /// When the running target was started.
    pub closed spec fn mark_spec(&self) -> u64 {
        self.mark
    }

    pub closed spec fn timing_spec(&self) -> Timing {
        self.timing
    }

    pub open spec fn durations_spec(&self) -> Seq<u64> {
        self.timing_spec().durations@
    }

    pub open spec fn is_finished(&self) -> bool {
        self.phase_spec() == Phase::Completed || self.phase_spec() == Phase::Failed
    }

    pub closed spec fn wf(&self) -> bool {
        &&& self.timing.durations@.len() <= self.iterations
        &&& self.mark <= self.clock
        &&& self.timing.setup <= self.clock
        &&& self.timing.total <= self.clock
        &&& self.timing.setup + sum_of(self.timing.durations@) <= self.mark
        &&& (self.phase == Phase::Iterating ==> self.timing.durations@.len() < self.iterations)
        &&& (self.phase == Phase::Completed ==> {
            &&& self.timing.durations@.len() == self.iterations
            &&& self.timing.total == self.clock
            &&& !self.failed
        })
        &&& (self.phase == Phase::Failed ==> self.failed)
        &&& (self.phase == Phase::TearingDown && !self.failed ==> self.timing.durations@.len() == self.iterations)
        &&& (self.phase == Phase::Idle || self.phase == Phase::LoadStarting || self.phase == Phase::Sizing
            || self.phase == Phase::Filling ==> self.timing.durations@.len() == 0 && !self.failed)
    }

    /// Whether `event` can follow the last action.
    pub open spec fn accepts_spec(&self, event: Event) -> bool {
        match self.phase_spec() {
            Phase::LoadStarting => event == Event::LoadStarted || event == Event::StepFailed,
            Phase::Sizing | Phase::Filling => event == Event::Acknowledged || event == Event::StepFailed,
            Phase::Iterating => event == Event::TargetExited || event == Event::StepFailed,
            Phase::TearingDown => event == Event::TornDown || event == Event::StepFailed,
            _ => false,
        }
    }

    /// A scenario at workload size `size`, filled from `seed`, running the
    /// target `iterations` times.
    pub fn new(size: u64, seed: u64, iterations: usize) -> (r: Scenario)
        ensures
            r.wf(),
            r.size_spec() == size,
            r.seed_spec() == seed,
            r.iterations_spec() == iterations,
            r.phase_spec() == Phase::Idle,
            r.durations_spec().len() == 0,
            !r.failed_spec(),
    {
        Scenario {
            size,
            seed,
            iterations,
            phase: Phase::Idle,
            clock: 0,
            mark: 0,
            failed: false,
            timing: Timing { setup: 0, durations: Vec::new(), total: 0 },
        }
    }

    pub fn size(&self) -> (r: u64)
        ensures
            r == self.size_spec(),
    {
        self.size
    }

    pub fn seed(&self) -> (r: u64)
        ensures
            r == self.seed_spec(),
    {
        self.seed
    }

    pub fn iterations(&self) -> (r: usize)
        ensures
            r == self.iterations_spec(),
    {
        self.iterations
    }

    pub fn phase(&self) -> (r: Phase)
        ensures
            r == self.phase_spec(),
    {
        self.phase
    }

    pub fn accepts(&self, event: Event) -> (r: bool)
        ensures
            r == self.accepts_spec(event),
    {
        match self.phase {
            Phase::LoadStarting => matches!(event, Event::LoadStarted | Event::StepFailed),
            Phase::Sizing | Phase::Filling => matches!(event, Event::Acknowledged | Event::StepFailed),
            Phase::Iterating => matches!(event, Event::TargetExited | Event::StepFailed),
            Phase::TearingDown => matches!(event, Event::TornDown | Event::StepFailed),
            _ => false,
        }
    }

    /// Begins the scenario: the workload generator is started first.
    pub fn start(&mut self) -> (r: Action)
        requires
            old(self).wf(),
            old(self).phase_spec() == Phase::Idle,
        ensures
            final(self).wf(),
            r == Action::StartLoad,
            final(self).phase_spec() == Phase::LoadStarting,
            final(self).size_spec() == old(self).size_spec(),
            final(self).seed_spec() == old(self).seed_spec(),
            final(self).iterations_spec() == old(self).iterations_spec(),
            final(self).failed_spec() == old(self).failed_spec(),
            final(self).durations_spec() == old(self).durations_spec(),
            final(self).clock_spec() == old(self).clock_spec(),
    {
        self.phase = Phase::LoadStarting;
        Action::StartLoad
    }

    /// Takes the outcome of the last action, observed `at` time units after
    /// the scenario began, and returns the next action.
    ///
    /// The setup handshake sends `set-memory-size <size>` and then
    /// `fill-random <seed>`, each acknowledged by `Done`, before the first
    /// target run. A failure skips the remaining iterations but still tears
    /// the workload generator down once it was started.
    pub fn step(&mut self, event: Event, at: u64) -> (r: Action)
        requires
            old(self).wf(),
            old(self).accepts_spec(event),
        ensures
            final(self).wf(),
            final(self).size_spec() == old(self).size_spec(),
            final(self).seed_spec() == old(self).seed_spec(),
            final(self).iterations_spec() == old(self).iterations_spec(),
            final(self).clock_spec() == if at > old(self).clock_spec() { at } else { old(self).clock_spec() },
            ({
                let ph = old(self).phase_spec();
                let n = old(self).durations_spec().len();
                let next = final(self).phase_spec();
                if event == Event::StepFailed {
                    if ph == Phase::LoadStarting || ph == Phase::TearingDown {
                        next == Phase::Failed && r == Action::Finish
                    } else {
                        next == Phase::TearingDown && r == Action::TearDown
                    }
                } else if ph == Phase::LoadStarting {
                    next == Phase::Sizing && (r matches Action::Request(line)
                        && line@ == set_memory_size_verb() + decimal(old(self).size_spec() as nat))
                } else if ph == Phase::Sizing {
                    next == Phase::Filling && (r matches Action::Request(line)
                        && line@ == fill_random_verb() + decimal(old(self).seed_spec() as nat))
                } else if ph == Phase::Filling {
                    &&& final(self).timing_spec().setup == final(self).clock_spec()
                    &&& if old(self).iterations_spec() == 0 {
                        next == Phase::TearingDown && r == Action::TearDown
                    } else {
                        next == Phase::Iterating && r == Action::RunTarget
                    }
                } else if ph == Phase::Iterating {
                    &&& final(self).durations_spec().len() == n + 1
                    &&& final(self).durations_spec().subrange(0, n as int) == old(self).durations_spec()
                    &&& final(self).durations_spec()[n as int] == final(self).clock_spec() - old(self).mark_spec()
                    &&& if n + 1 == old(self).iterations_spec() {
                        next == Phase::TearingDown && r == Action::TearDown
                    } else {
                        next == Phase::Iterating && r == Action::RunTarget
                    }
                } else {
                    &&& r == Action::Finish
                    &&& final(self).timing_spec().total == final(self).clock_spec()
                    &&& next == (if old(self).failed_spec() { Phase::Failed } else { Phase::Completed })
                }
            }),
            event != Event::TargetExited ==> final(self).durations_spec() == old(self).durations_spec(),
            event == Event::StepFailed ==> final(self).failed_spec(),
            r == Action::RunTarget ==> final(self).mark_spec() == final(self).clock_spec(),
            event != Event::StepFailed ==> final(self).failed_spec() == old(self).failed_spec(),
    {
        if at > self.clock {
            self.clock = at;
        }
        match event {
            Event::StepFailed => {
                self.failed = true;
                if matches!(self.phase, Phase::LoadStarting | Phase::TearingDown) {
                    if matches!(self.phase, Phase::TearingDown) {
                        self.timing.total = self.clock;
                    }
                    self.phase = Phase::Failed;
                    Action::Finish
                } else {
                    self.phase = Phase::TearingDown;
                    Action::TearDown
                }
            },
            Event::LoadStarted => {
                self.phase = Phase::Sizing;
                Action::Request(set_memory_size_request(self.size))
            },
            Event::Acknowledged => {
                if matches!(self.phase, Phase::Sizing) {
                    self.phase = Phase::Filling;
                    Action::Request(fill_random_request(self.seed))
                } else {
                    self.timing.setup = self.clock;
                    self.mark = self.clock;
                    if self.iterations == 0 {
                        self.phase = Phase::TearingDown;
                        Action::TearDown
                    } else {
                        self.phase = Phase::Iterating;
                        Action::RunTarget
                    }
                }
            },
            Event::TargetExited => {
                let elapsed = self.clock - self.mark;
                let ghost before = self.timing.durations@;
                self.timing.durations.push(elapsed);
                proof {
                    assert(self.timing.durations@.drop_last() =~= before);
                }
                self.mark = self.clock;
                if self.timing.durations.len() == self.iterations {
                    self.phase = Phase::TearingDown;
                    Action::TearDown
                } else {
                    self.phase = Phase::Iterating;
                    Action::RunTarget
                }
            },
            Event::TornDown => {
                self.timing.total = self.clock;
                if self.failed {
                    self.phase = Phase::Failed;
                } else {
                    self.phase = Phase::Completed;
                }
                Action::Finish
            },
        }
    }

    pub closed spec fn failed_spec(&self) -> bool {
        self.failed
    }

    /// The timing gathered so far.
    pub fn timing(&self) -> (r: Timing)
        ensures
            r.setup == self.timing_spec().setup,
            r.total == self.timing_spec().total,
            r.durations@ == self.durations_spec(),
    {
        Timing {
            setup: self.timing.setup,
            durations: self.timing.durations.clone(),
            total: self.timing.total,
        }
    }

    /// The result of a finished scenario.
    pub fn result(&self) -> (r: ScenarioResult)
        requires
            self.wf(),
            self.is_finished(),
        ensures
            r.size == self.size_spec(),
            r.seed == self.seed_spec(),
            r.failed == (self.phase_spec() == Phase::Failed),
            r.timing.durations@ == self.durations_spec(),
            r.timing.setup == self.timing_spec().setup,
            r.timing.total == self.timing_spec().total,
            r.well_formed(),
    {
        let timing = self.timing();
        ScenarioResult::new(self.size, self.seed, timing, matches!(self.phase, Phase::Failed))
    }
}

/// A finished scenario completed every iteration, and its total time covers
/// the setup and every iteration.
pub proof fn lemma_completed_timing(s: Scenario)
    requires
        s.wf(),
        s.phase_spec() == Phase::Completed,
    ensures
        s.durations_spec().len() == s.iterations_spec(),
        s.timing_spec().total >= s.timing_spec().setup + sum_of(s.durations_spec()),
{
}

/// Outcome of one scenario. Aggregates are present exactly when at least
/// one iteration finished.
#[derive(Clone, Debug, PartialEq, Eq)]
pub struct ScenarioResult {
    pub size: u64,
    pub seed: u64,
    pub timing: Timing,
    pub failed: bool,
    pub aggregates: Option<Aggregates>,
}

impl ScenarioResult {
    pub open spec fn well_formed(&self) -> bool {
        let d = self.timing.durations@;
        &&& (self.aggregates is Some <==> d.len() > 0)
        &&& (self.aggregates matches Some(a) ==> a.describes(d))
    }

    /// Gathers a scenario's outcome, computing the aggregates only over a
    /// non-empty sample.
    pub fn new(size: u64, seed: u64, timing: Timing, failed: bool) -> (r: ScenarioResult)
        ensures
            r.size == size,
            r.seed == seed,
            r.timing == timing,
            r.failed == failed,
            r.well_formed(),
    {
        let aggregates = if timing.durations.len() > 0 {
            Some(aggregate(&timing.durations))
        } else {
            None
        };
        ScenarioResult { size, seed, timing, failed, aggregates }
    }
}

/// The configuration of a run and the result of each scenario, in
/// increasing workload size.
pub struct Report {
    pub program: String,
    pub commands: String,
    pub nthreads: i32,
    pub sweep: SweepConfig,
    pub iterations: usize,
    pub timeout: u64,
    pub results: Vec<ScenarioResult>,
}

impl Report {
    pub open spec fn results_spec(&self) -> Seq<ScenarioResult> {
        self.results@
    }

    pub open spec fn increasing(&self) -> bool {
        forall|i: int, j: int| 0 <= i < j < self.results_spec().len() ==>
            self.results_spec()[i].size < self.results_spec()[j].size
    }

    pub fn new(program: String, commands: String, nthreads: i32, sweep: SweepConfig, iterations: usize, timeout: u64) -> (r: Report)
        ensures
            r.results_spec().len() == 0,
            r.program == program,
            r.commands == commands,
            r.nthreads == nthreads,
            r.sweep == sweep,
            r.iterations == iterations,
            r.timeout == timeout,
    {
        Report { program, commands, nthreads, sweep, iterations, timeout, results: Vec::new() }
    }

    /// Appends the next scenario's result, which must be for a larger size
    /// than any before.
    pub fn add(&mut self, result: ScenarioResult)
        requires
            old(self).increasing(),
            old(self).results_spec().len() > 0 ==> old(self).results_spec().last().size < result.size,
        ensures
            final(self).results_spec() == old(self).results_spec().push(result),
            final(self).increasing(),
            final(self).sweep == old(self).sweep,
    {
        self.results.push(result);
    }

    pub fn results(&self) -> (r: &Vec<ScenarioResult>)
        ensures
            r@ == self.results_spec(),
    {
        &self.results
    }

    /// The size of the last result, if any.
    pub fn last_size(&self) -> (r: Option<u64>)
        ensures
            r is None <==> self.results_spec().len() == 0,
            r matches Some(s) ==> s == self.results_spec().last().size,
    {
        if self.results.len() == 0 {
            None
        } else {
            Some(self.results[self.results.len() - 1].size)
        }
    }
}

} // verus!
