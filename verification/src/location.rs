//! The state of one control point: how often it was visited, whether a
//! trace of it is being recorded or compiled, and the compiled trace.
//!
//! A location is shared by the threads that run the interpreter. Every
//! function here is one atomic step on the location: callers make the
//! steps one after the other, under a lock or with a compare-and-swap of
//! the packed state.

use crate::compile::{CompilationError, TraceId};
use crate::trace::InvalidTraceError;
use vstd::prelude::*;

verus! {

/// How often a location is visited before it is traced.
pub type HotThreshold = u32;

/// The state of a location.
#[derive(Debug, Clone, Copy, PartialEq, Eq, Structural)]
pub enum State {
    /// Not yet hot: visited this often.
    Counter(u32),
    /// A recorder for this location is active on the thread `owner`.
    Tracing { owner: u64 },
    /// Recording finished; a compilation job is queued or in flight.
    Compiling,
    /// A trace was compiled for this location.
    Compiled { trace: TraceId },
    /// Permanently skipped.
    DontTrace,
}

/// What the thread that visits a location is to do.
#[derive(Debug, Clone, Copy, PartialEq, Eq, Structural)]
pub enum Action {
    /// Go on interpreting.
    Interpret,
    /// Start a recorder on this thread, then go on interpreting.
    StartTracing,
    /// Stop this thread's recorder and submit a compilation job.
    StopTracing,
    /// Execute the compiled trace.
    Execute(TraceId),
}

/// How a compilation job ended.
#[derive(Debug, Clone, Copy, PartialEq, Eq, Structural)]
pub enum CompileOutcome {
    Compiled(TraceId),
    Temporary,
    Unrecoverable,
}

/// What happens to a location.
#[derive(Debug, Clone, Copy, PartialEq, Eq, Structural)]
pub enum Event {
    /// The thread `thread` reaches the control point.
    Visit { thread: u64 },
    /// A compilation job for the location ends.
    CompileDone { outcome: CompileOutcome },
}

/// The state after a visit by `thread`, and what the thread is to do.
pub open spec fn visit(s: State, thread: u64, hot_threshold: HotThreshold) -> (State, Action) {
    match s {
        State::Counter(n) => if n < hot_threshold {
            (State::Counter((n + 1) as u32), Action::Interpret)
        } else {
            (State::Tracing { owner: thread }, Action::StartTracing)
        },
        State::Tracing { owner } => if owner == thread {
            (State::Compiling, Action::StopTracing)
        } else {
            (s, Action::Interpret)
        },
        State::Compiling => (s, Action::Interpret),
        State::Compiled { trace } => (s, Action::Execute(trace)),
        State::DontTrace => (s, Action::Interpret),
    }
}

/// The state after a compilation job has ended. The end of a job counts
/// only while the location waits for one.
pub open spec fn compile_done(s: State, outcome: CompileOutcome) -> State {
    if s is Compiling {
        match outcome {
            CompileOutcome::Compiled(trace) => State::Compiled { trace },
            CompileOutcome::Temporary => State::Counter(0),
            CompileOutcome::Unrecoverable => State::DontTrace,
        }
    } else {
        s
    }
}

/// How the result of a compilation counts for the location.
pub open spec fn outcome_of(result: Result<TraceId, CompilationError>) -> CompileOutcome {
    match result {
        Ok(trace) => CompileOutcome::Compiled(trace),
        Err(CompilationError::Temporary(_)) => CompileOutcome::Temporary,
        Err(CompilationError::Unrecoverable(_)) => CompileOutcome::Unrecoverable,
    }
}

/// The state after one event.
pub open spec fn apply(s: State, e: Event, hot_threshold: HotThreshold) -> State {
    match e {
        Event::Visit { thread } => visit(s, thread, hot_threshold).0,
        Event::CompileDone { outcome } => compile_done(s, outcome),
    }
}

/// The state after the first `k` of the events `es`.
pub open spec fn state_after(s: State, es: Seq<Event>, hot_threshold: HotThreshold, k: nat) -> State
    decreases k,
{
    if k == 0 {
        s
    } else {
        apply(state_after(s, es, hot_threshold, (k - 1) as nat), es[k - 1], hot_threshold)
    }
}

/// Whether the event `e`, met in state `s`, starts a recorder.
pub open spec fn starts_recorder(s: State, e: Event, hot_threshold: HotThreshold) -> bool {
    e matches Event::Visit { thread } && visit(s, thread, hot_threshold).1 is StartTracing
}

/// Whether the event `e`, met in state `s`, stops the recorder and
/// submits a compilation job.
pub open spec fn submits_job(s: State, e: Event, hot_threshold: HotThreshold) -> bool {
    e matches Event::Visit { thread } && visit(s, thread, hot_threshold).1 is StopTracing
}

/// Whether the event `e`, met in state `s`, is the end of the job that
/// the location waits for.
pub open spec fn ends_job(s: State, e: Event) -> bool {
    e is CompileDone && s is Compiling
}

/// How many recorders the first `k` events start.
pub open spec fn recorders_started(s: State, es: Seq<Event>, hot_threshold: HotThreshold, k: nat)
    -> nat
    decreases k,
{
    if k == 0 {
        0
    } else {
        let before = recorders_started(s, es, hot_threshold, (k - 1) as nat);
        if starts_recorder(
            state_after(s, es, hot_threshold, (k - 1) as nat),
            es[k - 1],
            hot_threshold,
        ) {
            before + 1
        } else {
            before
        }
    }
}

/// How many compilation jobs the first `k` events submit.
pub open spec fn jobs_submitted(s: State, es: Seq<Event>, hot_threshold: HotThreshold, k: nat)
    -> nat
    decreases k,
{
    if k == 0 {
        0
    } else {
        let before = jobs_submitted(s, es, hot_threshold, (k - 1) as nat);
        if submits_job(state_after(s, es, hot_threshold, (k - 1) as nat), es[k - 1], hot_threshold) {
            before + 1
        } else {
            before
        }
    }
}

/// How many of the submitted jobs have ended within the first `k` events.
pub open spec fn jobs_ended(s: State, es: Seq<Event>, hot_threshold: HotThreshold, k: nat) -> nat
    decreases k,
{
    if k == 0 {
        0
    } else {
        let before = jobs_ended(s, es, hot_threshold, (k - 1) as nat);
        if ends_job(state_after(s, es, hot_threshold, (k - 1) as nat), es[k - 1]) {
            before + 1
        } else {
            before
        }
    }
}

/// Whatever threads visit a location that starts as a counter, in whatever
/// order, and whenever its compilation jobs end: at every moment at most
/// one recorder is active, and one is active exactly while the location is
/// `Tracing`; at most one compilation job is in flight, and one is in
/// flight exactly while the location is `Compiling`.
pub proof fn lemma_single_recorder_single_job(
    n: u32,
    es: Seq<Event>,
    hot_threshold: HotThreshold,
    k: nat,
)
    ensures
        ({
            let s0 = State::Counter(n);
            let s = state_after(s0, es, hot_threshold, k);
            let active = recorders_started(s0, es, hot_threshold, k) - jobs_submitted(
                s0,
                es,
                hot_threshold,
                k,
            );
            let in_flight = jobs_submitted(s0, es, hot_threshold, k) - jobs_ended(
                s0,
                es,
                hot_threshold,
                k,
            );
            &&& active == if s is Tracing {
                1int
            } else {
                0int
            }
            &&& in_flight == if s is Compiling {
                1int
            } else {
                0int
            }
        }),
    decreases k,
{
    if k > 0 {
        lemma_single_recorder_single_job(n, es, hot_threshold, (k - 1) as nat);
    }
}

/// While no compilation job ends, a location that starts as a counter
/// has at most one recorder started and at most one job submitted, and
/// the job is submitted only after the recorder was started.
pub proof fn lemma_one_recorder_until_compiled(
    n: u32,
    es: Seq<Event>,
    hot_threshold: HotThreshold,
    k: nat,
)
    requires
        forall|i: int| 0 <= i < k ==> (#[trigger] es[i]) is Visit,
    ensures
        jobs_submitted(State::Counter(n), es, hot_threshold, k) <= recorders_started(
            State::Counter(n),
            es,
            hot_threshold,
            k,
        ) <= 1,
        !(state_after(State::Counter(n), es, hot_threshold, k) is Compiled),
        !(state_after(State::Counter(n), es, hot_threshold, k) is DontTrace),
    decreases k,
{
    lemma_single_recorder_single_job(n, es, hot_threshold, k);
    lemma_no_job_ends_without_event(State::Counter(n), es, hot_threshold, k);
    if k > 0 {
        lemma_one_recorder_until_compiled(n, es, hot_threshold, (k - 1) as nat);
    }
}

/// Where all the events are visits, no job ends.
proof fn lemma_no_job_ends_without_event(
    s: State,
    es: Seq<Event>,
    hot_threshold: HotThreshold,
    k: nat,
)
    requires
        forall|i: int| 0 <= i < k ==> (#[trigger] es[i]) is Visit,
    ensures
        jobs_ended(s, es, hot_threshold, k) == 0,
    decreases k,
{
    if k > 0 {
        lemma_no_job_ends_without_event(s, es, hot_threshold, (k - 1) as nat);
    }
}

/// A fresh location that is visited more often than the threshold says
/// has had its recorder started, exactly once.
pub proof fn lemma_hot_location_is_traced(es: Seq<Event>, hot_threshold: HotThreshold, k: nat)
    requires
        forall|i: int| 0 <= i < k ==> (#[trigger] es[i]) is Visit,
        k > hot_threshold,
    ensures
        recorders_started(State::Counter(0), es, hot_threshold, k) == 1,
{
    lemma_counting(es, hot_threshold, k);
    lemma_one_recorder_until_compiled(0, es, hot_threshold, k);
    lemma_single_recorder_single_job(0, es, hot_threshold, k);
}

/// A fresh location counts its visits up to the threshold, and is a
/// counter no longer after that.
proof fn lemma_counting(es: Seq<Event>, hot_threshold: HotThreshold, k: nat)
    requires
        forall|i: int| 0 <= i < k ==> (#[trigger] es[i]) is Visit,
    ensures
        k <= hot_threshold ==> state_after(State::Counter(0), es, hot_threshold, k)
            == State::Counter(k as u32),
        k > hot_threshold ==> !(state_after(State::Counter(0), es, hot_threshold, k) is Counter),
        k > hot_threshold ==> recorders_started(State::Counter(0), es, hot_threshold, k) >= 1,
    decreases k,
{
    if k > 0 {
        lemma_counting(es, hot_threshold, (k - 1) as nat);
        lemma_one_recorder_until_compiled(0, es, hot_threshold, (k - 1) as nat);
    }
}

/// A location that is not to be traced stays so, whatever happens to it,
/// and no visit does anything but interpret.
pub proof fn lemma_dont_trace_is_final(es: Seq<Event>, hot_threshold: HotThreshold, k: nat)
    ensures
        state_after(State::DontTrace, es, hot_threshold, k) == State::DontTrace,
        recorders_started(State::DontTrace, es, hot_threshold, k) == 0,
        jobs_submitted(State::DontTrace, es, hot_threshold, k) == 0,
        jobs_ended(State::DontTrace, es, hot_threshold, k) == 0,
        forall|thread: u64|
            visit(state_after(State::DontTrace, es, hot_threshold, k), thread, hot_threshold).1
                == Action::Interpret,
    decreases k,
{
    if k > 0 {
        lemma_dont_trace_is_final(es, hot_threshold, (k - 1) as nat);
    }
}

/// The state of one control point of the interpreter.
#[derive(Debug)]
pub struct Location {
    state: State,
}

impl Location {
    pub closed spec fn spec_state(&self) -> State {
        self.state
    }

    /// A location that has not been visited yet.
    pub fn new() -> (loc: Location)
        ensures
            loc.spec_state() == State::Counter(0),
    {
        Location { state: State::Counter(0) }
    }

    pub fn state(&self) -> (s: State)
        ensures
            s == self.spec_state(),
    {
        self.state
    }

    /// The thread `thread` reaches the control point.
    pub fn control_point(&mut self, thread: u64, hot_threshold: HotThreshold) -> (action: Action)
        ensures
            (final(self).spec_state(), action) == visit(
                old(self).spec_state(),
                thread,
                hot_threshold,
            ),
    {
        match self.state {
            State::Counter(n) => {
                if n < hot_threshold {
                    self.state = State::Counter(n + 1);
                    Action::Interpret
                } else {
                    self.state = State::Tracing { owner: thread };
                    Action::StartTracing
                }
            },
            State::Tracing { owner } => {
                if owner == thread {
                    self.state = State::Compiling;
                    Action::StopTracing
                } else {
                    Action::Interpret
                }
            },
            State::Compiling => Action::Interpret,
            State::Compiled { trace } => Action::Execute(trace),
            State::DontTrace => Action::Interpret,
        }
    }

    /// The compilation job for this location has ended with `result`.
    pub fn compile_finished(&mut self, result: &Result<TraceId, CompilationError>)
        ensures
            final(self).spec_state() == compile_done(old(self).spec_state(), outcome_of(*result)),
    {
        if let State::Compiling = self.state {
            self.state = match result {
                Ok(trace) => State::Compiled { trace: *trace },
                Err(CompilationError::Temporary(_)) => State::Counter(0),
                Err(CompilationError::Unrecoverable(_)) => State::DontTrace,
            };
        }
    }

    /// The recording of this location gave no valid trace. This is a
    /// transient failure: the location starts to count again.
    pub fn trace_invalid(&mut self, error: InvalidTraceError)
        ensures
            final(self).spec_state() == if old(self).spec_state() is Tracing || old(
                self,
            ).spec_state() is Compiling {
                State::Counter(0)
            } else {
                old(self).spec_state()
            },
    {
        match self.state {
            State::Tracing { owner } => { self.state = State::Counter(0); },
            State::Compiling => { self.state = State::Counter(0); },
            _ => {},
        }
    }

    /// The last guard of the location's trace has failed: the trace is
    /// given up, and the location starts to count again.
    pub fn demote(&mut self)
        ensures
            final(self).spec_state() == if old(self).spec_state() is Compiled {
                State::Counter(0)
            } else {
                old(self).spec_state()
            },
    {
        if let State::Compiled { trace } = self.state {
            self.state = State::Counter(0);
        }
    }
}

/// The configuration of a meta-tracer.
#[derive(Debug)]
pub struct MT {
    hot_threshold: HotThreshold,
    sidetrace_threshold: HotThreshold,
}

impl MT {
    pub closed spec fn spec_hot_threshold(&self) -> HotThreshold {
        self.hot_threshold
    }

    pub closed spec fn spec_sidetrace_threshold(&self) -> HotThreshold {
        self.sidetrace_threshold
    }

    pub fn new(hot_threshold: HotThreshold, sidetrace_threshold: HotThreshold) -> (mt: MT)
        ensures
            mt.spec_hot_threshold() == hot_threshold,
            mt.spec_sidetrace_threshold() == sidetrace_threshold,
    {
        MT { hot_threshold, sidetrace_threshold }
    }

    pub fn hot_threshold(&self) -> (t: HotThreshold)
        ensures
            t == self.spec_hot_threshold(),
    {
        self.hot_threshold
    }

    pub fn set_hot_threshold(&mut self, hot_threshold: HotThreshold)
        ensures
            final(self).spec_hot_threshold() == hot_threshold,
            final(self).spec_sidetrace_threshold() == old(self).spec_sidetrace_threshold(),
    {
        self.hot_threshold = hot_threshold;
    }

    pub fn sidetrace_threshold(&self) -> (t: HotThreshold)
        ensures
            t == self.spec_sidetrace_threshold(),
    {
        self.sidetrace_threshold
    }

    pub fn set_sidetrace_threshold(&mut self, sidetrace_threshold: HotThreshold)
        ensures
            final(self).spec_sidetrace_threshold() == sidetrace_threshold,
            final(self).spec_hot_threshold() == old(self).spec_hot_threshold(),
    {
        self.sidetrace_threshold = sidetrace_threshold;
    }

    /// The thread `thread` reaches the control point of `loc`.
    pub fn control_point(&self, loc: &mut Location, thread: u64) -> (action: Action)
        ensures
            (final(loc).spec_state(), action) == visit(
                old(loc).spec_state(),
                thread,
                self.spec_hot_threshold(),
            ),
    {
        loc.control_point(thread, self.hot_threshold)
    }
}

} // verus!
