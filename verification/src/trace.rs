//! Processed traces: what a trace recorder hands to a compiler.
//!
//! "Tracing" is split into the following stages:
//!
//! 1. *Record* the trace with a tracer backend (a hardware tracer or a
//!    software tracer), which stores the low-level trace in a format of
//!    its choosing.
//! 2. *Process* the recorded trace into [TraceAction]s.
//! 3. *Compile* the processed trace.

use vstd::prelude::*;
use vstd::std_specs::cmp::PartialEqSpecImpl;

verus! {

/// The different ways by which we can collect a trace.
#[derive(Debug, Clone, Copy, PartialEq, Eq, Structural)]
pub enum TracingKind {
    /// Software tracing.
    SoftwareTracing,
    /// Hardware tracing via a branch tracer (e.g. Intel PT).
    HardwareTracing,
}

impl Default for TracingKind {
    /// Returns the default tracing kind.
    fn default() -> (kind: Self)
        ensures
            kind == TracingKind::HardwareTracing,
    {
        TracingKind::HardwareTracing
    }
}

/// Reasons that a trace can be invalidated.
#[derive(Debug, Clone, Copy, PartialEq, Eq, Structural)]
pub enum InvalidTraceError {
    /// Nothing was recorded.
    TraceEmpty,
    /// The trace being recorded was too long and tracing was aborted.
    TraceTooLong,
}

impl InvalidTraceError {
    /// The error in words.
    pub fn message(&self) -> (s: String)
        ensures
            s@ == match *self {
                InvalidTraceError::TraceEmpty => "Trace empty"@,
                InvalidTraceError::TraceTooLong => "Trace too long"@,
            },
    {
        match self {
            InvalidTraceError::TraceEmpty => "Trace empty".to_owned(),
            InvalidTraceError::TraceTooLong => "Trace too long".to_owned(),
        }
    }
}

/// What can stop the processing of a recorded trace. Not all backends will
/// generate all of these possibilities.
#[derive(Debug, Clone, Copy, PartialEq, Eq, Structural)]
pub enum AOTTraceIteratorError {
    TraceTooLong,
    LongJmpEncountered,
}

/// A processed item from a trace.
#[derive(Debug)]
pub enum TraceAction {
    /// A sucessfully mapped block.
    MappedAOTBlock {
        /// The name of the function containing the block.
        func_name: String,
        /// The index of the block within the function.
        bb: usize,
    },
    /// One or more machine blocks that could not be mapped.
    ///
    /// This usually means that the blocks were compiled outside of the AOT
    /// compiler.
    UnmappableBlock,
    /// A value promoted and recorded within the low-level trace.
    ///
    /// While no tracer backend currently uses this variant, it's present to
    /// remind us that this a useful possibility.
    Promotion,
}

pub enum TraceActionView {
    MappedAOTBlock { func_name: Seq<char>, bb: usize },
    UnmappableBlock,
    Promotion,
}

impl View for TraceAction {
    type V = TraceActionView;

    open spec fn view(&self) -> TraceActionView {
        match *self {
            TraceAction::MappedAOTBlock { func_name, bb } => TraceActionView::MappedAOTBlock {
                func_name: func_name@,
                bb,
            },
            TraceAction::UnmappableBlock => TraceActionView::UnmappableBlock,
            TraceAction::Promotion => TraceActionView::Promotion,
        }
    }
}

pub open spec fn actions_view(actions: Seq<TraceAction>) -> Seq<TraceActionView> {
    Seq::new(actions.len(), |i: int| actions[i]@)
}

impl TraceAction {
    pub fn new_mapped_aot_block(func_name: String, bb: usize) -> (action: Self)
        ensures
            action@ == (TraceActionView::MappedAOTBlock { func_name: func_name@, bb }),
    {
        Self::MappedAOTBlock { func_name, bb }
    }

    pub fn new_unmappable_block() -> (action: Self)
        ensures
            action@ == TraceActionView::UnmappableBlock,
    {
        Self::UnmappableBlock
    }

    /// Whether two actions are the same: the same kind and, for mapped
    /// blocks, the same function and block.
    pub fn same(&self, other: &Self) -> (r: bool)
        ensures
            r == (self@ == other@),
    {
        match self {
            TraceAction::MappedAOTBlock { func_name: name, bb } => match other {
                TraceAction::MappedAOTBlock { func_name: other_name, bb: other_bb } => *bb
                    == *other_bb && *name == *other_name,
                _ => false,
            },
            TraceAction::UnmappableBlock => match other {
                TraceAction::UnmappableBlock => true,
                _ => false,
            },
            TraceAction::Promotion => match other {
                TraceAction::Promotion => true,
                _ => false,
            },
        }
    }
}

impl PartialEq for TraceAction {
    fn eq(&self, other: &Self) -> (r: bool) {
        self.same(other)
    }
}

impl PartialEqSpecImpl for TraceAction {
    open spec fn obeys_eq_spec() -> bool {
        true
    }

    open spec fn eq_spec(&self, other: &Self) -> bool {
        self@ == other@
    }
}

/// No action of `s` is followed by an equal one.
pub open spec fn no_adjacent_equal(s: Seq<TraceActionView>) -> bool {
    forall|i: int| 0 <= i < s.len() - 1 ==> #[trigger] s[i] != s[i + 1]
}

/// `out` with `a` appended, unless `out` already ends in `a`.
pub open spec fn push_dedup(out: Seq<TraceActionView>, a: TraceActionView) -> Seq<TraceActionView> {
    if out.len() > 0 && out.last() == a {
        out
    } else {
        out.push(a)
    }
}

/// `out` with the first `k` actions of `acts` appended one after the
/// other, each unless it equals the action that then stands last.
pub open spec fn extend_dedup(out: Seq<TraceActionView>, acts: Seq<TraceActionView>, k: nat) -> Seq<
    TraceActionView,
>
    decreases k,
{
    if k == 0 {
        out
    } else {
        push_dedup(extend_dedup(out, acts, (k - 1) as nat), acts[k - 1])
    }
}

/// Appending without repetition keeps a trace free of repetitions, and
/// keeps what stood first.
pub proof fn lemma_extend_dedup(out: Seq<TraceActionView>, acts: Seq<TraceActionView>, k: nat)
    requires
        no_adjacent_equal(out),
    ensures
        no_adjacent_equal(extend_dedup(out, acts, k)),
        out.len() <= extend_dedup(out, acts, k).len(),
        forall|i: int| 0 <= i < out.len() ==> extend_dedup(out, acts, k)[i] == out[i],
        forall|i: int|
            out.len() <= i < extend_dedup(out, acts, k).len() ==> exists|j: int|
                0 <= j < k && acts[j] == #[trigger] extend_dedup(out, acts, k)[i],
    decreases k,
{
    if k > 0 {
        lemma_extend_dedup(out, acts, (k - 1) as nat);
        let prev = extend_dedup(out, acts, (k - 1) as nat);
        let next = extend_dedup(out, acts, k);
        assert forall|i: int| out.len() <= i < next.len() implies exists|j: int|
            0 <= j < k && acts[j] == #[trigger] next[i] by {
            if i < prev.len() {
                let j = choose|j: int| 0 <= j < k - 1 && acts[j] == prev[i];
                assert(acts[j] == next[i]);
            } else {
                assert(acts[k - 1] == next[i]);
            }
        }
    }
}

/// Appends `action` to `out` unless `out` ends in an equal action.
pub fn push_action(out: &mut Vec<TraceAction>, action: TraceAction)
    ensures
        actions_view(final(out)@) == push_dedup(actions_view(old(out)@), action@),
{
    let ghost before = actions_view(out@);
    let n = out.len();
    if n > 0 && out[n - 1].same(&action) {
        assert(actions_view(out@) =~= before);
    } else {
        out.push(action);
        assert(actions_view(out@) =~= before.push(action@));
    }
}

/// A recording of the current thread by the software tracer: the blocks
/// that the thread ran through, as long as there are no more of them than
/// the recorder was made for.
#[derive(Debug)]
pub struct SWTRecorder {
    blocks: Vec<(usize, usize)>,
    cap: usize,
    too_long: bool,
}

impl SWTRecorder {
    /// The blocks recorded so far, each as (function index, block index).
    pub closed spec fn blocks(&self) -> Seq<(usize, usize)> {
        self.blocks@
    }

    /// The number of blocks that the recorder takes.
    pub closed spec fn cap(&self) -> usize {
        self.cap
    }

    /// Whether there was a block that the recorder could not take.
    pub closed spec fn too_long(&self) -> bool {
        self.too_long
    }

    /// Start recording, with room for `cap` blocks.
    pub fn new(cap: usize) -> (rec: SWTRecorder)
        ensures
            rec.blocks() == Seq::<(usize, usize)>::empty(),
            rec.cap() == cap,
            !rec.too_long(),
    {
        SWTRecorder { blocks: Vec::with_capacity(cap), cap, too_long: false }
    }

    /// Stop recording and hand out the recorded blocks.
    pub fn stop(self) -> (r: Result<Vec<(usize, usize)>, InvalidTraceError>)
        ensures
            match r {
                Ok(v) => !self.too_long() && v@ == self.blocks() && v.len() > 0,
                Err(InvalidTraceError::TraceTooLong) => self.too_long(),
                Err(InvalidTraceError::TraceEmpty) => !self.too_long() && self.blocks().len() == 0,
            },
    {
        if self.too_long {
            Err(InvalidTraceError::TraceTooLong)
        } else if self.blocks.len() == 0 {
            Err(InvalidTraceError::TraceEmpty)
        } else {
            Ok(self.blocks)
        }
    }
}

/// Called from each basic block of the interpreter while the thread is
/// recorded: notes the block, or that the trace has become too long.
pub fn trace_basicblock(recorder: &mut SWTRecorder, function_index: usize, block_index: usize)
    ensures
        final(recorder).cap() == old(recorder).cap(),
        if old(recorder).too_long() || old(recorder).blocks().len() >= old(recorder).cap() {
            final(recorder).too_long() && final(recorder).blocks() == old(recorder).blocks()
        } else {
            !final(recorder).too_long() && final(recorder).blocks() == old(recorder).blocks().push(
                (function_index, block_index),
            )
        },
{
    if recorder.too_long || recorder.blocks.len() >= recorder.cap {
        recorder.too_long = true;
    } else {
        recorder.blocks.push((function_index, block_index));
    }
}

/// Represents a thread which is currently tracing.
#[derive(Debug)]
pub struct ThreadTracer {
    kind: TracingKind,
}

impl ThreadTracer {
    /// How the thread is traced.
    pub closed spec fn kind(&self) -> TracingKind {
        self.kind
    }

    /// Stops tracing on the current thread, returning the processed
    /// trace on success. `trace` is what the tracing backend made of the
    /// recording; a trace without actions is no trace.
    pub fn stop_tracing(self, trace: Result<Vec<TraceAction>, InvalidTraceError>) -> (r: Result<
        Vec<TraceAction>,
        InvalidTraceError,
    >)
        ensures
            match trace {
                Ok(t) => if t.len() == 0 {
                    r == Err::<Vec<TraceAction>, InvalidTraceError>(InvalidTraceError::TraceEmpty)
                } else {
                    r == Ok::<Vec<TraceAction>, InvalidTraceError>(t)
                },
                Err(e) => r == Err::<Vec<TraceAction>, InvalidTraceError>(e),
            },
    {
        match trace {
            Ok(inner) => {
                if inner.len() == 0 {
                    return Err(InvalidTraceError::TraceEmpty);
                }
                Ok(inner)
            },
            Err(e) => Err(e),
        }
    }
}

/// Start tracing on the current thread using the specified tracing kind.
/// Each thread can have at most one active tracer.
pub fn start_tracing(kind: TracingKind) -> (tracer: ThreadTracer)
    ensures
        tracer.kind() == kind,
{
    ThreadTracer { kind }
}

} // verus!
