//! What a trace compiler is given and what it gives back: the encoded
//! trace, the compiled trace and its guards.

use crate::stackmap::{
    all_records, locs_map_view, offsets_map, spec_stackmap, Location, ParseError,
};
use crate::smp::StackMapParser;
use crate::trace::{actions_view, AOTTraceIteratorError, TraceAction, TraceActionView};
use std::collections::HashMap;
use std::sync::Arc;
use vstd::prelude::*;
use vstd::string::StringExecFns;

verus! {

/// A failure to compile a trace.
#[derive(Debug)]
pub enum CompilationError {
    /// Compiling this trace will never succeed.
    Unrecoverable(String),
    /// Compiling failed this time and may succeed on another trace.
    Temporary(String),
}

pub enum CompilationErrorView {
    Unrecoverable(Seq<char>),
    Temporary(Seq<char>),
}

impl View for CompilationError {
    type V = CompilationErrorView;

    open spec fn view(&self) -> CompilationErrorView {
        match *self {
            CompilationError::Unrecoverable(s) => CompilationErrorView::Unrecoverable(s@),
            CompilationError::Temporary(s) => CompilationErrorView::Temporary(s@),
        }
    }
}

impl CompilationError {
    /// The error in words.
    pub fn message(&self) -> (s: String)
        ensures
            s@ == match self@ {
                CompilationErrorView::Unrecoverable(m) => "Unrecoverable error: "@ + m,
                CompilationErrorView::Temporary(m) => "Temporary error: "@ + m,
            },
    {
        match self {
            CompilationError::Unrecoverable(m) => {
                let mut s = "Unrecoverable error: ".to_owned();
                s.append(m.as_str());
                s
            },
            CompilationError::Temporary(m) => {
                let mut s = "Temporary error: ".to_owned();
                s.append(m.as_str());
                s
            },
        }
    }
}

/// Names a guard of a compiled trace by its position.
#[derive(Debug, Clone, Copy, PartialEq, Eq, Structural)]
pub struct GuardId(pub usize);

impl GuardId {
    /// A `GuardId` with an illegal value: no trace has a guard of this
    /// name.
    pub fn illegal() -> (id: Self)
        ensures
            id.0 == usize::MAX,
    {
        GuardId(usize::MAX)
    }
}

/// Names a compiled trace in the table where the runtime keeps its
/// traces.
#[derive(Debug, Clone, Copy, PartialEq, Eq, Structural)]
pub struct TraceId(pub usize);

/// Responsible for tracking how often a guard in a `CompiledTrace` fails.
/// A hotness counter is incremented each time the matching guard failure
/// is triggered. Also stores the side-trace once it is compiled.
#[derive(Debug, Clone, Copy, PartialEq, Eq, Structural)]
pub struct Guard {
    /// How often has this guard failed?
    failed: u32,
    ct: Option<TraceId>,
}

impl Guard {
    /// How often the guard has failed.
    pub closed spec fn failures(&self) -> u32 {
        self.failed
    }

    /// The side-trace that starts at the guard, if one was compiled.
    pub closed spec fn child(&self) -> Option<TraceId> {
        self.ct
    }

    /// A guard that has not failed yet.
    pub fn new() -> (g: Guard)
        ensures
            g.failures() == 0,
            g.child() is None,
    {
        Guard { failed: 0, ct: None }
    }

    /// The count after one more failure: counting wraps around at the end
    /// of 32 bits.
    pub open spec fn next_count(count: u32) -> u32 {
        if count == u32::MAX {
            0
        } else {
            (count + 1) as u32
        }
    }

    /// Increments the guard failure counter. Returns `true` if the guard
    /// had failed more often than `sidetrace_threshold` allows: the failure
    /// that follows `sidetrace_threshold` failures is the first to report
    /// the guard as worth side-tracing.
    pub fn inc_failed(&mut self, sidetrace_threshold: u32) -> (hot: bool)
        ensures
            final(self).failures() == Self::next_count(old(self).failures()),
            final(self).child() == old(self).child(),
            hot == (old(self).failures() >= sidetrace_threshold),
    {
        let before = self.failed;
        self.failed = self.failed.wrapping_add(1);
        before >= sidetrace_threshold
    }

    /// How often the guard has failed.
    pub fn failed(&self) -> (n: u32)
        ensures
            n == self.failures(),
    {
        self.failed
    }

    /// Stores a compiled side-trace inside this guard.
    pub fn setct(&mut self, ct: TraceId)
        ensures
            final(self).child() == Some(ct),
            final(self).failures() == old(self).failures(),
    {
        self.ct = Some(ct);
    }

    /// Retrieves the stored side-trace or None, if no side-trace has been
    /// compiled yet.
    pub fn getct(&self) -> (ct: Option<TraceId>)
        ensures
            ct == self.child(),
    {
        self.ct
    }
}

/// How often a guard has failed after `k` failures were counted.
pub open spec fn failures_after(k: nat) -> u32
    decreases k,
{
    if k == 0 {
        0
    } else {
        Guard::next_count(failures_after((k - 1) as nat))
    }
}

/// Of the failures of a guard, the first to be reported as worth
/// side-tracing is the one that follows `sidetrace_threshold` failures:
/// the failure number `k` finds the guard with `k - 1` failures counted,
/// and is reported exactly if `k` is greater than the threshold.
pub proof fn lemma_hot_after_threshold(sidetrace_threshold: u32, k: nat)
    requires
        1 <= k <= u32::MAX,
    ensures
        failures_after((k - 1) as nat) == k - 1,
        (failures_after((k - 1) as nat) >= sidetrace_threshold) == (k > sidetrace_threshold),
    decreases k,
{
    if k > 1 {
        lemma_hot_after_threshold(sidetrace_threshold, (k - 1) as nat);
    }
}

/// What a back end is told when it compiles a side-trace.
#[derive(Debug, Clone, Copy, PartialEq, Eq, Structural)]
pub struct SideTraceInfo {
    /// The parent trace's call stack at the time of the guard failure.
    pub callstack: u64,
    /// Where the parent's live AOT values for the failing guard start.
    pub aotvalsptr: u64,
    /// How many live values there are to read.
    pub aotvalslen: usize,
    /// The failing guard.
    pub guardid: GuardId,
}

/// A trace compiled into machine code.
pub struct CompiledTrace {
    /// Address of the function which, when called, executes the trace.
    entry: u64,
    /// Parsed stackmap of this trace. We only need to read this once, and
    /// can then use it to look up stackmap information for each guard
    /// failure as needed.
    smap: HashMap<u64, Vec<Location>>,
    /// Address of the heap allocated live AOT values.
    aotvals: u64,
    /// List of guards containing hotness counts and compiled side traces.
    guards: Vec<Guard>,
}

impl CompiledTrace {
    pub closed spec fn spec_entry(&self) -> u64 {
        self.entry
    }

    pub closed spec fn spec_aotvals(&self) -> u64 {
        self.aotvals
    }

    /// The live-value locations of each record, by return address.
    pub closed spec fn spec_smap(&self) -> Map<u64, Seq<Location>> {
        locs_map_view(self.smap@)
    }

    /// The guards: one for each guard that the back end emitted, and a
    /// last one that stands for the end of the trace.
    pub closed spec fn spec_guards(&self) -> Seq<Guard> {
        self.guards@
    }

    /// Create a `CompiledTrace` from what a back end returned: the address
    /// of the compiled code, the trace's stackmap section, the address of
    /// the live AOT values and the number of guards in the trace.
    pub fn new(entry: u64, stackmap: &[u8], aotvals: u64, guardcount: usize) -> (r: Result<
        CompiledTrace,
        ParseError,
    >)
        requires
            guardcount < usize::MAX,
        ensures
            match (r, spec_stackmap(stackmap@)) {
                (Ok(ct), Ok(s)) => {
                    &&& ct.spec_entry() == entry
                    &&& ct.spec_aotvals() == aotvals
                    &&& ct.spec_smap() == offsets_map(all_records(s))
                    &&& ct.spec_guards().len() == guardcount + 1
                    &&& forall|i: int|
                        0 <= i <= guardcount ==> (#[trigger] ct.spec_guards()[i]).failures() == 0
                            && ct.spec_guards()[i].child() is None
                },
                (Err(e), Err(se)) => e == se,
                _ => false,
            },
    {
        // Parse the stackmap of this trace and cache it.
        let smap = StackMapParser::parse(stackmap)?;
        let mut guards: Vec<Guard> = Vec::new();
        let mut i: usize = 0;
        while i <= guardcount
            invariant
                guardcount < usize::MAX,
                i <= guardcount + 1,
                guards.len() == i,
                forall|k: int|
                    0 <= k < i ==> (#[trigger] guards[k]).failures() == 0 && guards[k].child()
                        is None,
            decreases guardcount + 1 - i,
        {
            guards.push(Guard::new());
            i += 1;
        }
        Ok(CompiledTrace { entry, smap, aotvals, guards })
    }

    pub fn entry(&self) -> (e: u64)
        ensures
            e == self.spec_entry(),
    {
        self.entry
    }

    pub fn aotvals(&self) -> (a: u64)
        ensures
            a == self.spec_aotvals(),
    {
        self.aotvals
    }

    /// The live-value locations of the record at `retaddr`, if the trace
    /// has a record there.
    pub fn smap(&self, retaddr: u64) -> (locs: Option<&Vec<Location>>)
        ensures
            match locs {
                Some(v) => self.spec_smap().contains_key(retaddr) && v@ == self.spec_smap()[retaddr],
                None => !self.spec_smap().contains_key(retaddr),
            },
    {
        self.smap.get(&retaddr)
    }

    /// The number of guards, the one for the end of the trace included.
    pub fn num_guards(&self) -> (n: usize)
        ensures
            n == self.spec_guards().len(),
    {
        self.guards.len()
    }

    /// Return a reference to the guard `id`.
    pub fn guard(&self, id: GuardId) -> (g: &Guard)
        requires
            id.0 < self.spec_guards().len(),
        ensures
            *g == self.spec_guards()[id.0 as int],
    {
        &self.guards[id.0]
    }

    /// Is the guard `id` the last guard in this `CompiledTrace`?
    pub fn is_last_guard(&self, id: GuardId) -> (last: bool)
        ensures
            last == (id.0 + 1 == self.spec_guards().len()),
    {
        let n = self.guards.len();
        id.0 < n && id.0 + 1 == n
    }

    /// Counts a failure of guard `id`, and says whether the guard is now
    /// worth side-tracing.
    pub fn inc_failed(&mut self, id: GuardId, sidetrace_threshold: u32) -> (hot: bool)
        requires
            id.0 < old(self).spec_guards().len(),
        ensures
            hot == (old(self).spec_guards()[id.0 as int].failures() >= sidetrace_threshold),
            final(self).spec_guards() == old(self).spec_guards().update(
                id.0 as int,
                final(self).spec_guards()[id.0 as int],
            ),
            final(self).spec_guards()[id.0 as int].failures() == Guard::next_count(
                old(self).spec_guards()[id.0 as int].failures(),
            ),
            final(self).spec_guards()[id.0 as int].child() == old(self).spec_guards()[id.0 as int].child(),
            final(self).spec_entry() == old(self).spec_entry(),
            final(self).spec_aotvals() == old(self).spec_aotvals(),
            final(self).spec_smap() == old(self).spec_smap(),
    {
        let mut g = self.guards[id.0];
        let hot = g.inc_failed(sidetrace_threshold);
        self.guards.set(id.0, g);
        hot
    }

    /// Stores the compiled side-trace `ct` in guard `id`.
    pub fn setct(&mut self, id: GuardId, ct: TraceId)
        requires
            id.0 < old(self).spec_guards().len(),
        ensures
            final(self).spec_guards() == old(self).spec_guards().update(
                id.0 as int,
                final(self).spec_guards()[id.0 as int],
            ),
            final(self).spec_guards()[id.0 as int].child() == Some(ct),
            final(self).spec_guards()[id.0 as int].failures() == old(self).spec_guards()[id.0 as int].failures(),
            final(self).spec_entry() == old(self).spec_entry(),
            final(self).spec_aotvals() == old(self).spec_aotvals(),
            final(self).spec_smap() == old(self).spec_smap(),
    {
        let mut g = self.guards[id.0];
        g.setct(ct);
        self.guards.set(id.0, g);
    }
}

/// A trace as a back end takes it: for each block the name of its
/// function, or nothing for an unmappable block, and beside it the block's
/// index.
pub struct EncodedTrace {
    pub func_names: Vec<Option<String>>,
    pub bbs: Vec<usize>,
    pub trace_len: usize,
}

/// The function name that stands for an action: none where the block was
/// unmappable.
pub open spec fn encoded_name(a: TraceActionView) -> Option<Seq<char>> {
    match a {
        TraceActionView::MappedAOTBlock { func_name, bb } => Some(func_name),
        _ => None,
    }
}

/// The block index that stands for an action. Block indices for
/// unmappable blocks are irrelevant, and 0 is passed for them.
pub open spec fn encoded_bb(a: TraceActionView) -> usize {
    match a {
        TraceActionView::MappedAOTBlock { func_name, bb } => bb,
        _ => 0,
    }
}

pub open spec fn name_view(n: Option<String>) -> Option<Seq<char>> {
    match n {
        Some(s) => Some(s@),
        None => None,
    }
}

/// What the back end is to be called with.
pub struct CompileRequest {
    pub trace: EncodedTrace,
    /// The parent trace's call stack, or 0 where no side-trace is compiled.
    pub callstack: u64,
    /// Where the live AOT values start, or 0.
    pub aotvalsptr: u64,
    /// How many live values there are, or 0.
    pub aotvalslen: usize,
}

/// Why a trace iterator stopped, in words.
pub open spec fn iterator_error_message(e: AOTTraceIteratorError) -> Seq<char> {
    match e {
        AOTTraceIteratorError::TraceTooLong => "Trace too long"@,
        AOTTraceIteratorError::LongJmpEncountered => "longjmp encountered"@,
    }
}

/// Item `i` is the first at which the iterator failed.
pub open spec fn first_error(items: Seq<Result<TraceAction, AOTTraceIteratorError>>, i: int) -> bool {
    &&& 0 <= i < items.len()
    &&& items[i] is Err
    &&& forall|j: int| 0 <= j < i ==> (#[trigger] items[j]) is Ok
}

/// An LLVM JIT backend.
pub struct JITCLLVM;

impl JITCLLVM {
    pub fn new() -> Arc<Self> {
        Arc::new(JITCLLVM)
    }

    /// Lays a trace out as two parallel lists.
    pub fn encode_trace(&self, irtrace: &Vec<TraceAction>) -> (enc: EncodedTrace)
        requires
            forall|i: int| 0 <= i < irtrace.len() ==> !(#[trigger] irtrace[i]@ is Promotion),
        ensures
            enc.trace_len == irtrace.len(),
            enc.func_names.len() == irtrace.len(),
            enc.bbs.len() == irtrace.len(),
            forall|i: int|
                0 <= i < irtrace.len() ==> name_view(#[trigger] enc.func_names[i]) == encoded_name(
                    irtrace[i]@,
                ),
            forall|i: int| 0 <= i < irtrace.len() ==> #[trigger] enc.bbs[i] == encoded_bb(irtrace[i]@),
    {
        let trace_len = irtrace.len();
        let mut func_names: Vec<Option<String>> = Vec::with_capacity(trace_len);
        let mut bbs: Vec<usize> = Vec::with_capacity(trace_len);
        let mut k: usize = 0;
        while k < trace_len
            invariant
                k <= trace_len,
                trace_len == irtrace.len(),
                func_names.len() == k,
                bbs.len() == k,
                forall|i: int|
                    0 <= i < k ==> name_view(#[trigger] func_names[i]) == encoded_name(irtrace[i]@),
                forall|i: int| 0 <= i < k ==> #[trigger] bbs[i] == encoded_bb(irtrace[i]@),
                forall|i: int| 0 <= i < irtrace.len() ==> !(#[trigger] irtrace[i]@ is Promotion),
            decreases trace_len - k,
        {
            match &irtrace[k] {
                TraceAction::MappedAOTBlock { func_name, bb } => {
                    func_names.push(Some(func_name.clone()));
                    bbs.push(*bb);
                },
                TraceAction::UnmappableBlock => {
                    // The block was unmappable. Indicate this with no function name.
                    func_names.push(None);
                    // Block indices for unmappable blocks are irrelevant so we may pass anything
                    // here.
                    bbs.push(0);
                },
                TraceAction::Promotion => {
                    assert(irtrace[k as int]@ is Promotion);
                    vstd::pervasive::unreached::<()>();
                },
            }
            k += 1;
        }
        EncodedTrace { func_names, bbs, trace_len }
    }

    /// Gathers what a trace iterator yielded: the trace, unless the
    /// iterator failed, which is a temporary failure to compile.
    pub fn collect_trace(
        &self,
        items: Vec<Result<TraceAction, AOTTraceIteratorError>>,
    ) -> (r: Result<Vec<TraceAction>, CompilationError>)
        ensures
            match r {
                Ok(v) => v.len() == items.len() && forall|i: int|
                    0 <= i < items.len() ==> (#[trigger] items[i]) == Ok::<
                        TraceAction,
                        AOTTraceIteratorError,
                    >(v[i]),
                Err(e) => exists|i: int|
                    first_error(items@, i) && e@ == CompilationErrorView::Temporary(
                        iterator_error_message(items[i]->Err_0),
                    ),
            },
    {
        let mut irtrace: Vec<TraceAction> = Vec::new();
        let ghost all = items@;
        for ta in it: items
            invariant
                it.seq() == all,
                all == items@,
                irtrace.len() == it.index(),
                forall|i: int|
                    0 <= i < it.index() ==> (#[trigger] all[i]) == Ok::<
                        TraceAction,
                        AOTTraceIteratorError,
                    >(irtrace[i]),
        {
            match ta {
                Ok(x) => irtrace.push(x),
                Err(e) => {
                    assert(first_error(all, it.index() as int));
                    return Err(
                        CompilationError::Temporary(
                            match e {
                                AOTTraceIteratorError::TraceTooLong => "Trace too long".to_owned(),
                                AOTTraceIteratorError::LongJmpEncountered => "longjmp encountered".to_owned(),
                            },
                        ),
                    );
                },
            }
        }
        Ok(irtrace)
    }

    /// Prepares the call of the back end for a processed trace and, for a
    /// side-trace, what is known of the failing guard. A trace whose
    /// iterator failed is a temporary failure, whatever else it holds; a
    /// trace that came out whole must hold no promotion.
    pub fn compile(
        &self,
        aottrace: Vec<Result<TraceAction, AOTTraceIteratorError>>,
        sti: Option<SideTraceInfo>,
    ) -> (r: Result<CompileRequest, CompilationError>)
        requires
            (forall|i: int| 0 <= i < aottrace.len() ==> (#[trigger] aottrace[i]) is Ok) ==> (forall|
                i: int,
            |
                0 <= i < aottrace.len() ==> !((#[trigger] aottrace[i]) matches Ok(a)
                    && a@ is Promotion)),
        ensures
            match r {
                Ok(req) => {
                    &&& req.trace.trace_len == aottrace.len()
                    &&& req.trace.func_names.len() == aottrace.len()
                    &&& req.trace.bbs.len() == aottrace.len()
                    &&& forall|i: int|
                        0 <= i < aottrace.len() ==> ((#[trigger] aottrace[i]) matches Ok(a)
                            && name_view(req.trace.func_names[i]) == encoded_name(a@)
                            && req.trace.bbs[i] == encoded_bb(a@))
                    &&& match sti {
                        Some(s) => req.callstack == s.callstack && req.aotvalsptr == s.aotvalsptr
                            && req.aotvalslen == s.aotvalslen,
                        None => req.callstack == 0 && req.aotvalsptr == 0 && req.aotvalslen == 0,
                    }
                },
                Err(e) => exists|i: int|
                    first_error(aottrace@, i) && e@ == CompilationErrorView::Temporary(
                        iterator_error_message(aottrace[i]->Err_0),
                    ),
            },
    {
        let irtrace = self.collect_trace(aottrace)?;
        assert forall|i: int| 0 <= i < irtrace.len() implies !(#[trigger] irtrace[i]@ is Promotion) by {
            assert(aottrace[i] == Ok::<TraceAction, AOTTraceIteratorError>(irtrace[i]));
        }
        let trace = self.encode_trace(&irtrace);
        let (callstack, aotvalsptr, aotvalslen) = match sti {
            Some(sti) => (sti.callstack, sti.aotvalsptr, sti.aotvalslen),
            None => (0, 0, 0),
        };
        Ok(CompileRequest { trace, callstack, aotvalsptr, aotvalslen })
    }

    /// Turns what the back end returned into the outcome of the
    /// compilation: a back end that returns nothing has failed, and any
    /// such failure counts as temporary.
    pub fn compiled(&self, ret: Option<CompiledTrace>) -> (r: Result<CompiledTrace, CompilationError>)
        ensures
            match (ret, r) {
                (Some(ct), Ok(out)) => out == ct,
                (None, Err(e)) => e@ == CompilationErrorView::Temporary("llvm backend error"@),
                _ => false,
            },
    {
        match ret {
            None => Err(CompilationError::Temporary("llvm backend error".to_owned())),
            Some(ct) => Ok(ct),
        }
    }
}

} // verus!
