//! Run-time deoptimisation support: when a guard fails, this module says
//! what has to be read and written to restore the state necessary to
//! resume execution, and whether the guard has failed often enough to be
//! worth a side-trace.

use crate::compile::{CompiledTrace, Guard, GuardId, SideTraceInfo, TraceId};
use crate::stackmap::Location;
use vstd::prelude::*;

verus! {

/// The first three locations of a stackmap record are CC, Flags and Num
/// Deopts, which need to be skipped when mapping the stackmap values back
/// to AOT variables.
pub const SM_REC_HEADER: usize = 3;

/// The number of registers that are spilled when a guard fails. They are
/// pushed as rsp, rbp, rdi, rsi, rbx, rcx, rdx, rax, so that a register's
/// DWARF number is also its place in the spilled area.
pub const SAVED_REGISTERS: usize = 8;

/// The DWARF number of the stack pointer.
pub const DWARF_RSP: u16 = 7;

/// Why a guard failure could not be handled. Each of these shows a fault
/// in what the back end emitted.
#[derive(Debug, Clone, Copy, PartialEq, Eq, Structural)]
pub enum DeoptError {
    /// A location names a register that is not spilled when a guard fails.
    RegisterNotSaved,
    /// A location names the stack pointer, whose spilled value is that of
    /// the failing trace's frame and not to be relied on.
    StackPointer,
    /// A live value is held in a register, which no back end emits.
    RegisterLocation,
    /// A register's value and an offset do not add up to an address.
    AddressOverflow,
    /// A live value in memory is not 1, 2, 4 or 8 bytes wide.
    IllegalSize,
    /// The trace has no stackmap record at the guard's return address.
    NoRecord,
    /// The trace has no guard of the given name.
    UnknownGuard,
    /// There are not as many live values as AOT variables to write.
    LiveVarCountMismatch,
    /// The new frames would start below address zero.
    FrameUnderflow,
}

/// The registers spilled to the stack of the previous frame during the
/// deoptimisation routine, in the order of the DWARF register number
/// mapping of the System V ABI.
#[derive(Debug, Clone, Copy)]
pub struct Registers {
    saved: [u64; 8],
}

impl Registers {
    /// The spilled values, by DWARF register number.
    pub closed spec fn values(&self) -> Seq<u64> {
        self.saved@
    }

    /// Creates a Registers struct from the spilled values as they stand
    /// on the stack, lowest address first.
    pub fn new(saved: [u64; 8]) -> (regs: Registers)
        ensures
            regs.values() == saved@,
            regs.values().len() == 8,
    {
        Registers { saved }
    }

    /// Read the spilled register value at the offset `off` from the
    /// previous stack frame.
    pub fn read_from_stack(&self, off: usize) -> (val: u64)
        requires
            off < SAVED_REGISTERS,
        ensures
            self.values().len() == 8,
            val == self.values()[off as int],
    {
        self.saved[off]
    }

    /// The value that `get` gives for register `id`.
    pub open spec fn spec_get(&self, id: u16) -> Result<u64, DeoptError> {
        if id > DWARF_RSP {
            Err(DeoptError::RegisterNotSaved)
        } else if id == DWARF_RSP {
            Err(DeoptError::StackPointer)
        } else {
            Ok(self.values()[id as int])
        }
    }

    /// Retrieve the previous frame's register value given by its DWARF
    /// register number `id`. This number additionally functions as an
    /// offset into the spilled stack to find that register's value.
    pub fn get(&self, id: u16) -> (r: Result<u64, DeoptError>)
        ensures
            r == self.spec_get(id),
    {
        if id > DWARF_RSP {
            return Err(DeoptError::RegisterNotSaved);
        }
        let val = self.read_from_stack(id as usize);
        // Due to the return address being pushed to the stack before RSP is stored, its
        // value is off.
        if id == DWARF_RSP {
            return Err(DeoptError::StackPointer);
        }
        Ok(val)
    }
}

/// Location of a variable in the AOT module: a handle to the variable and
/// the index of the stack frame that holds it.
#[derive(Debug, Clone, Copy, PartialEq, Eq, Structural)]
pub struct AOTVar {
    pub val: u64,
    pub sfidx: usize,
}

/// Offset and length of the live AOT values for one guard failure.
#[derive(Debug, Clone, Copy, PartialEq, Eq, Structural)]
pub struct LiveAOTVals {
    pub offset: usize,
    pub length: usize,
}

/// Struct containing the addresses needed for frame reconstruction.
#[derive(Debug, Clone, Copy, PartialEq, Eq, Structural)]
pub struct NewFramesInfo {
    /// Address of the new stackframes in memory.
    pub src: u64,
    /// Address into the current stack we want to write `src` to.
    pub dst: u64,
}

/// Where the value of a live variable comes from.
#[derive(Debug, Clone, Copy, PartialEq, Eq, Structural)]
pub enum VarSource {
    /// The value itself.
    Value(u64),
    /// The value stands in memory: `size` bytes at `addr`.
    Load { addr: u64, size: u16 },
}

/// One variable of a reconstructed frame and the value to initialise it
/// with.
#[derive(Debug, Clone, Copy, PartialEq, Eq, Structural)]
pub struct VarInit {
    pub val: u64,
    pub sfidx: usize,
    pub value: u64,
}

/// What a failed guard leads to.
#[derive(Debug, Clone, Copy, PartialEq, Eq, Structural)]
pub enum DeoptAction {
    /// A side-trace was compiled for the guard: execute it.
    ExecuteSideTrace(TraceId),
    /// Reconstruct the AOT frames and resume AOT execution.
    Reconstruct,
}

/// The address `offset` bytes from `base`, if there is one.
pub open spec fn spec_address(base: u64, offset: i32) -> Result<u64, DeoptError> {
    if 0 <= base + offset <= u64::MAX {
        Ok((base + offset) as u64)
    } else {
        Err(DeoptError::AddressOverflow)
    }
}

/// Where the value at one location comes from.
///
/// A `Direct` location yields the address `register + offset` as the
/// value. An `Indirect` location yields the integer of `size` bytes
/// stored at that address. Constants yield themselves.
pub open spec fn spec_source(loc: Location, regs: Registers) -> Result<VarSource, DeoptError> {
    match loc {
        Location::Register(_, _) => Err(DeoptError::RegisterLocation),
        Location::Direct(reg, off, _) => match regs.spec_get(reg) {
            Err(e) => Err(e),
            Ok(base) => match spec_address(base, off) {
                Err(e) => Err(e),
                Ok(addr) => Ok(VarSource::Value(addr)),
            },
        },
        Location::Indirect(reg, off, size) => match regs.spec_get(reg) {
            Err(e) => Err(e),
            Ok(base) => match spec_address(base, off) {
                Err(e) => Err(e),
                Ok(addr) => if size == 1 || size == 2 || size == 4 || size == 8 {
                    Ok(VarSource::Load { addr, size })
                } else {
                    Err(DeoptError::IllegalSize)
                },
            },
        },
        Location::Constant(v) => Ok(VarSource::Value(v as u64)),
        Location::LargeConstant(v) => Ok(VarSource::Value(v)),
    }
}

/// The locations of a record that stand for live variables: all but the
/// record's header.
pub open spec fn user_locs(locs: Seq<Location>) -> Seq<Location> {
    if locs.len() <= SM_REC_HEADER {
        Seq::empty()
    } else {
        locs.skip(SM_REC_HEADER as int)
    }
}

/// The sources of the first `k` of the locations `locs`; the first
/// location at fault decides the error.
pub open spec fn spec_sources(locs: Seq<Location>, regs: Registers, k: nat) -> Result<
    Seq<VarSource>,
    DeoptError,
>
    decreases k,
{
    if k == 0 {
        Ok(Seq::empty())
    } else {
        match spec_sources(locs, regs, (k - 1) as nat) {
            Err(e) => Err(e),
            Ok(s) => match spec_source(locs[k - 1], regs) {
                Err(e) => Err(e),
                Ok(src) => Ok(s.push(src)),
            },
        }
    }
}

/// Sources that fail after `k` locations fail the same way however many
/// more are asked for.
pub proof fn lemma_sources_error_stays(locs: Seq<Location>, regs: Registers, k: nat, n: nat)
    requires
        k <= n,
        spec_sources(locs, regs, k) is Err,
    ensures
        spec_sources(locs, regs, n) == spec_sources(locs, regs, k),
    decreases n,
{
    if k < n {
        lemma_sources_error_stays(locs, regs, k, (n - 1) as nat);
    }
}

/// Locations that have sources have one source each.
pub proof fn lemma_sources_len(locs: Seq<Location>, regs: Registers, k: nat)
    ensures
        spec_sources(locs, regs, k) matches Ok(s) ==> s.len() == k,
    decreases k,
{
    if k > 0 {
        lemma_sources_len(locs, regs, (k - 1) as nat);
    }
}

/// Where the live variables of a record come from, one source for each
/// location after the record's header.
pub open spec fn spec_live_sources(locs: Seq<Location>, regs: Registers) -> Result<
    Seq<VarSource>,
    DeoptError,
> {
    spec_sources(user_locs(locs), regs, user_locs(locs).len())
}

/// The value that `size` bytes in memory hold, the lowest address first.
pub open spec fn spec_loaded(bytes: Seq<u8>, size: nat) -> nat
    decreases size,
{
    if size == 0 {
        0
    } else {
        bytes[0] as nat + 256 * spec_loaded(bytes.skip(1), (size - 1) as nat)
    }
}

/// Says where the value at `loc` comes from.
pub fn var_source(loc: &Location, regs: &Registers) -> (r: Result<VarSource, DeoptError>)
    ensures
        r == spec_source(*loc, *regs),
{
    match *loc {
        Location::Register(_reg, _size) => Err(DeoptError::RegisterLocation),
        Location::Direct(reg, off, _size) => {
            let base = regs.get(reg)?;
            match base.checked_add_signed(off as i64) {
                Some(addr) => Ok(VarSource::Value(addr)),
                None => Err(DeoptError::AddressOverflow),
            }
        },
        Location::Indirect(reg, off, size) => {
            let base = regs.get(reg)?;
            match base.checked_add_signed(off as i64) {
                Some(addr) => if size == 1 || size == 2 || size == 4 || size == 8 {
                    Ok(VarSource::Load { addr, size })
                } else {
                    Err(DeoptError::IllegalSize)
                },
                None => Err(DeoptError::AddressOverflow),
            }
        },
        Location::Constant(v) => Ok(VarSource::Value(v as u64)),
        Location::LargeConstant(v) => Ok(VarSource::Value(v)),
    }
}

/// Extracts from a stackmap record where the live values of a guard
/// failure come from. The record's header is skipped.
pub fn live_var_sources(locs: &Vec<Location>, regs: &Registers) -> (r: Result<
    Vec<VarSource>,
    DeoptError,
>)
    ensures
        match (r, spec_live_sources(locs@, *regs)) {
            (Ok(v), Ok(s)) => v@ == s,
            (Err(e), Err(se)) => e == se,
            _ => false,
        },
{
    let mut v: Vec<VarSource> = Vec::new();
    let n = locs.len();
    if n <= SM_REC_HEADER {
        return Ok(v);
    }
    let ghost user = user_locs(locs@);
    let mut i: usize = SM_REC_HEADER;
    while i < n
        invariant
            SM_REC_HEADER <= i <= n,
            n == locs.len(),
            user == user_locs(locs@),
            user.len() == n - SM_REC_HEADER,
            spec_sources(user, *regs, (i - SM_REC_HEADER) as nat) == Ok::<Seq<VarSource>, DeoptError>(
                v@,
            ),
        decreases n - i,
    {
        proof {
            if spec_sources(user, *regs, (i - SM_REC_HEADER + 1) as nat) is Err {
                lemma_sources_error_stays(
                    user,
                    *regs,
                    (i - SM_REC_HEADER + 1) as nat,
                    user.len(),
                );
            }
            assert(user[i - SM_REC_HEADER] == locs[i as int]);
        }
        let src = var_source(&locs[i], regs)?;
        v.push(src);
        i += 1;
    }
    Ok(v)
}

/// The value of a live variable that stands in memory, from the bytes
/// read there: an unsigned integer, the byte at the lowest address the
/// least significant.
pub fn loaded_value(bytes: &[u8]) -> (value: u64)
    requires
        bytes@.len() == 1 || bytes@.len() == 2 || bytes@.len() == 4 || bytes@.len() == 8,
    ensures
        value == spec_loaded(bytes@, bytes@.len()),
{
    let n = bytes.len();
    let mut value: u64 = 0;
    let mut i: usize = n;
    let mut width: usize = 0;
    while i > 0
        invariant
            i <= n,
            n == bytes@.len(),
            n <= 8,
            width == n - i,
            value == spec_loaded(bytes@.skip(i as int), width as nat),
            width == 0 ==> value == 0,
            width == 1 ==> value < 0x100,
            width == 2 ==> value < 0x1_0000,
            width == 3 ==> value < 0x100_0000,
            width == 4 ==> value < 0x1_0000_0000,
            width == 5 ==> value < 0x100_0000_0000,
            width == 6 ==> value < 0x1_0000_0000_0000,
            width == 7 ==> value < 0x100_0000_0000_0000,
        decreases i,
    {
        i -= 1;
        assert(bytes@.skip(i as int).skip(1) =~= bytes@.skip(i + 1));
        assert(bytes@.skip(i as int)[0] == bytes@[i as int]);
        value = value * 256 + bytes[i] as u64;
        width += 1;
    }
    assert(bytes@.skip(0) =~= bytes@);
    value
}

/// Pairs the values read for a guard failure with the AOT variables that
/// they are to be written to, by position.
pub fn var_inits(values: &Vec<u64>, aotvals: &Vec<AOTVar>) -> (r: Result<Vec<VarInit>, DeoptError>)
    ensures
        match r {
            Ok(v) => values.len() == aotvals.len() && v.len() == values.len() && forall|i: int|
                0 <= i < v.len() ==> #[trigger] v[i] == (VarInit {
                    val: aotvals[i].val,
                    sfidx: aotvals[i].sfidx,
                    value: values[i],
                }),
            Err(e) => e == DeoptError::LiveVarCountMismatch && values.len() != aotvals.len(),
        },
{
    if values.len() != aotvals.len() {
        return Err(DeoptError::LiveVarCountMismatch);
    }
    let mut v: Vec<VarInit> = Vec::new();
    let mut i: usize = 0;
    while i < values.len()
        invariant
            i <= values.len(),
            values.len() == aotvals.len(),
            v.len() == i,
            forall|k: int|
                0 <= k < i ==> #[trigger] v[k] == (VarInit {
                    val: aotvals[k].val,
                    sfidx: aotvals[k].sfidx,
                    value: values[k],
                }),
        decreases values.len() - i,
    {
        let aot = aotvals[i];
        v.push(VarInit { val: aot.val, sfidx: aot.sfidx, value: values[i] });
        i += 1;
    }
    Ok(v)
}

/// What the failure of guard `guardid` of `ctr` at the return address
/// `retaddr` leads to, and where the live values come from.
pub open spec fn spec_guard_failure(
    ctr: &CompiledTrace,
    guardid: GuardId,
    retaddr: u64,
    regs: Registers,
) -> Result<(DeoptAction, Seq<VarSource>), DeoptError> {
    if guardid.0 >= ctr.spec_guards().len() {
        Err(DeoptError::UnknownGuard)
    } else if !ctr.spec_smap().contains_key(retaddr) {
        Err(DeoptError::NoRecord)
    } else {
        match spec_live_sources(ctr.spec_smap()[retaddr], regs) {
            Err(e) => Err(e),
            Ok(sources) => if guardid.0 + 1 != ctr.spec_guards().len() && ctr.spec_guards()[guardid.0 as int].child()
                is Some {
                Ok((DeoptAction::ExecuteSideTrace(ctr.spec_guards()[guardid.0 as int].child()->Some_0), sources))
            } else {
                Ok((DeoptAction::Reconstruct, sources))
            },
        }
    }
}

/// Called when a guard failure occurs: says whether a side-trace is to be
/// executed or the AOT frames are to be reconstructed, and where the live
/// values of the guard come from.
///
/// The arguments are as follows:
///
///   * `ctr`: The trace whose guard failed.
///   * `guardid`: ID of the failing guard.
///   * `retaddr`: Return address of the deoptimize call. Used to find
///     the correct stackmap record.
///   * `regs`: The registers spilled when the guard failed.
pub fn guard_failure(ctr: &CompiledTrace, guardid: GuardId, retaddr: u64, regs: &Registers) -> (r:
    Result<(DeoptAction, Vec<VarSource>), DeoptError>)
    ensures
        match (r, spec_guard_failure(ctr, guardid, retaddr, *regs)) {
            (Ok((action, v)), Ok((saction, s))) => action == saction && v@ == s,
            (Err(e), Err(se)) => e == se,
            _ => false,
        },
{
    if guardid.0 >= ctr.num_guards() {
        return Err(DeoptError::UnknownGuard);
    }
    let live_vars = match ctr.smap(retaddr) {
        Some(l) => l,
        None => { return Err(DeoptError::NoRecord); },
    };
    let sources = live_var_sources(live_vars, regs)?;
    // Check if we have a side trace and execute it.
    if !ctr.is_last_guard(guardid) {
        let guard = ctr.guard(guardid);
        if let Some(st) = guard.getct() {
            return Ok((DeoptAction::ExecuteSideTrace(st), sources));
        }
    }
    Ok((DeoptAction::Reconstruct, sources))
}

/// Where the new frames go: immediately after the frame containing the
/// control point, that is `btmframesize` bytes below `frameaddr`.
pub fn new_frames_info(src: u64, frameaddr: u64, btmframesize: u64) -> (r: Result<
    NewFramesInfo,
    DeoptError,
>)
    ensures
        match r {
            Ok(nfi) => btmframesize <= frameaddr && nfi.src == src && nfi.dst == frameaddr
                - btmframesize,
            Err(e) => e == DeoptError::FrameUnderflow && btmframesize > frameaddr,
        },
{
    if btmframesize > frameaddr {
        return Err(DeoptError::FrameUnderflow);
    }
    Ok(NewFramesInfo { src, dst: frameaddr - btmframesize })
}

/// What is handed to the back end when guard `guardid` is side-traced,
/// if the live values' offset leads to an address.
pub open spec fn spec_side_trace_info(
    aotvals_base: u64,
    aotvals: LiveAOTVals,
    guardid: GuardId,
    jitcallstack: u64,
) -> Option<SideTraceInfo> {
    if aotvals_base + aotvals.offset <= u64::MAX {
        Some(
            SideTraceInfo {
                callstack: jitcallstack,
                aotvalsptr: (aotvals_base + aotvals.offset) as u64,
                aotvalslen: aotvals.length,
                guardid,
            },
        )
    } else {
        None
    }
}

/// Hot-guard accounting, done after the frames were reconstructed: counts
/// the failure of guard `guardid`, unless that is the last guard of the
/// trace or guards a switch statement, and says whether a side-trace is to
/// be compiled now, and with what.
///
/// A side-trace is due when the guard has become hot, the location that
/// owns the trace is still live (`hl_live`) and the live values' offset
/// leads to an address.
pub fn count_failure(
    ctr: &mut CompiledTrace,
    guardid: GuardId,
    isswitchguard: bool,
    sidetrace_threshold: u32,
    hl_live: bool,
    aotvals: LiveAOTVals,
    jitcallstack: u64,
) -> (sti: Option<SideTraceInfo>)
    requires
        guardid.0 < old(ctr).spec_guards().len(),
    ensures
        final(ctr).spec_entry() == old(ctr).spec_entry(),
        final(ctr).spec_aotvals() == old(ctr).spec_aotvals(),
        final(ctr).spec_smap() == old(ctr).spec_smap(),
        final(ctr).spec_guards().len() == old(ctr).spec_guards().len(),
        forall|i: int|
            0 <= i < old(ctr).spec_guards().len() && i != guardid.0 ==> final(ctr).spec_guards()[i]
                == old(ctr).spec_guards()[i],
        final(ctr).spec_guards()[guardid.0 as int].child() == old(ctr).spec_guards()[guardid.0 as int].child(),
        ({
            let before = old(ctr).spec_guards()[guardid.0 as int];
            let after = final(ctr).spec_guards()[guardid.0 as int];
            if isswitchguard || guardid.0 + 1 == old(ctr).spec_guards().len() {
                after.failures() == before.failures() && sti is None
            } else {
                &&& after.failures() == Guard::next_count(before.failures())
                &&& sti == if before.failures() >= sidetrace_threshold && hl_live {
                    spec_side_trace_info(old(ctr).spec_aotvals(), aotvals, guardid, jitcallstack)
                } else {
                    None
                }
            }
        }),
{
    // We want to start side tracing only after we deoptimised.
    if !isswitchguard && !ctr.is_last_guard(guardid) {
        if ctr.inc_failed(guardid, sidetrace_threshold) {
            // This guard is hot, so compile a new side-trace.
            if hl_live {
                let base = ctr.aotvals();
                if aotvals.offset as u64 <= u64::MAX - base {
                    return Some(
                        SideTraceInfo {
                            callstack: jitcallstack,
                            aotvalsptr: base + aotvals.offset as u64,
                            aotvalslen: aotvals.length,
                            guardid,
                        },
                    );
                }
            }
        }
    }
    None
}

/// Once a side-trace is stored in a guard that is not the last of its
/// trace, a failure of the guard leads to the side-trace and to no
/// reconstruction of frames, wherever the failure is one that can be
/// handled at all.
pub proof fn lemma_side_trace_is_executed(
    ctr: &CompiledTrace,
    guardid: GuardId,
    retaddr: u64,
    regs: Registers,
    child: TraceId,
)
    requires
        guardid.0 + 1 < ctr.spec_guards().len(),
        ctr.spec_guards()[guardid.0 as int].child() == Some(child),
        spec_guard_failure(ctr, guardid, retaddr, regs) is Ok,
    ensures
        spec_guard_failure(ctr, guardid, retaddr, regs)->Ok_0.0 == DeoptAction::ExecuteSideTrace(
            child,
        ),
{
}

/// A guard without a side-trace, and the last guard of a trace, lead to
/// the reconstruction of frames.
pub proof fn lemma_reconstruct_without_side_trace(
    ctr: &CompiledTrace,
    guardid: GuardId,
    retaddr: u64,
    regs: Registers,
)
    requires
        guardid.0 < ctr.spec_guards().len(),
        guardid.0 + 1 == ctr.spec_guards().len() || ctr.spec_guards()[guardid.0 as int].child()
            is None,
        spec_guard_failure(ctr, guardid, retaddr, regs) is Ok,
    ensures
        spec_guard_failure(ctr, guardid, retaddr, regs)->Ok_0.0 == DeoptAction::Reconstruct,
{
}

} // verus!
