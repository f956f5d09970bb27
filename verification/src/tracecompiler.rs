//! The trace compiler takes a trace of IR operations and says which
//! machine instructions make up the compiled trace.

use crate::tir::{
    CallOperand, Constant, ConstantInt, Guard, Local, Operand, Place, Rvalue, Statement, TirOp,
    TirTrace, UnsignedInt,
};
use std::collections::HashMap;
use vstd::prelude::*;
use vstd::std_specs::cmp::PartialEqSpecImpl;
use vstd::string::StringExecFns;

verus! {

#[derive(Debug, Hash)]
pub enum CompileError {
    /// We ran out of registers.
    /// In the long-run, when we have a proper register allocator, this won't be needed.
    OutOfRegisters,
    /// Compiling this statement is not yet implemented.
    /// The string inside is a hint as to what kind of statement needs to be implemented.
    Unimplemented(String),
}

pub enum CompileErrorView {
    OutOfRegisters,
    Unimplemented(Seq<char>),
}

impl View for CompileError {
    type V = CompileErrorView;

    open spec fn view(&self) -> CompileErrorView {
        match *self {
            CompileError::OutOfRegisters => CompileErrorView::OutOfRegisters,
            CompileError::Unimplemented(s) => CompileErrorView::Unimplemented(s@),
        }
    }
}

impl CompileError {
    /// The error in words.
    pub fn message(&self) -> (s: String)
        ensures
            s@ == match self@ {
                CompileErrorView::OutOfRegisters => "Ran out of registers"@,
                CompileErrorView::Unimplemented(hint) => "Unimplemented compilation: "@ + hint,
            },
    {
        match self {
            CompileError::OutOfRegisters => "Ran out of registers".to_owned(),
            CompileError::Unimplemented(hint) => {
                let mut s = "Unimplemented compilation: ".to_owned();
                s.append(hint.as_str());
                s
            },
        }
    }

    /// Whether two errors are the same: the same kind and the same hint.
    pub fn same(&self, other: &Self) -> (r: bool)
        ensures
            r == (self@ == other@),
    {
        match self {
            CompileError::OutOfRegisters => match other {
                CompileError::OutOfRegisters => true,
                _ => false,
            },
            CompileError::Unimplemented(hint) => match other {
                CompileError::Unimplemented(other_hint) => *hint == *other_hint,
                _ => false,
            },
        }
    }
}

impl PartialEq for CompileError {
    fn eq(&self, other: &Self) -> (r: bool) {
        self.same(other)
    }
}

impl Eq for CompileError {

}

impl PartialEqSpecImpl for CompileError {
    open spec fn obeys_eq_spec() -> bool {
        true
    }

    open spec fn eq_spec(&self, other: &Self) -> bool {
        self@ == other@
    }
}

/// The name of each 64-bit register, by its number in the instruction
/// encoding.
pub open spec fn spec_reg_name(r: u8) -> Seq<char> {
    if r == 0 {
        "rax"@
    } else if r == 1 {
        "rcx"@
    } else if r == 2 {
        "rdx"@
    } else if r == 3 {
        "rbx"@
    } else if r == 4 {
        "rsp"@
    } else if r == 5 {
        "rbp"@
    } else if r == 6 {
        "rsi"@
    } else if r == 7 {
        "rdi"@
    } else if r == 8 {
        "r8"@
    } else if r == 9 {
        "r9"@
    } else if r == 10 {
        "r10"@
    } else if r == 11 {
        "r11"@
    } else if r == 12 {
        "r12"@
    } else if r == 13 {
        "r13"@
    } else if r == 14 {
        "r14"@
    } else {
        "r15"@
    }
}

/// Converts a register number into it's string name.
pub fn reg_num_to_name(r: u8) -> (name: &'static str)
    requires
        r < 16,
    ensures
        name@ == spec_reg_name(r),
{
    match r {
        0 => "rax",
        1 => "rcx",
        2 => "rdx",
        3 => "rbx",
        4 => "rsp",
        5 => "rbp",
        6 => "rsi",
        7 => "rdi",
        8 => "r8",
        9 => "r9",
        10 => "r10",
        11 => "r11",
        12 => "r12",
        13 => "r13",
        14 => "r14",
        _ => "r15",
    }
}

/// One machine instruction of a compiled trace. Registers are named by
/// their number in the instruction encoding.
#[derive(Debug, Clone, Copy, PartialEq, Eq, Structural)]
pub enum Instr {
    /// `mov dst, imm`, the immediate sign-extended from 32 bits.
    MovImm32 { dst: u8, imm32: i32 },
    /// `mov dst, imm`, with a 64-bit immediate.
    MovImm64 { dst: u8, imm64: i64 },
    /// `mov dst, src`
    MovReg { dst: u8, src: u8 },
    /// `nop`
    Nop,
    /// `ret`
    Ret,
}

/// The state of a trace compiler.
pub struct TcState {
    /// The instructions emitted so far.
    pub code: Seq<Instr>,
    /// The registers that no local holds; the last is given out first.
    pub available: Seq<u8>,
    /// The register of each local that has one, but for local 0.
    pub assigned: Map<u32, u8>,
    /// For each inlined call that has been entered and not left, the
    /// local that takes its result.
    pub leaves: Seq<Option<Local>>,
}

/// `s` with the instruction `i` emitted.
pub open spec fn emit(s: TcState, i: Instr) -> TcState {
    TcState { code: s.code.push(i), available: s.available, assigned: s.assigned, leaves: s.leaves }
}

/// The state of a compiler that has compiled nothing: it can use all the
/// 64-bit registers but RAX, RBX and those that hold a frame (R15-R8, RDX,
/// RCX).
pub open spec fn initial_state() -> TcState {
    TcState {
        code: Seq::empty(),
        available: seq![15u8, 14u8, 13u8, 12u8, 11u8, 10u8, 9u8, 8u8, 2u8, 1u8],
        assigned: Map::empty(),
        leaves: Seq::empty(),
    }
}

/// The register of local `l`. Local 0 is the (implicit) return value
/// and lives in the return register. Another local keeps the register
/// that it has, or takes an available one.
pub open spec fn spec_local_to_reg(s: TcState, l: Local) -> Result<(TcState, u8), CompileErrorView> {
    if l.0 == 0 {
        Ok((s, 0u8))
    } else if s.assigned.contains_key(l.0) {
        Ok((s, s.assigned[l.0]))
    } else if s.available.len() > 0 {
        Ok(
            (
                TcState {
                    code: s.code,
                    available: s.available.drop_last(),
                    assigned: s.assigned.insert(l.0, s.available.last()),
                    leaves: s.leaves,
                },
                s.available.last(),
            ),
        )
    } else {
        Err(CompileErrorView::OutOfRegisters)
    }
}

/// The state after the register of local `l`, if it has one, was made
/// available again.
pub open spec fn spec_free_register(s: TcState, l: Local) -> TcState {
    if s.assigned.contains_key(l.0) {
        TcState {
            code: s.code,
            available: s.available.push(s.assigned[l.0]),
            assigned: s.assigned.remove(l.0),
            leaves: s.leaves,
        }
    } else {
        s
    }
}

pub open spec fn spec_mov_local_imm32(s: TcState, l: Local, imm: i32) -> Result<
    TcState,
    CompileErrorView,
> {
    match spec_local_to_reg(s, l) {
        Err(e) => Err(e),
        Ok((s1, reg)) => Ok(emit(s1, Instr::MovImm32 { dst: reg, imm32: imm })),
    }
}

pub open spec fn spec_mov_local_imm64(s: TcState, l: Local, imm: i64) -> Result<
    TcState,
    CompileErrorView,
> {
    match spec_local_to_reg(s, l) {
        Err(e) => Err(e),
        Ok((s1, reg)) => Ok(emit(s1, Instr::MovImm64 { dst: reg, imm64: imm })),
    }
}

pub open spec fn spec_mov_local_local(s: TcState, l1: Local, l2: Local) -> Result<
    TcState,
    CompileErrorView,
> {
    match spec_local_to_reg(s, l1) {
        Err(e) => Err(e),
        Ok((s1, lreg)) => match spec_local_to_reg(s1, l2) {
            Err(e) => Err(e),
            Ok((s2, rreg)) => Ok(emit(s2, Instr::MovReg { dst: lreg, src: rreg })),
        },
    }
}

/// Only 8-bit and word-sized unsigned constants are compiled. The local
/// gets its register before the constant is looked at.
pub open spec fn spec_c_mov_int(s: TcState, l: Local, c: ConstantInt) -> Result<
    TcState,
    CompileErrorView,
> {
    match spec_local_to_reg(s, l) {
        Err(e) => Err(e),
        Ok((s1, reg)) => match c {
            ConstantInt::UnsignedInt(UnsignedInt::U8(i)) => Ok(
                emit(s1, Instr::MovImm64 { dst: reg, imm64: i as i64 }),
            ),
            ConstantInt::UnsignedInt(UnsignedInt::Usize(i)) => Ok(
                emit(s1, Instr::MovImm64 { dst: reg, imm64: i as i64 }),
            ),
            _ => Err(CompileErrorView::Unimplemented("integer constant"@)),
        },
    }
}

pub open spec fn bool_imm(b: bool) -> i64 {
    if b {
        1
    } else {
        0
    }
}

pub open spec fn spec_c_mov_bool(s: TcState, l: Local, b: bool) -> Result<TcState, CompileErrorView> {
    spec_mov_local_imm64(s, l, bool_imm(b))
}

pub open spec fn spec_mov_constant(s: TcState, l: Local, c: Constant) -> Result<
    TcState,
    CompileErrorView,
> {
    match c {
        Constant::Int(ci) => spec_c_mov_int(s, l, ci),
        Constant::Bool(b) => spec_c_mov_bool(s, l, b),
        Constant::Unimplemented => Err(CompileErrorView::Unimplemented("constant"@)),
    }
}

/// The state after one call argument was moved to the callee's local
/// `arg`.
pub open spec fn spec_arg(s: TcState, arg: Local, op: Operand) -> Result<TcState, CompileErrorView> {
    match op {
        Operand::Place(p) => spec_mov_local_local(s, arg, p.local),
        Operand::Constant(c) => spec_mov_constant(s, arg, c),
    }
}

/// The state after the first `k` call arguments were moved: argument `i`,
/// counted from 1, goes to the callee's local `i + off`.
pub open spec fn spec_args(s: TcState, args: Seq<Operand>, off: u32, k: nat) -> Result<
    TcState,
    CompileErrorView,
>
    decreases k,
{
    if k == 0 {
        Ok(s)
    } else {
        match spec_args(s, args, off, (k - 1) as nat) {
            Err(e) => Err(e),
            Ok(s1) => if k + off > u32::MAX {
                Err(CompileErrorView::Unimplemented("local out of range"@))
            } else {
                spec_arg(s1, Local((k + off) as u32), args[k - 1])
            },
        }
    }
}

/// The pattern `pat` occurs somewhere in `s`.
pub open spec fn contains_str(s: Seq<char>, pat: Seq<char>) -> bool {
    exists|i: int| 0 <= i <= s.len() - pat.len() && #[trigger] s.subrange(i, i + pat.len()) == pat
}

/// Whether a call is the call that ends the recording of the trace.
pub open spec fn is_stop_tracing(op: CallOperand) -> bool {
    op matches CallOperand::Fn(name) && contains_str(name@, "stop_tracing"@)
}

pub open spec fn dest_local(dest: Option<Place>) -> Option<Local> {
    match dest {
        Some(p) => Some(p.local),
        None => None,
    }
}

/// Entering an inlined call moves the arguments to the callee's locals
/// and remembers where the result goes. The call that ends the recording
/// is passed over.
pub open spec fn spec_c_enter(
    s: TcState,
    op: CallOperand,
    args: Seq<Operand>,
    dest: Option<Place>,
    off: u32,
) -> Result<TcState, CompileErrorView> {
    if is_stop_tracing(op) {
        Ok(s)
    } else {
        match spec_args(s, args, off, args.len()) {
            Err(e) => Err(e),
            Ok(s1) => Ok(
                TcState {
                    code: s1.code,
                    available: s1.available,
                    assigned: s1.assigned,
                    leaves: s1.leaves.push(dest_local(dest)),
                },
            ),
        }
    }
}

/// Leaving an inlined call moves whatever is left in the return register
/// to the local that was remembered for the call.
pub open spec fn spec_c_leave(s: TcState) -> Result<TcState, CompileErrorView> {
    if s.leaves.len() == 0 {
        Ok(s)
    } else {
        let s1 = TcState {
            code: s.code,
            available: s.available,
            assigned: s.assigned,
            leaves: s.leaves.drop_last(),
        };
        match s.leaves.last() {
            Some(d) => spec_mov_local_local(s1, d, Local(0)),
            None => Ok(s1),
        }
    }
}

pub open spec fn spec_assign(s: TcState, l: Place, r: Rvalue) -> Result<TcState, CompileErrorView> {
    if l.projection@.len() > 0 {
        Err(CompileErrorView::Unimplemented("assignment to a projection"@))
    } else {
        match r {
            Rvalue::Use(Operand::Place(p)) => if p.projection@.len() > 0 {
                Err(CompileErrorView::Unimplemented("use of a projection"@))
            } else {
                spec_mov_local_local(s, l.local, p.local)
            },
            Rvalue::Use(Operand::Constant(c)) => spec_mov_constant(s, l.local, c),
            Rvalue::Unimplemented => Err(CompileErrorView::Unimplemented("rvalue"@)),
        }
    }
}

pub open spec fn spec_statement(s: TcState, stmt: Statement) -> Result<TcState, CompileErrorView> {
    match stmt {
        Statement::Assign(l, r) => spec_assign(s, l, r),
        Statement::Enter(op, args, dest, off) => spec_c_enter(s, op, args@, dest, off),
        Statement::Leave => spec_c_leave(s),
        Statement::StorageLive(_) => Ok(s),
        Statement::StorageDead(l) => Ok(spec_free_register(s, l)),
        Statement::Call(_, _, _) => Err(CompileErrorView::Unimplemented("call"@)),
        Statement::Nop => Ok(s),
        Statement::Unimplemented(m) => Err(CompileErrorView::Unimplemented(m@)),
    }
}

/// A guard is compiled to a `nop`.
pub open spec fn spec_op(s: TcState, op: TirOp) -> Result<TcState, CompileErrorView> {
    match op {
        TirOp::Statement(st) => spec_statement(s, st),
        TirOp::Guard(_) => Ok(emit(s, Instr::Nop)),
    }
}

/// The state after the first `k` operations were compiled; the first
/// operation that cannot be compiled decides the error.
pub open spec fn spec_ops(s: TcState, ops: Seq<TirOp>, k: nat) -> Result<TcState, CompileErrorView>
    decreases k,
{
    if k == 0 {
        Ok(s)
    } else {
        match spec_ops(s, ops, (k - 1) as nat) {
            Err(e) => Err(e),
            Ok(s1) => spec_op(s1, ops[k - 1]),
        }
    }
}

/// The instructions of the compiled trace: those of its operations, and
/// a `ret`.
pub open spec fn spec_compile(ops: Seq<TirOp>) -> Result<Seq<Instr>, CompileErrorView> {
    match spec_ops(initial_state(), ops, ops.len()) {
        Err(e) => Err(e),
        Ok(s) => Ok(s.code.push(Instr::Ret)),
    }
}

pub proof fn lemma_args_error_stays(s: TcState, args: Seq<Operand>, off: u32, k: nat, n: nat)
    requires
        k <= n,
        spec_args(s, args, off, k) is Err,
    ensures
        spec_args(s, args, off, n) == spec_args(s, args, off, k),
    decreases n,
{
    if k < n {
        lemma_args_error_stays(s, args, off, k, (n - 1) as nat);
    }
}

pub proof fn lemma_ops_error_stays(s: TcState, ops: Seq<TirOp>, k: nat, n: nat)
    requires
        k <= n,
        spec_ops(s, ops, k) is Err,
    ensures
        spec_ops(s, ops, n) == spec_ops(s, ops, k),
    decreases n,
{
    if k < n {
        lemma_ops_error_stays(s, ops, k, (n - 1) as nat);
    }
}

/// The registers are shared out soundly: the return register is never
/// given out, no register is available twice, no register is available
/// and assigned, and no register is assigned to two locals.
pub open spec fn regs_wf(s: TcState) -> bool {
    &&& forall|i: int| 0 <= i < s.available.len() ==> #[trigger] s.available[i] != 0
    &&& forall|i: int, j: int|
        0 <= i < j < s.available.len() ==> #[trigger] s.available[i] != #[trigger] s.available[j]
    &&& !s.assigned.contains_key(0)
    &&& forall|l: u32| #[trigger] s.assigned.contains_key(l) ==> s.assigned[l] != 0
    &&& forall|l: u32, i: int|
        #[trigger] s.assigned.contains_key(l) && 0 <= i < s.available.len() ==> s.assigned[l]
            != #[trigger] s.available[i]
    &&& forall|l1: u32, l2: u32|
        #[trigger] s.assigned.contains_key(l1) && #[trigger] s.assigned.contains_key(l2) && l1
            != l2 ==> s.assigned[l1] != s.assigned[l2]
}

pub proof fn lemma_initial_state_wf()
    ensures
        regs_wf(initial_state()),
{
}

/// Giving a local its register keeps the registers shared out soundly,
/// and the local keeps the register from then on.
pub proof fn lemma_local_to_reg_wf(s: TcState, l: Local)
    requires
        regs_wf(s),
    ensures
        spec_local_to_reg(s, l) matches Ok((s1, r)) ==> regs_wf(s1) && spec_local_to_reg(s1, l)
            == Ok::<(TcState, u8), CompileErrorView>((s1, r)) && (l.0 != 0 ==> r != 0),
{
    if let Ok((s1, r)) = spec_local_to_reg(s, l) {
        if l.0 != 0 && !s.assigned.contains_key(l.0) {
            assert(r == s.available[s.available.len() - 1]);
            assert forall|k: u32, i: int| #[trigger]
                s1.assigned.contains_key(k) && 0 <= i < s1.available.len() implies s1.assigned[k]
                != #[trigger] s1.available[i] by {
                assert(s1.available[i] == s.available[i]);
            }
            assert forall|l1: u32, l2: u32| #[trigger]
                s1.assigned.contains_key(l1) && #[trigger] s1.assigned.contains_key(l2) && l1
                != l2 implies s1.assigned[l1] != s1.assigned[l2] by {}
        }
    }
}

/// Freeing a local's register keeps the registers shared out soundly.
pub proof fn lemma_free_register_wf(s: TcState, l: Local)
    requires
        regs_wf(s),
    ensures
        regs_wf(spec_free_register(s, l)),
{
    let s1 = spec_free_register(s, l);
    if s.assigned.contains_key(l.0) {
        assert forall|i: int, j: int| 0 <= i < j < s1.available.len() implies #[trigger] s1.available[i]
            != #[trigger] s1.available[j] by {
            if j == s.available.len() {
                assert(s1.available[i] == s.available[i]);
            }
        }
        assert forall|k: u32, i: int| #[trigger]
            s1.assigned.contains_key(k) && 0 <= i < s1.available.len() implies s1.assigned[k]
            != #[trigger] s1.available[i] by {
            assert(s.assigned.contains_key(k));
            if i < s.available.len() {
                assert(s1.available[i] == s.available[i]);
            }
        }
    }
}

/// Locals are allocated to different registers: two different locals
/// that get their registers one after the other never get the same.
pub proof fn lemma_distinct_locals_distinct_registers(s: TcState, l1: Local, l2: Local)
    requires
        regs_wf(s),
        l1 != l2,
    ensures
        spec_local_to_reg(s, l1) matches Ok((s1, r1)) ==> (spec_local_to_reg(s1, l2) matches Ok(
            (_, r2),
        ) ==> r1 != r2),
{
    lemma_local_to_reg_wf(s, l1);
    if let Ok((s1, r1)) = spec_local_to_reg(s, l1) {
        lemma_local_to_reg_wf(s1, l2);
        if let Ok((s2, r2)) = spec_local_to_reg(s1, l2) {
            if l1.0 != 0 && l2.0 != 0 {
                assert(s1.assigned.contains_key(l1.0));
                if !s1.assigned.contains_key(l2.0) {
                    assert(r2 == s1.available[s1.available.len() - 1]);
                }
            }
        }
    }
}

/// Calls the standard library's `str::contains` with a string as the
/// pattern: whether the pattern matches a part of `s`.
#[verifier::external_body]
fn str_contains(s: &str, pat: &str) -> (r: bool)
    ensures
        r == contains_str(s@, pat@),
{
    s.contains(pat)
}

/// The `TraceCompiler` takes a trace and compiles it to machine
/// instructions.
pub struct TraceCompiler {
    /// The instructions emitted so far.
    code: Vec<Instr>,
    /// Contains the list of currently available registers.
    available_regs: Vec<u8>,
    /// Maps locals to their assigned registers.
    assigned_regs: HashMap<u32, u8>,
    /// Stores the destination locals to which we copy RAX to after leaving an inlined call.
    leaves: Vec<Option<Local>>,
}

impl View for TraceCompiler {
    type V = TcState;

    closed spec fn view(&self) -> TcState {
        TcState {
            code: self.code@,
            available: self.available_regs@,
            assigned: self.assigned_regs@,
            leaves: self.leaves@,
        }
    }
}

/// An operation on a compiler gave what `spec` says: the new state on
/// success, the error otherwise.
pub open spec fn stepped(
    r: Result<(), CompileError>,
    after: TcState,
    spec: Result<TcState, CompileErrorView>,
) -> bool {
    match (r, spec) {
        (Ok(_), Ok(s)) => after == s,
        (Err(e), Err(se)) => e@ == se,
        _ => false,
    }
}

impl TraceCompiler {
    /// A compiler that has compiled nothing yet.
    pub fn new() -> (tc: TraceCompiler)
        ensures
            tc@ == initial_state(),
    {
        let mut available_regs: Vec<u8> = Vec::new();
        // Use all the 64-bit registers we can (R15-R8, RDX, RCX).
        available_regs.push(15);
        available_regs.push(14);
        available_regs.push(13);
        available_regs.push(12);
        available_regs.push(11);
        available_regs.push(10);
        available_regs.push(9);
        available_regs.push(8);
        available_regs.push(2);
        available_regs.push(1);
        let tc = TraceCompiler {
            code: Vec::new(),
            available_regs,
            assigned_regs: HashMap::new(),
            leaves: Vec::new(),
        };
        assert(tc@.available =~= initial_state().available);
        assert(tc@.assigned =~= initial_state().assigned);
        tc
    }

    /// This is a really dumb register allocator, which runs out of
    /// available registers after a handful of locals.
    pub fn local_to_reg(&mut self, l: Local) -> (r: Result<u8, CompileError>)
        ensures
            match (r, spec_local_to_reg(old(self)@, l)) {
                (Ok(reg), Ok((s, sreg))) => final(self)@ == s && reg == sreg,
                (Err(e), Err(se)) => e@ == se,
                _ => false,
            },
    {
        if l.0 == 0 {
            // Local zero is the (implicit) return value, so it makes sense to allocate it to
            // the return register of the underlying calling convention.
            Ok(0)
        } else {
            let known = match self.assigned_regs.get(&l.0) {
                Some(reg) => Some(*reg),
                None => None,
            };
            if let Some(reg) = known {
                Ok(reg)
            } else {
                if let Some(reg) = self.available_regs.pop() {
                    self.assigned_regs.insert(l.0, reg);
                    Ok(reg)
                } else {
                    Err(CompileError::OutOfRegisters)
                }
            }
        }
    }

    pub fn free_register(&mut self, local: &Local)
        ensures
            final(self)@ == spec_free_register(old(self)@, *local),
    {
        if let Some(reg) = self.assigned_regs.remove(&local.0) {
            self.available_regs.push(reg);
        }
        proof {
            let after = spec_free_register(old(self)@, *local);
            assert(self@.assigned =~= after.assigned);
            assert(self@.available =~= after.available);
        }
    }

    /// Move constant `c` of type `usize` into local `a`.
    pub fn mov_local_usize(&mut self, local: Local, cnst: usize) -> (r: Result<(), CompileError>)
        ensures
            stepped(r, final(self)@, spec_mov_local_imm32(old(self)@, local, cnst as i32)),
    {
        let reg = self.local_to_reg(local)?;
        self.code.push(Instr::MovImm32 { dst: reg, imm32: #[verifier::truncate] (cnst as i32) });
        Ok(())
    }

    /// Move constant `c` of type `u8` into local `a`.
    pub fn mov_local_u8(&mut self, local: Local, cnst: u8) -> (r: Result<(), CompileError>)
        ensures
            stepped(r, final(self)@, spec_mov_local_imm32(old(self)@, local, cnst as i32)),
    {
        let reg = self.local_to_reg(local)?;
        self.code.push(Instr::MovImm32 { dst: reg, imm32: cnst as i32 });
        Ok(())
    }

    /// Move local `var2` into local `var1`.
    pub fn mov_local_local(&mut self, l1: Local, l2: Local) -> (r: Result<(), CompileError>)
        ensures
            stepped(r, final(self)@, spec_mov_local_local(old(self)@, l1, l2)),
    {
        let lreg = self.local_to_reg(l1)?;
        let rreg = self.local_to_reg(l2)?;
        self.code.push(Instr::MovReg { dst: lreg, src: rreg });
        Ok(())
    }

    pub fn nop(&mut self)
        ensures
            final(self)@ == emit(old(self)@, Instr::Nop),
    {
        self.code.push(Instr::Nop);
    }

    pub fn c_mov_int(&mut self, local: Local, constant: &ConstantInt) -> (r: Result<
        (),
        CompileError,
    >)
        ensures
            stepped(r, final(self)@, spec_c_mov_int(old(self)@, local, *constant)),
    {
        let reg = self.local_to_reg(local)?;
        let val: i64 = match constant {
            ConstantInt::UnsignedInt(UnsignedInt::U8(i)) => *i as i64,
            ConstantInt::UnsignedInt(UnsignedInt::Usize(i)) => #[verifier::truncate] (*i as i64),
            _ => { return Err(CompileError::Unimplemented("integer constant".to_owned())); },
        };
        self.code.push(Instr::MovImm64 { dst: reg, imm64: val });
        Ok(())
    }

    pub fn c_mov_bool(&mut self, local: Local, b: bool) -> (r: Result<(), CompileError>)
        ensures
            stepped(r, final(self)@, spec_c_mov_bool(old(self)@, local, b)),
    {
        let reg = self.local_to_reg(local)?;
        let val: i64 = if b {
            1
        } else {
            0
        };
        self.code.push(Instr::MovImm64 { dst: reg, imm64: val });
        Ok(())
    }

    fn mov_constant(&mut self, local: Local, c: &Constant) -> (r: Result<(), CompileError>)
        ensures
            stepped(r, final(self)@, spec_mov_constant(old(self)@, local, *c)),
    {
        match c {
            Constant::Int(ci) => self.c_mov_int(local, ci),
            Constant::Bool(b) => self.c_mov_bool(local, *b),
            Constant::Unimplemented => Err(CompileError::Unimplemented("constant".to_owned())),
        }
    }

    pub fn c_enter(&mut self, op: &CallOperand, args: &Vec<Operand>, dest: &Option<Place>, off: u32)
        -> (r: Result<(), CompileError>)
        ensures
            stepped(r, final(self)@, spec_c_enter(old(self)@, *op, args@, *dest, off)),
    {
        // The call that stops tracing is part of the last block in the trace: skip it.
        match op {
            CallOperand::Fn(s) => {
                if str_contains(s.as_str(), "stop_tracing") {
                    return Ok(());
                }
            },
            CallOperand::Unknown => {},
        };
        // Move call arguments into registers.
        let ghost start = self@;
        let mut i: usize = 0;
        while i < args.len()
            invariant
                i <= args.len(),
                start == old(self)@,
                !is_stop_tracing(*op),
                spec_args(start, args@, off, i as nat) == Ok::<TcState, CompileErrorView>(self@),
            decreases args.len() - i,
        {
            proof {
                if spec_args(start, args@, off, (i + 1) as nat) is Err {
                    lemma_args_error_stays(start, args@, off, (i + 1) as nat, args.len() as nat);
                }
            }
            if i >= (u32::MAX - off) as usize {
                return Err(CompileError::Unimplemented("local out of range".to_owned()));
            }
            let arg_idx = Local(i as u32 + 1 + off);
            match &args[i] {
                Operand::Place(p) => self.mov_local_local(arg_idx, p.local)?,
                Operand::Constant(c) => self.mov_constant(arg_idx, c)?,
            }
            i += 1;
        }
        // Remember the return destination.
        let d = match dest {
            Some(p) => Some(p.local),
            None => None,
        };
        self.leaves.push(d);
        Ok(())
    }

    pub fn c_leave(&mut self) -> (r: Result<(), CompileError>)
        ensures
            stepped(r, final(self)@, spec_c_leave(old(self)@)),
    {
        let dest = self.leaves.pop();
        if let Some(d) = dest {
            if let Some(d) = d {
                // When we see a leave statement move whatever's left in RAX into the
                // destination local.
                self.mov_local_local(d, Local(0))?;
            }
        }
        Ok(())
    }

    pub fn statement(&mut self, stmt: &Statement) -> (r: Result<(), CompileError>)
        ensures
            stepped(r, final(self)@, spec_statement(old(self)@, *stmt)),
    {
        match stmt {
            Statement::Assign(l, r) => {
                if l.projection.len() > 0 {
                    return Err(
                        CompileError::Unimplemented("assignment to a projection".to_owned()),
                    );
                }
                match r {
                    Rvalue::Use(Operand::Place(p)) => {
                        if p.projection.len() > 0 {
                            return Err(
                                CompileError::Unimplemented("use of a projection".to_owned()),
                            );
                        }
                        self.mov_local_local(l.local, p.local)?;
                    },
                    Rvalue::Use(Operand::Constant(c)) => self.mov_constant(l.local, c)?,
                    Rvalue::Unimplemented => {
                        return Err(CompileError::Unimplemented("rvalue".to_owned()));
                    },
                };
            },
            Statement::Enter(op, args, dest, off) => self.c_enter(op, args, dest, *off)?,
            Statement::Leave => self.c_leave()?,
            Statement::StorageLive(_) => {},
            Statement::StorageDead(l) => self.free_register(l),
            Statement::Call(_, _, _) => {
                return Err(CompileError::Unimplemented("call".to_owned()));
            },
            Statement::Nop => {},
            Statement::Unimplemented(s) => {
                return Err(CompileError::Unimplemented(s.clone()));
            },
        }
        Ok(())
    }

    pub fn guard(&mut self, _grd: &Guard) -> (r: Result<(), CompileError>)
        ensures
            r is Ok,
            final(self)@ == emit(old(self)@, Instr::Nop),
    {
        self.nop();
        Ok(())
    }

    pub fn ret(&mut self)
        ensures
            final(self)@ == emit(old(self)@, Instr::Ret),
    {
        self.code.push(Instr::Ret);
    }

    /// The instructions that were emitted.
    pub fn finish(self) -> (code: Vec<Instr>)
        ensures
            code@ == self@.code,
    {
        self.code
    }

    /// Compiles a trace to the instructions of its machine code.
    pub fn compile(tt: TirTrace) -> (r: Result<Vec<Instr>, CompileError>)
        ensures
            match (r, spec_compile(tt@)) {
                (Ok(code), Ok(s)) => code@ == s,
                (Err(e), Err(se)) => e@ == se,
                _ => false,
            },
    {
        let mut tc = TraceCompiler::new();
        let mut i: usize = 0;
        let n = tt.len();
        while i < n
            invariant
                i <= n,
                n == tt@.len(),
                spec_ops(initial_state(), tt@, i as nat) == Ok::<TcState, CompileErrorView>(tc@),
            decreases n - i,
        {
            proof {
                if spec_ops(initial_state(), tt@, (i + 1) as nat) is Err {
                    lemma_ops_error_stays(initial_state(), tt@, (i + 1) as nat, n as nat);
                }
            }
            match tt.op(i) {
                TirOp::Statement(st) => tc.statement(st)?,
                TirOp::Guard(g) => tc.guard(g)?,
            };
            i += 1;
        }
        tc.ret();
        Ok(tc.finish())
    }
}

} // verus!
