//! The trace IR that the trace compiler takes: a flat list of statements
//! and guards.

use vstd::prelude::*;

verus! {

/// A local variable of the traced code. Local 0 holds the return value.
#[derive(Debug, Clone, Copy, PartialEq, Eq, Hash, Structural)]
pub struct Local(pub u32);

/// One step from a place into the value that it holds.
#[derive(Debug, Clone, Copy, PartialEq, Eq, Structural)]
pub enum Projection {
    Field(u32),
    Unimplemented,
}

/// A local, or a part of the value that a local holds.
#[derive(Debug)]
pub struct Place {
    pub local: Local,
    pub projection: Vec<Projection>,
}

#[derive(Debug, Clone, Copy, PartialEq, Eq, Structural)]
pub enum UnsignedInt {
    U8(u8),
    U16(u16),
    U32(u32),
    U64(u64),
    Usize(usize),
}

#[derive(Debug, Clone, Copy, PartialEq, Eq, Structural)]
pub enum SignedInt {
    I8(i8),
    I16(i16),
    I32(i32),
    I64(i64),
    Isize(isize),
}

#[derive(Debug, Clone, Copy, PartialEq, Eq, Structural)]
pub enum ConstantInt {
    UnsignedInt(UnsignedInt),
    SignedInt(SignedInt),
}

#[derive(Debug, Clone, Copy, PartialEq, Eq, Structural)]
pub enum Constant {
    Int(ConstantInt),
    Bool(bool),
    Unimplemented,
}

#[derive(Debug)]
pub enum Operand {
    Place(Place),
    Constant(Constant),
}

#[derive(Debug)]
pub enum Rvalue {
    Use(Operand),
    Unimplemented,
}

/// What a call calls.
#[derive(Debug)]
pub enum CallOperand {
    /// The function of this symbol name.
    Fn(String),
    Unknown,
}

#[derive(Debug)]
pub enum Statement {
    /// Do nothing.
    Nop,
    /// Stores the value into the place.
    Assign(Place, Rvalue),
    /// Marks the entry of an inlined function call: the callee, the
    /// arguments, the place for the result and the number by which the
    /// callee's locals are renamed.
    Enter(CallOperand, Vec<Operand>, Option<Place>, u32),
    /// Marks the exit of an inlined function call.
    Leave,
    /// Marks a local variable live.
    StorageLive(Local),
    /// Marks a local variable dead.
    StorageDead(Local),
    /// A call to a function for which there is no IR.
    Call(CallOperand, Vec<Operand>, Option<Place>),
    /// Any unimplemented lowering maps to this variant. The string says
    /// what was not lowered.
    Unimplemented(String),
}

/// A check that the traced code took the path that the trace records.
#[derive(Debug, Clone, Copy, PartialEq, Eq, Structural)]
pub struct Guard {
    /// The local that is tested.
    pub val: Local,
}

#[derive(Debug)]
pub enum TirOp {
    Statement(Statement),
    Guard(Guard),
}

/// A trace of IR operations.
#[derive(Debug)]
pub struct TirTrace {
    ops: Vec<TirOp>,
}

impl View for TirTrace {
    type V = Seq<TirOp>;

    closed spec fn view(&self) -> Seq<TirOp> {
        self.ops@
    }
}

impl TirTrace {
    pub fn new(ops: Vec<TirOp>) -> (tt: TirTrace)
        ensures
            tt@ == ops@,
    {
        TirTrace { ops }
    }

    /// Return the length of the trace measure in operations.
    pub fn len(&self) -> (n: usize)
        ensures
            n == self@.len(),
    {
        self.ops.len()
    }

    /// Return the TIR operation at index `idx` in the trace.
    pub fn op(&self, idx: usize) -> (op: &TirOp)
        requires
            idx < self@.len(),
        ensures
            *op == self@[idx as int],
    {
        &self.ops[idx]
    }
}

} // verus!
