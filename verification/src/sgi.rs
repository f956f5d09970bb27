//! The values of the stopgap interpreter, which gets execution back to
//! the control point by interpreting AOT IR, and what it decides on them.

use std::collections::HashMap;
use vstd::prelude::*;

verus! {

/// Stopgap interpreter values.
#[derive(Debug, Clone, Copy, PartialEq, Eq, Structural)]
pub enum SGValue {
    U32(u32),
    U64(u64),
}

impl SGValue {
    /// The value as a number.
    pub open spec fn number(self) -> int {
        match self {
            SGValue::U32(v) => v as int,
            SGValue::U64(v) => v as int,
        }
    }

    /// Whether a branch on this value takes its first successor: it does
    /// where the value is 1, and takes its second successor otherwise.
    pub fn takes_branch(&self) -> (taken: bool)
        ensures
            taken == (self.number() == 1),
    {
        match self {
            SGValue::U32(v) => *v == 1,
            SGValue::U64(v) => *v == 1,
        }
    }

    /// The successor that a branch on this value goes to.
    pub fn successor(&self) -> (index: u32)
        ensures
            index == if self.number() == 1 {
                0u32
            } else {
                1u32
            },
    {
        if self.takes_branch() {
            0
        } else {
            1
        }
    }

    /// The exit code that the interpreted program ends with when it
    /// returns this value from its first frame: the value's low 32 bits.
    pub fn exit_code(&self) -> (code: i32)
        ensures
            code == match *self {
                SGValue::U32(v) => v as i32,
                SGValue::U64(v) => v as i32,
            },
    {
        match self {
            SGValue::U32(v) => #[verifier::truncate] (*v as i32),
            SGValue::U64(v) => #[verifier::truncate] (*v as i32),
        }
    }
}

/// The value of an integer constant of the IR that is `width` bits wide
/// and reads `val` when extended with zeros. Only constants of 32 and of
/// 64 bits have a value.
pub fn const_to_sgvalue(width: u32, val: u64) -> (r: Option<SGValue>)
    ensures
        r == if width == 32 {
            Some(SGValue::U32(val as u32))
        } else if width == 64 {
            Some(SGValue::U64(val))
        } else {
            None
        },
{
    if width == 32 {
        Some(SGValue::U32(#[verifier::truncate] (val as u32)))
    } else if width == 64 {
        Some(SGValue::U64(val))
    } else {
        None
    }
}

/// A frame holding live variables, each under the handle of the IR value
/// that defines it.
pub struct Frame {
    vars: HashMap<u64, SGValue>,
}

impl View for Frame {
    type V = Map<u64, SGValue>;

    closed spec fn view(&self) -> Map<u64, SGValue> {
        self.vars@
    }
}

impl Frame {
    pub fn new() -> (frame: Frame)
        ensures
            frame@ == Map::<u64, SGValue>::empty(),
    {
        Frame { vars: HashMap::new() }
    }

    /// Get the value of the variable `key` in this frame.
    pub fn get(&self, key: u64) -> (val: Option<SGValue>)
        ensures
            val == if self@.contains_key(key) {
                Some(self@[key])
            } else {
                None
            },
    {
        match self.vars.get(&key) {
            Some(v) => Some(*v),
            None => None,
        }
    }

    /// Insert new variable into this frame.
    pub fn add(&mut self, key: u64, val: SGValue)
        ensures
            final(self)@ == old(self)@.insert(key, val),
    {
        self.vars.insert(key, val);
    }
}

} // verus!
