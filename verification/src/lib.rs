//! Runtime core of a meta-tracing JIT: stackmap parsing, block mapping,
//! the per-location state machine and the deoptimisation decisions.

pub mod blockmap;
pub mod buildflags;
pub mod compile;
pub mod deopt;
pub mod location;
pub mod mapper;
pub mod sgi;
pub mod smp;
pub mod stackmap;
pub mod tir;
pub mod trace;
pub mod tracecompiler;
