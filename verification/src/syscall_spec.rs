//! A fixed-shape per-syscall signature sketch: an earlier, simpler cousin of
//! the schema's definitions, kept for callers that want a six-slot view.

use vstd::prelude::*;

verus! {

/// The role of one argument slot.
#[derive(Debug, Clone, Copy, PartialEq, Eq, Structural)]
pub enum ArgKind {
    /// not used in this syscall
    Null,
    /// handle
    Fd,
    /// pointer to process memory
    User,
}

#[derive(Debug, Clone, Copy, PartialEq, Eq, Structural)]
pub struct ArgType {
    pub kind: ArgKind,
}

#[derive(Debug, Clone, Copy)]
pub struct SyscallSpec {
    pub id: u64,
    pub args: [ArgType; 6],
}

} // verus!
