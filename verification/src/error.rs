//! Faults that can terminate an execution.

use vstd::prelude::*;

verus! {

/// The exhaustive set of faults a handler or the interpreter can raise.
#[derive(Debug, Clone, Copy, PartialEq, Eq, Structural)]
pub enum VmError {
    /// A push was attempted on a stack already holding 1024 words.
    StackOverflow,
    /// A pop, peek or swap was attempted without sufficient depth.
    StackUnderflow,
    /// The byte at the program counter names no implemented instruction.
    InvalidOpcode,
    /// A jump targeted an offset outside the valid-jump set.
    InvalidJump,
    /// A popped operand used as a host index exceeds the host's index range.
    UnsupportedOperation,
}

} // verus!
