//! The errors of the compiler and of the machine.

use vstd::prelude::*;

verus! {

/// Why a compilation was given up.
#[derive(Clone, Copy, Debug, PartialEq, Eq, Structural)]
pub enum CompileError {
    /// No class has the name of the entry class.
    UnresolvedEntry,
    /// Following the parents of a class leads back to a class already met.
    CyclicChain,
    /// A jump within a chain spans more than 15 classes.
    JumpTooFar,
    /// A chain calls more than 31 other chains.
    CoroutineOverflow,
    /// The value of an opcode field is not in the range 0 to 31.
    ImmediateOutOfRange,
}

/// Why a program was stopped.
#[derive(Clone, Copy, Debug, PartialEq, Eq, Structural)]
pub enum VmError {
    /// A system call with a code that the machine does not know.
    InvalidSyscall(u8),
    /// A line of input that is not an integer.
    MalformedInput,
}

} // verus!
