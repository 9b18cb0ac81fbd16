//! Fatal conditions that stop the fetch-decode-execute loop.

use vstd::prelude::*;

verus! {

/// A fatal condition raised while stepping the machine. None of these is
/// recoverable: a program that triggers one is malformed or unsupported and
/// the caller should stop stepping.
#[derive(Debug, Clone, Copy, PartialEq, Eq, Structural)]
pub enum Error {
    /// The fetched word matches no opcode pattern; carries the raw word.
    Opcode(u16),
    /// A return was executed with an empty call stack.
    StackUnderflow,
    /// An instruction addressed memory beyond its 4096-byte end; carries the
    /// base address (the program counter or the index register) of the
    /// offending access.
    AddressOutOfRange(u16),
}

} // verus!
