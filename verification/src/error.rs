use vstd::prelude::*;

verus! {

/// Failure conditions of the machine. Every one of them is fatal at the point
/// of occurrence: the interpreter surfaces it to the caller without mutating
/// any state, and the caller is expected to halt or reset the machine.
#[derive(Clone, Copy, Debug, PartialEq, Eq, Structural)]
pub enum Chip8Error {
    /// A memory address beyond 4095, or a display coordinate outside the
    /// 64x32 grid, was accessed.
    OutOfRange,
    /// A return instruction was executed while the call stack was empty.
    StackUnderflow,
    /// The fetched 16-bit instruction, carried here verbatim, matches no
    /// opcode family.
    UnknownInstruction(u16),
    /// The program image does not fit between the load base address and the
    /// end of memory.
    RomTooLarge,
}

} // verus!
