//! The ways in which loading or running a module can fail.

use vstd::prelude::*;

verus! {

/// Where an instruction that the machine cannot run was met.
#[derive(Debug, Copy, Clone, PartialEq, Eq, Structural)]
pub struct InvalidInstructionCtx {
    /// Instruction byte
    pub inst: u8,
    /// Function id
    pub fn_id: u32,
    /// Instruction offset
    pub inst_off: u64,
}

/// A failure of the machine. `ControlReachesEnd(0)` is how the entry function
/// ends normally; every other value aborts the run.
#[derive(Debug, Copy, Clone, PartialEq, Eq, Structural)]
pub enum Error {
    InvalidInstruction(InvalidInstructionCtx),
    StackOverflow,
    StackUnderflow,
    InvalidLocalIndex(u32),
    InvalidArgIndex(u32),
    InvalidGlobalIndex(u32),
    InvalidAddress(u64),
    /// A stack slot out of range: the slot, and its distance from the frame base.
    InvalidStackOffset(u64, i64),
    InvalidFnId(u32),
    /// No function carries the name held by the global with this index.
    UnknownFunction(u32),
    InvalidInstructionOffset(usize),
    DivZero,
    ArithmeticErr,
    AllocZero,
    /// An alignment that is no power of two.
    AllocLayoutError,
    InvalidDeallocation,
    OutOfMemory,
    UnalignedAccess(u64),
    /// The instruction pointer ran past the last instruction of this function.
    ControlReachesEnd(usize),
    NoEntryPoint,
    ParseError,
    /// The input ended where a byte was asked for.
    IoError,
    Halt,
}

pub type Result<T> = core::result::Result<T, Error>;

} // verus!
