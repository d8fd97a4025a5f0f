//! The fixed partition of a machine's memory into regions.
use vstd::prelude::*;

verus! {

/// Number of words in a machine's memory.
pub const MEMORY_SIZE: u16 = 0x4000;

/// Instruction words: `[CODE_START, CODE_END)`.
pub const CODE_START: u16 = 0x0000;
pub const CODE_END: u16 = 0x1000;

/// Interned strings, each a length word followed by its bytes.
pub const DATA_START: u16 = 0x1000;
pub const DATA_END: u16 = 0x2000;

/// The data stack, growing upward from `STACK_START`.
pub const STACK_START: u16 = 0x2000;
pub const STACK_END: u16 = 0x3000;

/// The call stack of return addresses, growing upward from `CALL_STACK_START`.
pub const CALL_STACK_START: u16 = 0x3000;
pub const CALL_STACK_END: u16 = 0x4000;

} // verus!
