//! Errors of the machine, the source reader and the router.
use vstd::prelude::*;

verus! {

/// An error that stops the execution of one instruction.
#[derive(Debug, Clone, Copy, PartialEq, Eq, Structural)]
pub enum RuntimeError {
    /// A push onto a full stack.
    StackOverflow,
    /// A pop from an empty stack.
    StackUnderflow,
    /// `Div` with a zero divisor on top of the stack.
    DivisionByZero,
    /// A read or write outside memory, or a jump outside the code region.
    InvalidAddress,
    /// Printed bytes that are no valid UTF-8 text.
    InvalidString,
    /// A code word that is no opcode.
    UnknownOpcode,
    /// `run` gave up after its limit of instructions.
    StepLimit,
}

/// An error in program source text, with the line (counted from 1) where it stands.
#[derive(Debug, Clone, Copy, PartialEq, Eq, Structural)]
pub enum ParseError {
    /// A word that is neither a mnemonic nor a label definition.
    UnknownMnemonic { line: usize },
    /// An instruction that lacks one of its arguments.
    MissingArgument { line: usize },
    /// An argument that is neither a number below 65536 nor a known label.
    InvalidArgument { line: usize },
    /// Words left on a line after a complete instruction.
    TrailingInput { line: usize },
    /// A string literal without its closing quote.
    UnterminatedString { line: usize },
    /// A program whose code or strings do not fit their memory regions.
    ProgramTooLarge,
}

/// An error of the router as a whole.
#[derive(Debug, Clone, Copy, PartialEq, Eq, Structural)]
pub enum RouterError {
    /// A round in which no machine could make progress while some still waits.
    Deadlock,
    /// An operation on a machine id that the router does not hold.
    NoMachine(u16),
    /// Source text that could not be read.
    Parse(ParseError),
    /// `run` gave up after its limit of rounds.
    RoundLimit,
}

} // verus!
