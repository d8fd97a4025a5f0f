//! A small stack-based virtual machine whose programs are flat sequences of
//! 16-bit words, and a cooperative router that runs several machines side by
//! side and carries messages between them.
pub mod bytecode;
pub mod error;
pub mod layout;
pub mod machine;
pub mod mem;
pub mod message;
pub mod op;
pub mod parser;
pub mod router;
pub mod text;

pub use layout::{
    CALL_STACK_END, CALL_STACK_START, CODE_END, CODE_START, DATA_END, DATA_START, MEMORY_SIZE,
    STACK_END, STACK_START,
};
pub use error::{ParseError, RouterError, RuntimeError};
pub use message::{Action, Event, EventModel, Message, MessageModel};
pub use machine::{Execute, Machine, MState};
pub use router::{MachineStatus, RState, Router};
pub use mem::{Memory, Register, Registers, StackManager};
pub use op::Op;
