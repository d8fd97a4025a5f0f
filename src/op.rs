//! The instruction set and its encoding as code words.
use vstd::prelude::*;

verus! {

/// One instruction. An instruction occupies one code word holding its
/// opcode, followed by one word for each immediate argument.
#[derive(Debug, Clone, Copy, PartialEq, Eq, Structural)]
pub enum Op {
    Eof,
    Noop,
    Halt,
    Jump(u16),
    JumpZero(u16),
    JumpNotZero(u16),
    Call(u16),
    Return,
    Push(u16),
    Pop,
    Dup,
    Swap,
    Over,
    Load(u16),
    Store(u16),
    LoadString(u16),
    Add,
    Sub,
    Mul,
    Div,
    Inc,
    Dec,
    Equal,
    NotEqual,
    LessThan,
    LessThanOrEqual,
    GreaterThan,
    GreaterThanOrEqual,
    Print,
    Send(u16, u16),
    Receive,
    MemoryMap,
}

/// Opcode of `Op::Eof`; a zeroed code word therefore ends a program.
pub const OPCODE_EOF: u16 = 0;
/// Opcode of `Op::Halt`.
pub const OPCODE_HALT: u16 = 2;

impl Op {
    /// The opcode word of an instruction.
    pub open spec fn opcode(self) -> u16 {
        match self {
            Op::Eof => 0,
            Op::Noop => 1,
            Op::Halt => 2,
            Op::Jump(_) => 3,
            Op::JumpZero(_) => 4,
            Op::JumpNotZero(_) => 5,
            Op::Call(_) => 6,
            Op::Return => 7,
            Op::Push(_) => 8,
            Op::Pop => 9,
            Op::Dup => 10,
            Op::Swap => 11,
            Op::Over => 12,
            Op::Load(_) => 13,
            Op::Store(_) => 14,
            Op::LoadString(_) => 15,
            Op::Add => 16,
            Op::Sub => 17,
            Op::Mul => 18,
            Op::Div => 19,
            Op::Inc => 20,
            Op::Dec => 21,
            Op::Equal => 22,
            Op::NotEqual => 23,
            Op::LessThan => 24,
            Op::LessThanOrEqual => 25,
            Op::GreaterThan => 26,
            Op::GreaterThanOrEqual => 27,
            Op::Print => 28,
            Op::Send(_, _) => 29,
            Op::Receive => 30,
            Op::MemoryMap => 31,
        }
    }

    /// The code words of an instruction: its opcode, then its arguments.
    pub open spec fn words(self) -> Seq<u16> {
        match self {
            Op::Jump(a) | Op::JumpZero(a) | Op::JumpNotZero(a) | Op::Call(a) | Op::Push(a)
            | Op::Load(a) | Op::Store(a) | Op::LoadString(a) => seq![self.opcode(), a],
            Op::Send(to, size) => seq![self.opcode(), to, size],
            _ => seq![self.opcode()],
        }
    }

    /// Number of code words an instruction occupies.
    pub open spec fn size(self) -> nat {
        self.words().len()
    }

    /// The instruction that starts with opcode `t`, where `a` and `b` are the
    /// two words that follow it; `None` for a word that is no opcode.
    pub open spec fn from_words(t: u16, a: u16, b: u16) -> Option<Op> {
        if t == 0 { Some(Op::Eof) }
        else if t == 1 { Some(Op::Noop) }
        else if t == 2 { Some(Op::Halt) }
        else if t == 3 { Some(Op::Jump(a)) }
        else if t == 4 { Some(Op::JumpZero(a)) }
        else if t == 5 { Some(Op::JumpNotZero(a)) }
        else if t == 6 { Some(Op::Call(a)) }
        else if t == 7 { Some(Op::Return) }
        else if t == 8 { Some(Op::Push(a)) }
        else if t == 9 { Some(Op::Pop) }
        else if t == 10 { Some(Op::Dup) }
        else if t == 11 { Some(Op::Swap) }
        else if t == 12 { Some(Op::Over) }
        else if t == 13 { Some(Op::Load(a)) }
        else if t == 14 { Some(Op::Store(a)) }
        else if t == 15 { Some(Op::LoadString(a)) }
        else if t == 16 { Some(Op::Add) }
        else if t == 17 { Some(Op::Sub) }
        else if t == 18 { Some(Op::Mul) }
        else if t == 19 { Some(Op::Div) }
        else if t == 20 { Some(Op::Inc) }
        else if t == 21 { Some(Op::Dec) }
        else if t == 22 { Some(Op::Equal) }
        else if t == 23 { Some(Op::NotEqual) }
        else if t == 24 { Some(Op::LessThan) }
        else if t == 25 { Some(Op::LessThanOrEqual) }
        else if t == 26 { Some(Op::GreaterThan) }
        else if t == 27 { Some(Op::GreaterThanOrEqual) }
        else if t == 28 { Some(Op::Print) }
        else if t == 29 { Some(Op::Send(a, b)) }
        else if t == 30 { Some(Op::Receive) }
        else if t == 31 { Some(Op::MemoryMap) }
        else { None }
    }

    /// Number of code words taken by the instruction with opcode `t`
    /// (1 for a word that is no opcode).
    pub open spec fn size_of_opcode(t: u16) -> nat {
        if t == 3 || t == 4 || t == 5 || t == 6 || t == 8 || t == 13 || t == 14 || t == 15 {
            2
        } else if t == 29 {
            3
        } else {
            1
        }
    }

    /// Returns the opcode word of this instruction.
    pub fn code(&self) -> (r: u16)
        ensures
            r == self.opcode(),
    {
        match self {
            Op::Eof => 0,
            Op::Noop => 1,
            Op::Halt => 2,
            Op::Jump(_) => 3,
            Op::JumpZero(_) => 4,
            Op::JumpNotZero(_) => 5,
            Op::Call(_) => 6,
            Op::Return => 7,
            Op::Push(_) => 8,
            Op::Pop => 9,
            Op::Dup => 10,
            Op::Swap => 11,
            Op::Over => 12,
            Op::Load(_) => 13,
            Op::Store(_) => 14,
            Op::LoadString(_) => 15,
            Op::Add => 16,
            Op::Sub => 17,
            Op::Mul => 18,
            Op::Div => 19,
            Op::Inc => 20,
            Op::Dec => 21,
            Op::Equal => 22,
            Op::NotEqual => 23,
            Op::LessThan => 24,
            Op::LessThanOrEqual => 25,
            Op::GreaterThan => 26,
            Op::GreaterThanOrEqual => 27,
            Op::Print => 28,
            Op::Send(_, _) => 29,
            Op::Receive => 30,
            Op::MemoryMap => 31,
        }
    }

    /// Encodes this instruction as code words.
    pub fn encode(&self) -> (r: Vec<u16>)
        ensures
            r@ == self.words(),
    {
        let t = self.code();
        match *self {
            Op::Jump(a) | Op::JumpZero(a) | Op::JumpNotZero(a) | Op::Call(a) | Op::Push(a)
            | Op::Load(a) | Op::Store(a) | Op::LoadString(a) => vec![t, a],
            Op::Send(to, size) => vec![t, to, size],
            _ => vec![t],
        }
    }

    /// Decodes the instruction whose opcode is `t`, given the two words that
    /// follow it.
    pub fn decode(t: u16, a: u16, b: u16) -> (r: Option<Op>)
        ensures
            r == Op::from_words(t, a, b),
    {
        match t {
            0 => Some(Op::Eof),
            1 => Some(Op::Noop),
            2 => Some(Op::Halt),
            3 => Some(Op::Jump(a)),
            4 => Some(Op::JumpZero(a)),
            5 => Some(Op::JumpNotZero(a)),
            6 => Some(Op::Call(a)),
            7 => Some(Op::Return),
            8 => Some(Op::Push(a)),
            9 => Some(Op::Pop),
            10 => Some(Op::Dup),
            11 => Some(Op::Swap),
            12 => Some(Op::Over),
            13 => Some(Op::Load(a)),
            14 => Some(Op::Store(a)),
            15 => Some(Op::LoadString(a)),
            16 => Some(Op::Add),
            17 => Some(Op::Sub),
            18 => Some(Op::Mul),
            19 => Some(Op::Div),
            20 => Some(Op::Inc),
            21 => Some(Op::Dec),
            22 => Some(Op::Equal),
            23 => Some(Op::NotEqual),
            24 => Some(Op::LessThan),
            25 => Some(Op::LessThanOrEqual),
            26 => Some(Op::GreaterThan),
            27 => Some(Op::GreaterThanOrEqual),
            28 => Some(Op::Print),
            29 => Some(Op::Send(a, b)),
            30 => Some(Op::Receive),
            31 => Some(Op::MemoryMap),
            _ => None,
        }
    }

    /// Returns the number of code words taken by the instruction with opcode `t`.
    pub fn width(t: u16) -> (r: u16)
        ensures
            r as nat == Op::size_of_opcode(t),
    {
        if t == 3 || t == 4 || t == 5 || t == 6 || t == 8 || t == 13 || t == 14 || t == 15 {
            2
        } else if t == 29 {
            3
        } else {
            1
        }
    }
}

/// Decoding the words of an instruction gives the instruction back, and its
/// opcode tells how many words it takes.
pub proof fn lemma_decode_encode(op: Op, pad: u16)
    ensures
        Op::from_words(op.words()[0], if op.size() > 1 { op.words()[1] } else { pad },
            if op.size() > 2 { op.words()[2] } else { pad }) == Some(op),
        Op::size_of_opcode(op.opcode()) == op.size(),
{
}

} // verus!
