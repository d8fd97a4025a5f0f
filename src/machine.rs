//! A single machine: its state, and the fetch, decode and execute cycle.
use vstd::prelude::*;
use crate::error::{ParseError, RuntimeError};
use crate::layout::{
    CALL_STACK_END, CALL_STACK_START, CODE_END, DATA_END, DATA_START, MEMORY_SIZE, STACK_END,
    STACK_START,
};
use crate::mem::{
    call_stack, code_words, data_stack, initial_registers, overwrite, zeroed, Memory, Registers,
    StackManager,
};
use crate::message::{Action, Event, EventModel, Message, MessageModel};
use crate::op::{Op, OPCODE_EOF, OPCODE_HALT};
use crate::parser::{parsed, texts, Parser};
use crate::text::{get_str_from_bytes, text_of};

verus! {

/// The mathematical state of a machine.
pub struct MState {
    pub id: Option<u16>,
    pub mem: Seq<u16>,
    pub data_top: u16,
    pub reg: Registers,
    pub events: Seq<EventModel>,
    pub inbox: Seq<MessageModel>,
    pub outbox: Seq<MessageModel>,
    pub expected_receives: u16,
}

/// Index of the highest zero among `m[lo..hi]`, or `lo - 1` where there is none.
pub open spec fn last_zero(m: Seq<u16>, lo: int, hi: int) -> int
    decreases hi - lo,
{
    if hi <= lo {
        lo - 1
    } else if m[hi - 1] == 0 {
        hi - 1
    } else {
        last_zero(m, lo, hi - 1)
    }
}

/// The word that a two-operand instruction leaves, where `a` was on top and
/// `b` below it.
pub open spec fn binary(op: Op, a: u16, b: u16) -> u16 {
    match op {
        Op::Add => a.wrapping_add(b),
        Op::Sub => b.wrapping_sub(a),
        Op::Mul => a.wrapping_mul(b),
        Op::Div => if a == 0 { 0 } else { b / a },
        Op::Equal => if a == b { 1 } else { 0 },
        Op::NotEqual => if a != b { 1 } else { 0 },
        Op::LessThan => if a < b { 1 } else { 0 },
        Op::LessThanOrEqual => if a <= b { 1 } else { 0 },
        Op::GreaterThan => if a > b { 1 } else { 0 },
        Op::GreaterThanOrEqual => if a >= b { 1 } else { 0 },
        _ => 0,
    }
}

/// A code address as a program counter, where it lies in the code region.
pub open spec fn in_code(t: int) -> Result<u16, RuntimeError> {
    if 0 <= t < CODE_END {
        Ok(t as u16)
    } else {
        Err(RuntimeError::InvalidAddress)
    }
}

impl MState {
    /// Memory has its size, and both stack pointers and the program counter
    /// lie within their regions.
    pub open spec fn wf(self) -> bool {
        &&& self.mem.len() == MEMORY_SIZE
        &&& DATA_START <= self.data_top <= DATA_END
        &&& STACK_START <= self.reg.sp <= STACK_END
        &&& CALL_STACK_START <= self.reg.fp <= CALL_STACK_END
        &&& self.reg.pc < CODE_END
    }

    /// The data stack, the bottom first.
    pub open spec fn stack(self) -> Seq<u16> {
        data_stack().contents(self.mem, self.reg)
    }

    /// The call stack, the bottom first.
    pub open spec fn calls(self) -> Seq<u16> {
        call_stack().contents(self.mem, self.reg)
    }

    /// The value `k` places below the top of the data stack, or 0.
    pub open spec fn peek_at(self, k: int) -> u16 {
        data_stack().spec_get(self.mem, self.reg, k)
    }

    pub open spec fn push_on(self, st: StackManager, w: u16) -> Result<MState, RuntimeError> {
        match st.spec_push(self.mem, self.reg, w) {
            Ok((m, r)) => Ok(MState { mem: m, reg: r, ..self }),
            Err(e) => Err(e),
        }
    }

    pub open spec fn pop_from(self, st: StackManager) -> Result<(MState, u16), RuntimeError> {
        match st.spec_pop(self.mem, self.reg) {
            Ok((r, v)) => Ok((MState { reg: r, ..self }, v)),
            Err(e) => Err(e),
        }
    }

    pub open spec fn push(self, w: u16) -> Result<MState, RuntimeError> {
        self.push_on(data_stack(), w)
    }

    pub open spec fn pop(self) -> Result<(MState, u16), RuntimeError> {
        self.pop_from(data_stack())
    }

    /// The state after popping one value and pushing `w`.
    pub open spec fn replace_top(self, w: u16) -> Result<MState, RuntimeError> {
        match self.pop() {
            Ok((s, _)) => s.push(w),
            Err(e) => Err(e),
        }
    }

    /// The state after pushing `ws` in order, as one step.
    pub open spec fn push_words(self, ws: Seq<u16>) -> Result<MState, RuntimeError> {
        if self.reg.sp + ws.len() > STACK_END {
            Err(RuntimeError::StackOverflow)
        } else {
            Ok(MState {
                mem: overwrite(self.mem, self.reg.sp as int, ws),
                reg: Registers { sp: (self.reg.sp + ws.len()) as u16, ..self.reg },
                ..self
            })
        }
    }

    /// The state after a two-operand instruction.
    pub open spec fn apply_two(self, op: Op) -> Result<MState, RuntimeError> {
        match self.pop() {
            Err(e) => Err(e),
            Ok((s1, a)) => match s1.pop() {
                Err(e) => Err(e),
                Ok((s2, b)) => if op == Op::Div && a == 0 {
                    Err(RuntimeError::DivisionByZero)
                } else {
                    s2.push(binary(op, a, b))
                },
            },
        }
    }

    /// The state after `Print`: words are popped down to a zero (popped too)
    /// or the bottom, and their text is emitted.
    pub open spec fn print(self) -> Result<MState, RuntimeError> {
        let z = last_zero(self.mem, STACK_START as int, self.reg.sp as int);
        let words = self.mem.subrange(z + 1, self.reg.sp as int);
        let sp = if z < STACK_START { STACK_START as int } else { z };
        match text_of(words) {
            None => Err(RuntimeError::InvalidString),
            Some(t) => Ok(MState {
                reg: Registers { sp: sp as u16, ..self.reg },
                events: self.events.push(EventModel::Print { text: t }),
                ..self
            }),
        }
    }

    /// The state after `Send(to, n)`: the top `n` words leave the stack and
    /// form the body, in the order they were pushed.
    pub open spec fn send(self, to: u16, n: u16) -> Result<MState, RuntimeError> {
        if n > self.reg.sp - STACK_START {
            Err(RuntimeError::StackUnderflow)
        } else {
            let body = self.mem.subrange(self.reg.sp - n, self.reg.sp as int);
            let s = MState { reg: Registers { sp: (self.reg.sp - n) as u16, ..self.reg }, ..self };
            match self.id {
                None => Ok(s),
                Some(from) => {
                    let msg = MessageModel { from, to, body };
                    Ok(MState {
                        events: s.events.push(EventModel::Send { message: msg }),
                        outbox: s.outbox.push(msg),
                        ..s
                    })
                },
            }
        }
    }

    /// What an instruction does besides moving the program counter.
    pub open spec fn effect(self, op: Op) -> Result<MState, RuntimeError> {
        match op {
            Op::Eof | Op::Noop | Op::Halt | Op::MemoryMap | Op::Jump(_) => Ok(self),
            Op::Push(v) => self.push(v),
            Op::Pop | Op::JumpZero(_) | Op::JumpNotZero(_) => match self.pop() {
                Ok((s, _)) => Ok(s),
                Err(e) => Err(e),
            },
            Op::Load(a) => if a >= MEMORY_SIZE {
                Err(RuntimeError::InvalidAddress)
            } else {
                self.push(self.mem[a as int])
            },
            Op::Store(a) => if a >= MEMORY_SIZE {
                Err(RuntimeError::InvalidAddress)
            } else {
                match self.pop() {
                    Ok((s, v)) => Ok(MState { mem: s.mem.update(a as int, v), ..s }),
                    Err(e) => Err(e),
                }
            },
            Op::Add | Op::Sub | Op::Mul | Op::Div | Op::Equal | Op::NotEqual | Op::LessThan
            | Op::LessThanOrEqual | Op::GreaterThan | Op::GreaterThanOrEqual => self.apply_two(op),
            Op::Inc => self.replace_top(self.peek_at(0).wrapping_add(1)),
            Op::Dec => self.replace_top(self.peek_at(0).wrapping_sub(1)),
            Op::Dup => self.push(self.peek_at(0)),
            Op::Over => self.push(self.peek_at(1)),
            Op::Swap => match self.pop() {
                Err(e) => Err(e),
                Ok((s1, a)) => match s1.pop() {
                    Err(e) => Err(e),
                    Ok((s2, b)) => match s2.push(a) {
                        Err(e) => Err(e),
                        Ok(s3) => s3.push(b),
                    },
                },
            },
            Op::LoadString(a) => match Memory::str_at(self.mem, a as int) {
                None => Err(RuntimeError::InvalidAddress),
                Some(ws) => self.push_words(ws),
            },
            Op::Print => self.print(),
            Op::Call(_) => self.push_on(call_stack(), self.reg.pc),
            Op::Return => match self.pop_from(call_stack()) {
                Ok((s, _)) => Ok(s),
                Err(e) => Err(e),
            },
            Op::Send(to, n) => self.send(to, n),
            Op::Receive => Ok(MState { expected_receives: self.expected_receives.wrapping_add(1), ..self }),
        }
    }

    /// Where the program counter goes after an instruction whose last word
    /// it points at: the jump target, if any, else the next word.
    pub open spec fn target(self, op: Op) -> Result<u16, RuntimeError> {
        let next = self.reg.pc + 1;
        match op {
            Op::Jump(a) | Op::Call(a) => in_code(a as int),
            Op::JumpZero(a) => if self.reg.sp <= STACK_START {
                Err(RuntimeError::StackUnderflow)
            } else if self.peek_at(0) == 0 {
                in_code(a as int)
            } else {
                in_code(next)
            },
            Op::JumpNotZero(a) => if self.reg.sp <= STACK_START {
                Err(RuntimeError::StackUnderflow)
            } else if self.peek_at(0) != 0 {
                in_code(a as int)
            } else {
                in_code(next)
            },
            Op::Return => if self.reg.fp <= CALL_STACK_START {
                Err(RuntimeError::StackUnderflow)
            } else {
                in_code(self.mem[self.reg.fp - 1] + 1)
            },
            _ => in_code(next),
        }
    }

    /// The state after executing `op`, or the error that stops it.
    pub open spec fn exec(self, op: Op) -> Result<MState, RuntimeError> {
        match self.target(op) {
            Err(e) => Err(e),
            Ok(t) => match self.effect(op) {
                Err(e) => Err(e),
                Ok(s) => Ok(MState { reg: Registers { pc: t, ..s.reg }, ..s }),
            },
        }
    }

    /// The instruction at the program counter, if its words decode to one.
    pub open spec fn fetch(self) -> Option<Op> {
        let pc = self.reg.pc as int;
        Op::from_words(self.mem[pc], self.mem[pc + 1], self.mem[pc + 2])
    }

    /// The state after one fetch, decode and execute cycle.
    pub open spec fn tick(self) -> Result<MState, RuntimeError> {
        match self.fetch() {
            None => Err(RuntimeError::UnknownOpcode),
            Some(op) => if self.reg.pc + op.size() - 1 >= CODE_END {
                Err(RuntimeError::InvalidAddress)
            } else {
                MState {
                    reg: Registers { pc: (self.reg.pc + op.size() - 1) as u16, ..self.reg },
                    ..self
                }.exec(op)
            },
        }
    }

    /// Whether the word at the program counter is `Halt` or `Eof`.
    pub open spec fn halted(self) -> bool {
        self.mem[self.reg.pc as int] == OPCODE_HALT || self.mem[self.reg.pc as int] == OPCODE_EOF
    }
}

} // verus!

verus! {

/// Number of instructions `Machine::run` executes before it gives up.
pub const MAX_STEPS: u64 = 10_000_000;

pub open spec fn events_model(v: Seq<Event>) -> Seq<EventModel> {
    v.map_values(|e: Event| e@)
}

pub open spec fn messages_model(v: Seq<Message>) -> Seq<MessageModel> {
    v.map_values(|m: Message| m@)
}

/// The state of a machine that holds nothing: zeroed memory, empty stacks.
pub open spec fn empty_state(id: Option<u16>) -> MState {
    MState {
        id,
        mem: zeroed(MEMORY_SIZE as nat),
        data_top: DATA_START,
        reg: initial_registers(),
        events: Seq::empty(),
        inbox: Seq::empty(),
        outbox: Seq::empty(),
        expected_receives: 0,
    }
}

/// The state after `partial_reset`: registers, stacks and pending receives
/// cleared, code, strings and queues kept.
pub open spec fn partially_reset(s: MState) -> MState {
    MState {
        mem: overwrite(s.mem, STACK_START as int, zeroed((CALL_STACK_END - STACK_START) as nat)),
        reg: initial_registers(),
        expected_receives: 0,
        ..s
    }
}

/// Running from `s` for at most `fuel` instructions, until the word at the
/// program counter is `Halt` or `Eof`.
pub open spec fn run_from(s: MState, fuel: nat) -> Result<MState, RuntimeError>
    decreases fuel,
{
    if s.halted() {
        Ok(s)
    } else if fuel == 0 {
        Err(RuntimeError::StepLimit)
    } else {
        match s.tick() {
            Ok(t) => run_from(t, (fuel - 1) as nat),
            Err(e) => Err(e),
        }
    }
}

/// The state in which running from `s` for at most `fuel` instructions
/// stops: halted, out of fuel, or as it was when an instruction failed.
pub open spec fn run_end(s: MState, fuel: nat) -> MState
    decreases fuel,
{
    if s.halted() || fuel == 0 {
        s
    } else {
        match s.tick() {
            Ok(t) => run_end(t, (fuel - 1) as nat),
            Err(_) => s,
        }
    }
}

/// Runs are deterministic, and the program counter a machine held before
/// `run` does not matter: machines that differ at most in it stop in the same
/// state with the same events, and the same result.
pub proof fn lemma_run_deterministic(a: MState, b: MState, fuel: nat)
    requires
        a == (MState { reg: Registers { pc: a.reg.pc, ..b.reg }, ..b }),
    ensures
        ({
            let sa = MState { reg: Registers { pc: 0, ..a.reg }, ..a };
            let sb = MState { reg: Registers { pc: 0, ..b.reg }, ..b };
            &&& run_from(sa, fuel) == run_from(sb, fuel)
            &&& run_end(sa, fuel) == run_end(sb, fuel)
            &&& run_end(sa, fuel).events == run_end(sb, fuel).events
        }),
{
    assert(MState { reg: Registers { pc: 0, ..a.reg }, ..a } == MState { reg: Registers { pc: 0, ..b.reg }, ..b });
}

/// No instruction consumes or delivers a message: only the router does, so
/// a message sent in a round waits in its inbox past that round. `Receive`
/// only counts one more expected message.
pub proof fn lemma_exec_keeps_inbox(s: MState, op: Op)
    ensures
        s.exec(op) matches Ok(t) ==> t.inbox == s.inbox && t.id == s.id
            && t.expected_receives == if op == Op::Receive {
                s.expected_receives.wrapping_add(1)
            } else {
                s.expected_receives
            },
{
}

/// `Send(to, n)` on a machine with an id appends exactly one message, from
/// that id, to its events and its outbox, with the top `n` data-stack words
/// in the order they were pushed; sends thus leave in the order they run.
pub proof fn lemma_send_appends(s: MState, to: u16, n: u16, from: u16)
    requires
        s.wf(),
        s.id == Some(from),
        n <= s.reg.sp - STACK_START,
        s.reg.pc + 1 < CODE_END,
    ensures
        ({
            let msg = MessageModel { from, to, body: s.stack().subrange(s.stack().len() - n, s.stack().len() as int) };
            s.exec(Op::Send(to, n)) matches Ok(t)
                && t.events == s.events.push(EventModel::Send { message: msg })
                && t.outbox == s.outbox.push(msg)
                && t.reg.sp == s.reg.sp - n
        }),
{
    let body = s.mem.subrange(s.reg.sp - n, s.reg.sp as int);
    assert(s.stack().subrange(s.stack().len() - n, s.stack().len() as int) =~= body);
}

/// A virtual machine: memory, registers, and the queues through which it
/// talks to a router.
#[derive(Debug)]
pub struct Machine {
    /// Addressable identifier of the machine.
    pub id: Option<u16>,
    /// Memory buffer of the machine.
    pub mem: Memory,
    /// Registers of the machine.
    pub reg: Registers,
    /// Events generated by the machine.
    pub events: Vec<Event>,
    /// Messages sent to this machine and not yet delivered.
    pub inbox: Vec<Message>,
    /// Messages sent from this machine.
    pub outbox: Vec<Message>,
    /// Is the machine in debug mode?
    pub is_debug: bool,
    /// How many messages does the machine expect to receive?
    pub expected_receives: u16,
}

impl View for Machine {
    type V = MState;

    open spec fn view(&self) -> MState {
        MState {
            id: self.id,
            mem: self.mem@,
            data_top: self.mem.data_top,
            reg: self.reg,
            events: events_model(self.events@),
            inbox: messages_model(self.inbox@),
            outbox: messages_model(self.outbox@),
            expected_receives: self.expected_receives,
        }
    }
}

/// The opcode at an instruction's first word tells how many words it takes.
pub proof fn lemma_decoded_size(t: u16, a: u16, b: u16)
    requires
        Op::from_words(t, a, b) is Some,
    ensures
        Op::from_words(t, a, b)->Some_0.size() == Op::size_of_opcode(t),
{
}

impl Machine {
    pub open spec fn wf(&self) -> bool {
        self@.wf()
    }

    /// Creates a machine with zeroed memory, empty stacks and no id.
    pub fn new() -> (r: Machine)
        ensures
            r.wf(),
            r@ == empty_state(None),
            !r.is_debug,
    {
        let m = Machine {
            id: None,
            mem: Memory::new(),
            reg: Registers::new(),
            events: Vec::new(),
            inbox: Vec::new(),
            outbox: Vec::new(),
            is_debug: false,
            expected_receives: 0,
        };
        assert(m@.events =~= Seq::empty());
        assert(m@.inbox =~= Seq::empty());
        assert(m@.outbox =~= Seq::empty());
        m
    }

    /// Returns the descriptor of the data stack.
    pub fn stack(&self) -> (r: StackManager)
        ensures
            r == data_stack(),
    {
        StackManager::data()
    }

    /// Returns the descriptor of the call stack.
    pub fn call_stack(&self) -> (r: StackManager)
        ensures
            r == call_stack(),
    {
        StackManager::calls()
    }

    /// Resets the machine completely: memory, registers and all queues.
    pub fn full_reset(&mut self)
        requires
            old(self).wf(),
        ensures
            final(self).wf(),
            final(self)@ == empty_state(old(self).id),
            final(self).is_debug == old(self).is_debug,
    {
        self.partial_reset();
        self.mem.reset();
        self.inbox.clear();
        self.outbox.clear();
        self.events.clear();
        assert(self@.events =~= Seq::empty());
        assert(self@.inbox =~= Seq::empty());
        assert(self@.outbox =~= Seq::empty());
    }

    /// Resets the execution state only: registers, both stacks and the count
    /// of pending receives. Code, strings and queues are kept.
    pub fn partial_reset(&mut self)
        requires
            old(self).wf(),
        ensures
            final(self).wf(),
            final(self)@ == partially_reset(old(self)@),
            final(self).is_debug == old(self).is_debug,
    {
        self.reg.reset();
        self.mem.reset_stacks();
        self.expected_receives = 0;
    }

    /// Creates a machine holding the program `ops`, where it fits the code region.
    pub fn from_ops(ops: Vec<Op>) -> (r: Result<Machine, RuntimeError>)
        ensures
            match r {
                Ok(m) => m.wf() && m@ == (MState {
                    mem: overwrite(zeroed(MEMORY_SIZE as nat), 0, code_words(ops@)
                        + zeroed((CODE_END - code_words(ops@).len()) as nat)),
                    ..empty_state(None)
                }),
                Err(e) => e == RuntimeError::InvalidAddress && code_words(ops@).len() > CODE_END,
            },
    {
        let mut m = Machine::new();
        match m.mem.load_code(ops) {
            Ok(()) => Ok(m),
            Err(e) => Err(e),
        }
    }

    /// Creates a machine holding a program read from source: its code, and
    /// from `DATA_START` on its strings.
    pub fn from_program(p: Parser) -> (r: Machine)
        requires
            code_words(p.ops@).len() <= CODE_END,
            DATA_START + symbol_words(p.symbols@).len() <= DATA_END,
        ensures
            r.wf(),
            r@ == program_state(p.ops@, p.symbols@),
    {
        let mut m = Machine::new();
        let _ = m.mem.load_code(p.ops);
        let _ = m.load_symbols(&p.symbols);
        m
    }

    /// Creates a machine holding the program read from `source`: its code
    /// and, from `DATA_START` on, its strings.
    pub fn from_source(source: &str) -> (r: Result<Machine, ParseError>)
        ensures
            match r {
                Ok(m) => m.wf() && (parsed(source@) matches Ok((ops, ts))
                    && m@ == program_of(ops, ts)),
                Err(e) => parsed(source@) == Err::<(Seq<Op>, Seq<Seq<char>>), _>(e),
            },
    {
        match Parser::parse(source) {
            Ok(p) => {
                proof {
                    lemma_symbol_words_texts(p.symbols@);
                }
                Ok(Machine::from_program(p))
            },
            Err(e) => Err(e),
        }
    }

    /// Stores each string in DATA in turn, as `Memory::add_str` does.
    pub fn load_symbols(&mut self, symbols: &Vec<String>) -> (r: Result<(), RuntimeError>)
        requires
            old(self).wf(),
        ensures
            final(self).wf(),
            r is Ok ==> final(self)@ == (MState {
                mem: overwrite(old(self)@.mem, old(self)@.data_top as int, symbol_words(symbols@)),
                data_top: (old(self)@.data_top + symbol_words(symbols@).len()) as u16,
                ..old(self)@
            }),
            r is Ok <==> old(self)@.data_top + symbol_words(symbols@).len() <= DATA_END,
    {
        let ghost s0 = self@;
        let mut i: usize = 0;
        assert(symbols@.subrange(0, 0) =~= Seq::<String>::empty());
        assert(overwrite(s0.mem, s0.data_top as int, Seq::empty()) =~= s0.mem);
        while i < symbols.len()
            invariant
                i <= symbols@.len(),
                self.wf(),
                s0.wf(),
                s0 == old(self)@,
                s0.data_top + symbol_words(symbols@.subrange(0, i as int)).len() <= DATA_END,
                self@ == (MState {
                    mem: overwrite(s0.mem, s0.data_top as int, symbol_words(symbols@.subrange(0, i as int))),
                    data_top: (s0.data_top + symbol_words(symbols@.subrange(0, i as int)).len()) as u16,
                    ..s0
                }),
            decreases symbols@.len() - i,
        {
            let ghost pre = symbols@.subrange(0, i as int);
            assert(symbols@.subrange(0, i + 1 as int).drop_last() =~= pre);
            let r = self.mem.add_str(symbols[i].as_str());
            match r {
                Ok(_) => {},
                Err(e) => {
                    proof {
                        let w = crate::mem::string_words(vstd::utf8::encode_utf8(symbols@[i as int]@));
                        assert(symbol_words(symbols@.subrange(0, i + 1 as int)) == symbol_words(pre) + w);
                        assert(w.len() == 1 + vstd::utf8::encode_utf8(symbols@[i as int]@).len());
                        assert(s0.data_top + symbol_words(symbols@.subrange(0, i + 1 as int)).len() > DATA_END);
                        lemma_symbol_words_prefix(symbols@, i + 1 as int);
                    }
                    return Err(e);
                },
            }
            i += 1;
            proof {
                let ws = symbol_words(pre);
                let w = crate::mem::string_words(vstd::utf8::encode_utf8(symbols@[i - 1]@));
                assert(symbol_words(symbols@.subrange(0, i as int)) == ws + w);
                assert(overwrite(overwrite(s0.mem, s0.data_top as int, ws), s0.data_top + ws.len(), w)
                    =~= overwrite(s0.mem, s0.data_top as int, ws + w));
            }
        }
        assert(symbols@.subrange(0, i as int) =~= symbols@);
        Ok(())
    }

    /// Performs what `op` does besides moving the program counter; on an
    /// error the machine is left as it was.
    fn apply_effect(&mut self, op: Op) -> (r: Result<(), RuntimeError>)
        requires
            old(self).wf(),
        ensures
            final(self).wf(),
            final(self).is_debug == old(self).is_debug,
            match r {
                Ok(()) => old(self)@.effect(op) == Ok::<_, RuntimeError>(final(self)@),
                Err(e) => old(self)@.effect(op) == Err::<MState, _>(e) && final(self)@ == old(self)@,
            },
    {
        let d = StackManager::data();
        let c = StackManager::calls();
        match op {
            Op::Eof | Op::Noop | Op::Halt | Op::MemoryMap | Op::Jump(_) => Ok(()),
            Op::Push(v) => d.push(&mut self.mem, &mut self.reg, v),
            Op::Pop | Op::JumpZero(_) | Op::JumpNotZero(_) => match d.pop(&self.mem, &mut self.reg) {
                Ok(_) => Ok(()),
                Err(e) => Err(e),
            },
            Op::Load(a) => {
                if a >= MEMORY_SIZE {
                    return Err(RuntimeError::InvalidAddress);
                }
                let v = self.mem.get(a);
                d.push(&mut self.mem, &mut self.reg, v)
            },
            Op::Store(a) => {
                if a >= MEMORY_SIZE {
                    return Err(RuntimeError::InvalidAddress);
                }
                match d.pop(&self.mem, &mut self.reg) {
                    Ok(v) => {
                        self.mem.set(a, v);
                        Ok(())
                    },
                    Err(e) => Err(e),
                }
            },
            Op::Add | Op::Sub | Op::Mul | Op::Div | Op::Equal | Op::NotEqual | Op::LessThan
            | Op::LessThanOrEqual | Op::GreaterThan | Op::GreaterThanOrEqual => {
                if d.depth(&self.reg) < 2 {
                    return Err(RuntimeError::StackUnderflow);
                }
                if op == Op::Div && d.peek(&self.mem, &self.reg) == 0 {
                    return Err(RuntimeError::DivisionByZero);
                }
                let a = match d.pop(&self.mem, &mut self.reg) {
                    Ok(v) => v,
                    Err(e) => return Err(e),
                };
                let b = match d.pop(&self.mem, &mut self.reg) {
                    Ok(v) => v,
                    Err(e) => return Err(e),
                };
                d.push(&mut self.mem, &mut self.reg, compute(op, a, b))
            },
            Op::Inc | Op::Dec => {
                let v = match d.pop(&self.mem, &mut self.reg) {
                    Ok(v) => v,
                    Err(e) => return Err(e),
                };
                let w = if op == Op::Inc { v.wrapping_add(1) } else { v.wrapping_sub(1) };
                d.push(&mut self.mem, &mut self.reg, w)
            },
            Op::Dup => {
                let v = d.peek(&self.mem, &self.reg);
                d.push(&mut self.mem, &mut self.reg, v)
            },
            Op::Over => {
                let v = d.get(&self.mem, &self.reg, 1);
                d.push(&mut self.mem, &mut self.reg, v)
            },
            Op::Swap => {
                if d.depth(&self.reg) < 2 {
                    return Err(RuntimeError::StackUnderflow);
                }
                let a = match d.pop(&self.mem, &mut self.reg) {
                    Ok(v) => v,
                    Err(e) => return Err(e),
                };
                let b = match d.pop(&self.mem, &mut self.reg) {
                    Ok(v) => v,
                    Err(e) => return Err(e),
                };
                match d.push(&mut self.mem, &mut self.reg, a) {
                    Ok(()) => {},
                    Err(e) => return Err(e),
                }
                d.push(&mut self.mem, &mut self.reg, b)
            },
            Op::LoadString(a) => {
                let ws = match self.mem.get_str_bytes(a) {
                    Ok(ws) => ws,
                    Err(e) => return Err(e),
                };
                let sp = self.reg.sp;
                if ws.len() > (STACK_END - sp) as usize {
                    return Err(RuntimeError::StackOverflow);
                }
                self.mem.write(sp, &ws);
                self.reg.sp = sp + ws.len() as u16;
                Ok(())
            },
            Op::Print => self.print(),
            Op::Call(_) => {
                let pc = self.reg.pc;
                c.push(&mut self.mem, &mut self.reg, pc)
            },
            Op::Return => match c.pop(&self.mem, &mut self.reg) {
                Ok(_) => Ok(()),
                Err(e) => Err(e),
            },
            Op::Send(to, n) => self.send(to, n),
            Op::Receive => {
                self.expected_receives = self.expected_receives.wrapping_add(1);
                Ok(())
            },
        }
    }

    /// Pops words down to a zero or the bottom of the stack, and emits their
    /// text as a `Print` event.
    fn print(&mut self) -> (r: Result<(), RuntimeError>)
        requires
            old(self).wf(),
        ensures
            final(self).wf(),
            final(self).is_debug == old(self).is_debug,
            match r {
                Ok(()) => old(self)@.print() == Ok::<_, RuntimeError>(final(self)@),
                Err(e) => old(self)@.print() == Err::<MState, _>(e) && final(self)@ == old(self)@,
            },
    {
        let sp = self.reg.sp;
        let mut i: u16 = sp;
        while i > STACK_START && self.mem.get(i - 1) != 0
            invariant
                self.wf(),
                STACK_START <= i <= sp,
                sp == self.reg.sp,
                last_zero(self@.mem, STACK_START as int, sp as int) == last_zero(
                    self@.mem, STACK_START as int, i as int),
            decreases i,
        {
            i -= 1;
        }
        let words = self.mem.read_range(i, sp);
        match get_str_from_bytes(&words) {
            None => Err(RuntimeError::InvalidString),
            Some(text) => {
                self.reg.sp = if i > STACK_START { i - 1 } else { STACK_START };
                let ghost ev = events_model(self.events@);
                self.events.push(Event::Print { text });
                assert(events_model(self.events@) =~= ev.push(self.events@.last()@));
                Ok(())
            },
        }
    }

    /// Pops the top `n` words into a message body; where the machine has an
    /// id, emits the message as a `Send` event and keeps it in the outbox.
    fn send(&mut self, to: u16, n: u16) -> (r: Result<(), RuntimeError>)
        requires
            old(self).wf(),
        ensures
            final(self).wf(),
            final(self).is_debug == old(self).is_debug,
            match r {
                Ok(()) => old(self)@.send(to, n) == Ok::<_, RuntimeError>(final(self)@),
                Err(e) => old(self)@.send(to, n) == Err::<MState, _>(e) && final(self)@ == old(self)@,
            },
    {
        let sp = self.reg.sp;
        if n > sp - STACK_START {
            return Err(RuntimeError::StackUnderflow);
        }
        let body = self.mem.read_range(sp - n, sp);
        self.reg.sp = sp - n;
        match self.id {
            None => {},
            Some(from) => {
                let message = Message { from, to, action: Action::Data { body } };
                let ghost ev = events_model(self.events@);
                let ghost ob = messages_model(self.outbox@);
                self.outbox.push(message.duplicate());
                self.events.push(Event::Send { message });
                assert(events_model(self.events@) =~= ev.push(self.events@.last()@));
                assert(messages_model(self.outbox@) =~= ob.push(self.outbox@.last()@));
            },
        }
        Ok(())
    }

    /// Executes `op` with the program counter at its last word, then moves
    /// the program counter to the jump target, if `op` sets one, or to the
    /// next word. On an error the machine is left as it was.
    pub fn exec_op(&mut self, op: Op) -> (r: Result<(), RuntimeError>)
        requires
            old(self).wf(),
        ensures
            final(self).wf(),
            final(self).is_debug == old(self).is_debug,
            match r {
                Ok(()) => old(self)@.exec(op) == Ok::<_, RuntimeError>(final(self)@),
                Err(e) => old(self)@.exec(op) == Err::<MState, _>(e) && final(self)@ == old(self)@,
            },
    {
        let t = match self.jump_target(op) {
            Ok(t) => t,
            Err(e) => return Err(e),
        };
        match self.apply_effect(op) {
            Ok(()) => {},
            Err(e) => return Err(e),
        }
        self.reg.pc = t;
        Ok(())
    }

    /// Fetches, decodes and executes the instruction at the program counter.
    /// On an error the machine is left as it was.
    pub fn tick(&mut self) -> (r: Result<(), RuntimeError>)
        requires
            old(self).wf(),
        ensures
            final(self).wf(),
            final(self).is_debug == old(self).is_debug,
            match r {
                Ok(()) => old(self)@.tick() == Ok::<_, RuntimeError>(final(self)@),
                Err(e) => old(self)@.tick() == Err::<MState, _>(e) && final(self)@ == old(self)@,
            },
    {
        let pc = self.reg.pc;
        let t = self.mem.get(pc);
        let a = self.mem.get(pc + 1);
        let b = self.mem.get(pc + 2);
        let op = match Op::decode(t, a, b) {
            Some(op) => op,
            None => return Err(RuntimeError::UnknownOpcode),
        };
        proof {
            lemma_decoded_size(t, a, b);
        }
        let w = Op::width(t);
        if pc as u32 + w as u32 - 1 >= CODE_END as u32 {
            return Err(RuntimeError::InvalidAddress);
        }
        self.reg.pc = pc + w - 1;
        match self.exec_op(op) {
            Ok(()) => Ok(()),
            Err(e) => {
                self.reg.pc = pc;
                Err(e)
            },
        }
    }

    /// Whether the word at the program counter is `Halt` or `Eof`.
    pub fn should_halt(&self) -> (r: bool)
        requires
            self.wf(),
        ensures
            r == self@.halted(),
    {
        let t = self.mem.get(self.reg.pc);
        t == OPCODE_HALT || t == OPCODE_EOF
    }

    /// Runs from address 0 until the word at the program counter is `Halt`
    /// or `Eof`, for at most `MAX_STEPS` instructions.
    pub fn run(&mut self) -> (r: Result<(), RuntimeError>)
        requires
            old(self).wf(),
        ensures
            final(self).wf(),
            ({
                let start = MState { reg: Registers { pc: 0, ..old(self)@.reg }, ..old(self)@ };
                &&& final(self)@ == run_end(start, MAX_STEPS as nat)
                &&& match r {
                    Ok(()) => run_from(start, MAX_STEPS as nat) == Ok::<_, RuntimeError>(final(self)@),
                    Err(e) => run_from(start, MAX_STEPS as nat) == Err::<MState, _>(e),
                }
            }),
    {
        self.reg.pc = 0;
        let ghost start = self@;
        let mut fuel: u64 = MAX_STEPS;
        while !self.should_halt()
            invariant
                self.wf(),
                run_from(start, MAX_STEPS as nat) == run_from(self@, fuel as nat),
                run_end(start, MAX_STEPS as nat) == run_end(self@, fuel as nat),
                start == (MState { reg: Registers { pc: 0, ..old(self)@.reg }, ..old(self)@ }),
            decreases fuel,
        {
            if fuel == 0 {
                return Err(RuntimeError::StepLimit);
            }
            match self.tick() {
                Ok(()) => {},
                Err(e) => return Err(e),
            }
            fuel -= 1;
        }
        Ok(())
    }

    /// Returns the address of the next instruction after `op`, whose last
    /// word the program counter points at.
    fn jump_target(&self, op: Op) -> (r: Result<u16, RuntimeError>)
        requires
            self.wf(),
        ensures
            r == self@.target(op),
    {
        let d = StackManager::data();
        let next = self.reg.pc + 1;
        let t: u32 = match op {
            Op::Jump(a) | Op::Call(a) => a as u32,
            Op::JumpZero(a) => {
                if self.reg.sp <= STACK_START {
                    return Err(RuntimeError::StackUnderflow);
                }
                if d.peek(&self.mem, &self.reg) == 0 { a as u32 } else { next as u32 }
            },
            Op::JumpNotZero(a) => {
                if self.reg.sp <= STACK_START {
                    return Err(RuntimeError::StackUnderflow);
                }
                if d.peek(&self.mem, &self.reg) != 0 { a as u32 } else { next as u32 }
            },
            Op::Return => {
                if self.reg.fp <= CALL_STACK_START {
                    return Err(RuntimeError::StackUnderflow);
                }
                self.mem.get(self.reg.fp - 1) as u32 + 1
            },
            _ => next as u32,
        };
        if t < CODE_END as u32 {
            Ok(t as u16)
        } else {
            Err(RuntimeError::InvalidAddress)
        }
    }
}

/// Computes what a two-operand instruction leaves, `a` having been on top.
fn compute(op: Op, a: u16, b: u16) -> (r: u16)
    requires
        op == Op::Div ==> a != 0,
    ensures
        r == binary(op, a, b),
{
    match op {
        Op::Add => a.wrapping_add(b),
        Op::Sub => b.wrapping_sub(a),
        Op::Mul => a.wrapping_mul(b),
        Op::Div => b / a,
        Op::Equal => if a == b { 1 } else { 0 },
        Op::NotEqual => if a != b { 1 } else { 0 },
        Op::LessThan => if a < b { 1 } else { 0 },
        Op::LessThanOrEqual => if a <= b { 1 } else { 0 },
        Op::GreaterThan => if a > b { 1 } else { 0 },
        Op::GreaterThanOrEqual => if a >= b { 1 } else { 0 },
        _ => 0,
    }
}

/// A fresh machine holding the program `ops` and the strings `symbols`.
pub open spec fn program_state(ops: Seq<Op>, symbols: Seq<String>) -> MState {
    MState {
        mem: overwrite(
            overwrite(zeroed(MEMORY_SIZE as nat), 0, code_words(ops)
                + zeroed((CODE_END - code_words(ops).len()) as nat)),
            DATA_START as int,
            symbol_words(symbols),
        ),
        data_top: (DATA_START + symbol_words(symbols).len()) as u16,
        ..empty_state(None)
    }
}

/// The words that storing strings of the given texts takes.
pub open spec fn text_words(ts: Seq<Seq<char>>) -> Seq<u16>
    decreases ts.len(),
{
    if ts.len() == 0 {
        Seq::empty()
    } else {
        text_words(ts.drop_last()) + crate::mem::string_words(vstd::utf8::encode_utf8(ts.last()))
    }
}

/// A fresh machine holding the program `ops` and strings of the texts `ts`.
pub open spec fn program_of(ops: Seq<Op>, ts: Seq<Seq<char>>) -> MState {
    MState {
        mem: overwrite(
            overwrite(zeroed(MEMORY_SIZE as nat), 0, code_words(ops)
                + zeroed((CODE_END - code_words(ops).len()) as nat)),
            DATA_START as int,
            text_words(ts),
        ),
        data_top: (DATA_START + text_words(ts).len()) as u16,
        ..empty_state(None)
    }
}

/// The stored words of strings depend on their texts alone.
pub proof fn lemma_symbol_words_texts(symbols: Seq<String>)
    ensures
        symbol_words(symbols) == text_words(texts(symbols)),
    decreases symbols.len(),
{
    if symbols.len() > 0 {
        lemma_symbol_words_texts(symbols.drop_last());
        assert(texts(symbols).drop_last() =~= texts(symbols.drop_last()));
    }
}

/// The words that loading `symbols` stores: each string's length word and bytes.
pub open spec fn symbol_words(symbols: Seq<String>) -> Seq<u16>
    decreases symbols.len(),
{
    if symbols.len() == 0 {
        Seq::empty()
    } else {
        symbol_words(symbols.drop_last())
            + crate::mem::string_words(vstd::utf8::encode_utf8(symbols.last()@))
    }
}

/// The words of a prefix of the symbols are no more than those of all of them.
pub proof fn lemma_symbol_words_prefix(symbols: Seq<String>, k: int)
    requires
        0 <= k <= symbols.len(),
    ensures
        symbol_words(symbols.subrange(0, k)).len() <= symbol_words(symbols).len(),
    decreases symbols.len(),
{
    if k < symbols.len() {
        assert(symbols.drop_last().subrange(0, k) =~= symbols.subrange(0, k));
        lemma_symbol_words_prefix(symbols.drop_last(), k);
    } else {
        assert(symbols.subrange(0, k) =~= symbols);
    }
}

} // verus!

verus! {

/// `Call(a)` pushes the address of its last word onto the call stack and
/// moves to `a`; whatever runs in between, a `Return` made with the call
/// stack as the call left it pops that address and resumes at the word
/// after the call, with the call stack back at its depth before the call.
pub proof fn lemma_call_return(s: MState, a: u16, t: MState)
    requires
        s.wf(),
        t.wf(),
        a < CODE_END,
        s.reg.fp < CALL_STACK_END,
        s.reg.pc + 1 < CODE_END,
        t.calls() == s.calls().push(s.reg.pc),
    ensures
        s.exec(Op::Call(a)) matches Ok(s1) && s1.calls() == s.calls().push(s.reg.pc)
            && s1.reg.pc == a && s1.stack() == s.stack(),
        t.exec(Op::Return) matches Ok(t1) && t1.calls() == s.calls()
            && t1.reg.pc == s.reg.pc + 1 && t1.reg.fp == s.reg.fp,
{
    let s1 = s.exec(Op::Call(a))->Ok_0;
    assert(s1.calls() =~= s.calls().push(s.reg.pc));
    assert(s1.stack() =~= s.stack());
    assert(t.reg.fp == s.reg.fp + 1);
    assert(t.mem[t.reg.fp - 1] == t.calls().last());
    let t1 = t.exec(Op::Return)->Ok_0;
    assert(t1.calls() =~= t.calls().drop_last());
    assert(t.calls().drop_last() =~= s.calls());
}

} // verus!

verus! {

/// The fetch, decode and execute cycle, over the state `MState`.
pub trait Execute: View<V = MState> + Sized {
    /// Executes `op` with the program counter at its last word.
    fn exec_op(&mut self, op: Op) -> (r: Result<(), RuntimeError>)
        requires
            old(self)@.wf(),
        ensures
            final(self)@.wf(),
            match r {
                Ok(()) => old(self)@.exec(op) == Ok::<_, RuntimeError>(final(self)@),
                Err(e) => old(self)@.exec(op) == Err::<MState, _>(e) && final(self)@ == old(self)@,
            };

    /// Executes the instruction at the program counter.
    fn tick(&mut self) -> (r: Result<(), RuntimeError>)
        requires
            old(self)@.wf(),
        ensures
            final(self)@.wf(),
            match r {
                Ok(()) => old(self)@.tick() == Ok::<_, RuntimeError>(final(self)@),
                Err(e) => old(self)@.tick() == Err::<MState, _>(e) && final(self)@ == old(self)@,
            };

    /// Runs from address 0 until the machine halts.
    fn run(&mut self) -> (r: Result<(), RuntimeError>)
        requires
            old(self)@.wf(),
        ensures
            final(self)@.wf(),
            ({
                let start = MState { reg: Registers { pc: 0, ..old(self)@.reg }, ..old(self)@ };
                &&& final(self)@ == run_end(start, MAX_STEPS as nat)
                &&& match r {
                    Ok(()) => run_from(start, MAX_STEPS as nat) == Ok::<_, RuntimeError>(final(self)@),
                    Err(e) => run_from(start, MAX_STEPS as nat) == Err::<MState, _>(e),
                }
            });

    /// Whether the word at the program counter is `Halt` or `Eof`.
    fn should_halt(&self) -> (r: bool)
        requires
            self@.wf(),
        ensures
            r == self@.halted();
}

impl Execute for Machine {
    fn exec_op(&mut self, op: Op) -> (r: Result<(), RuntimeError>) {
        Machine::exec_op(self, op)
    }

    fn tick(&mut self) -> (r: Result<(), RuntimeError>) {
        Machine::tick(self)
    }

    fn run(&mut self) -> (r: Result<(), RuntimeError>) {
        Machine::run(self)
    }

    fn should_halt(&self) -> (r: bool) {
        Machine::should_halt(self)
    }
}

} // verus!
