//! Registers, memory, and the stack and string views over them.
use vstd::prelude::*;
use vstd::string::StringSliceAdditionalSpecFns;
use crate::error::RuntimeError;
use crate::op::Op;
use crate::layout::{
    CALL_STACK_END, CALL_STACK_START, CODE_END, DATA_END, DATA_START, MEMORY_SIZE, STACK_END, STACK_START,
};

verus! {

/// A named register.
#[derive(Debug, Clone, Copy, PartialEq, Eq, Structural)]
pub enum Register {
    /// Program counter: code address of the instruction being run.
    PC,
    /// Data-stack pointer: the next free slot of the data stack.
    SP,
    /// Call-stack pointer: the next free slot of the call stack.
    FP,
}

/// The register file of a machine.
#[derive(Debug, Clone, Copy, PartialEq, Eq, Structural)]
pub struct Registers {
    pub pc: u16,
    pub sp: u16,
    pub fp: u16,
}

/// The registers of a machine that has not run yet: both stacks empty.
pub open spec fn initial_registers() -> Registers {
    Registers { pc: 0, sp: STACK_START, fp: CALL_STACK_START }
}

impl Registers {
    pub open spec fn spec_get(self, r: Register) -> u16 {
        match r {
            Register::PC => self.pc,
            Register::SP => self.sp,
            Register::FP => self.fp,
        }
    }

    pub open spec fn spec_set(self, r: Register, v: u16) -> Registers {
        match r {
            Register::PC => Registers { pc: v, ..self },
            Register::SP => Registers { sp: v, ..self },
            Register::FP => Registers { fp: v, ..self },
        }
    }

    /// Registers with the program counter at 0 and both stacks empty.
    pub fn new() -> (r: Registers)
        ensures
            r == initial_registers(),
    {
        Registers { pc: 0, sp: STACK_START, fp: CALL_STACK_START }
    }

    pub fn get(&self, r: Register) -> (v: u16)
        ensures
            v == self.spec_get(r),
    {
        match r {
            Register::PC => self.pc,
            Register::SP => self.sp,
            Register::FP => self.fp,
        }
    }

    pub fn set(&mut self, r: Register, v: u16)
        ensures
            *final(self) == old(self).spec_set(r, v),
    {
        match r {
            Register::PC => self.pc = v,
            Register::SP => self.sp = v,
            Register::FP => self.fp = v,
        }
    }

    /// Puts every register back to its initial value.
    pub fn reset(&mut self)
        ensures
            *final(self) == initial_registers(),
    {
        *self = Registers::new();
    }
}

/// The words of a fresh memory: all zero.
pub open spec fn zeroed(n: nat) -> Seq<u16> {
    Seq::new(n, |i: int| 0u16)
}

/// `m` with the words from `at` on replaced by `ws`.
pub open spec fn overwrite(m: Seq<u16>, at: int, ws: Seq<u16>) -> Seq<u16> {
    m.subrange(0, at) + ws + m.subrange(at + ws.len(), m.len() as int)
}

/// The stored form of a string: its length, then one word per byte.
pub open spec fn string_words(bytes: Seq<u8>) -> Seq<u16> {
    seq![bytes.len() as u16] + bytes.map_values(|b: u8| b as u16)
}

/// The code words of a program: the words of each instruction in turn.
pub open spec fn code_words(ops: Seq<Op>) -> Seq<u16>
    decreases ops.len(),
{
    if ops.len() == 0 {
        Seq::empty()
    } else {
        code_words(ops.drop_last()) + ops.last().words()
    }
}

/// A machine's memory: a fixed array of words, and the first free word of DATA.
#[derive(Debug)]
pub struct Memory {
    pub cells: Vec<u16>,
    pub data_top: u16,
}

impl View for Memory {
    type V = Seq<u16>;

    open spec fn view(&self) -> Seq<u16> {
        self.cells@
    }
}

impl Memory {
    pub open spec fn wf(&self) -> bool {
        &&& self@.len() == MEMORY_SIZE
        &&& DATA_START <= self.data_top <= DATA_END
    }

    /// A memory whose words are all zero.
    pub fn new() -> (r: Memory)
        ensures
            r@ == zeroed(MEMORY_SIZE as nat),
            r.data_top == DATA_START,
            r.wf(),
    {
        let mut cells: Vec<u16> = Vec::new();
        let mut i: u16 = 0;
        while i < MEMORY_SIZE
            invariant
                i <= MEMORY_SIZE,
                cells@ == zeroed(i as nat),
            decreases MEMORY_SIZE - i,
        {
            cells.push(0);
            i += 1;
            assert(cells@ =~= zeroed(i as nat));
        }
        Memory { cells, data_top: DATA_START }
    }

    /// Returns the word at `addr`.
    pub fn get(&self, addr: u16) -> (v: u16)
        requires
            (addr as int) < self@.len(),
        ensures
            v == self@[addr as int],
    {
        self.cells[addr as usize]
    }

    /// Writes `v` at `addr`.
    pub fn set(&mut self, addr: u16, v: u16)
        requires
            (addr as int) < old(self)@.len(),
        ensures
            final(self)@ == old(self)@.update(addr as int, v),
            final(self).data_top == old(self).data_top,
    {
        self.cells.set(addr as usize, v);
    }

    /// Returns the words from `lo` up to `hi`.
    pub fn read_range(&self, lo: u16, hi: u16) -> (r: Vec<u16>)
        requires
            lo <= hi,
            hi as int <= self@.len(),
        ensures
            r@ == self@.subrange(lo as int, hi as int),
    {
        let mut r: Vec<u16> = Vec::new();
        let mut i: u16 = lo;
        while i < hi
            invariant
                lo <= i <= hi,
                hi as int <= self@.len(),
                r@ == self@.subrange(lo as int, i as int),
            decreases hi - i,
        {
            r.push(self.cells[i as usize]);
            i += 1;
            assert(r@ =~= self@.subrange(lo as int, i as int));
        }
        r
    }

    /// Writes `ws` from `at` on.
    pub fn write(&mut self, at: u16, ws: &Vec<u16>)
        requires
            old(self)@.len() == MEMORY_SIZE,
            at as int + ws@.len() <= old(self)@.len(),
        ensures
            final(self)@ == overwrite(old(self)@, at as int, ws@),
            final(self).data_top == old(self).data_top,
    {
        let ghost m0 = self@;
        let mut i: usize = 0;
        while i < ws.len()
            invariant
                i <= ws@.len(),
                at as int + ws@.len() <= m0.len(),
                m0.len() == MEMORY_SIZE,
                self@.len() == m0.len(),
                self.data_top == old(self).data_top,
                m0 == old(self)@,
                forall|k: int| 0 <= k < m0.len() ==> #[trigger] self@[k] == (
                    if at as int <= k < at as int + i { ws@[k - at as int] } else { m0[k] }),
            decreases ws@.len() - i,
        {
            self.cells.set(at as usize + i, ws[i]);
            i += 1;
        }
        assert(self@ =~= overwrite(m0, at as int, ws@));
    }

    /// Sets the words from `lo` up to `hi` to zero.
    pub fn clear(&mut self, lo: u16, hi: u16)
        requires
            lo <= hi,
            hi as int <= old(self)@.len(),
        ensures
            final(self)@ == overwrite(old(self)@, lo as int, zeroed((hi - lo) as nat)),
            final(self).data_top == old(self).data_top,
    {
        let ghost m0 = self@;
        let mut i: u16 = lo;
        while i < hi
            invariant
                lo <= i <= hi,
                hi as int <= m0.len(),
                self@.len() == m0.len(),
                self.data_top == old(self).data_top,
                m0 == old(self)@,
                forall|k: int| 0 <= k < m0.len() ==> #[trigger] self@[k] == (
                    if lo as int <= k < i as int { 0u16 } else { m0[k] }),
            decreases hi - i,
        {
            self.cells.set(i as usize, 0);
            i += 1;
        }
        assert(self@ =~= overwrite(m0, lo as int, zeroed((hi - lo) as nat)));
    }

    /// Zeroes every word and forgets every string.
    pub fn reset(&mut self)
        requires
            old(self).wf(),
        ensures
            final(self)@ == zeroed(MEMORY_SIZE as nat),
            final(self).data_top == DATA_START,
            final(self).wf(),
    {
        self.clear(0, MEMORY_SIZE);
        self.data_top = DATA_START;
        assert(self@ =~= zeroed(MEMORY_SIZE as nat));
    }

    /// Zeroes both stack regions, keeping code and strings.
    pub fn reset_stacks(&mut self)
        requires
            old(self).wf(),
        ensures
            final(self)@ == overwrite(old(self)@, STACK_START as int,
                zeroed((CALL_STACK_END - STACK_START) as nat)),
            final(self).data_top == old(self).data_top,
            final(self).wf(),
    {
        self.clear(STACK_START, CALL_STACK_END);
    }

    /// Stores a string in DATA: a length word, then one word per byte of its
    /// UTF-8 form. Returns the address of the length word.
    pub fn add_str(&mut self, s: &str) -> (r: Result<u16, RuntimeError>)
        requires
            old(self).wf(),
        ensures
            final(self).wf(),
            match r {
                Ok(addr) => {
                    &&& old(self).data_top + 1 + s.spec_bytes().len() <= DATA_END
                    &&& addr == old(self).data_top
                    &&& final(self)@ == overwrite(old(self)@, addr as int, string_words(s.spec_bytes()))
                    &&& final(self).data_top == addr + 1 + s.spec_bytes().len()
                },
                Err(e) => {
                    &&& e == RuntimeError::InvalidAddress
                    &&& old(self).data_top + 1 + s.spec_bytes().len() > DATA_END
                    &&& *final(self) == *old(self)
                },
            },
    {
        let bytes = s.as_bytes();
        let at = self.data_top;
        if bytes.len() >= (DATA_END - at) as usize {
            return Err(RuntimeError::InvalidAddress);
        }
        let mut ws: Vec<u16> = Vec::new();
        ws.push(bytes.len() as u16);
        let mut i: usize = 0;
        while i < bytes.len()
            invariant
                i <= bytes@.len(),
                bytes@ == s.spec_bytes(),
                bytes@.len() < 0x10000,
                ws@ == seq![bytes@.len() as u16] + bytes@.subrange(0, i as int).map_values(|b: u8| b as u16),
            decreases bytes@.len() - i,
        {
            ws.push(bytes[i] as u16);
            i += 1;
            assert(bytes@.subrange(0, i as int) =~= bytes@.subrange(0, i - 1 as int).push(bytes@[i - 1]));
            assert(ws@ =~= seq![bytes@.len() as u16] + bytes@.subrange(0, i as int).map_values(|b: u8| b as u16));
        }
        assert(bytes@.subrange(0, i as int) =~= bytes@);
        self.write(at, &ws);
        self.data_top = at + 1 + bytes.len() as u16;
        Ok(at)
    }

    /// Loads a program: the code region becomes its code words followed by
    /// zeros, which read as `Eof`. Fails when the program does not fit.
    pub fn load_code(&mut self, ops: Vec<Op>) -> (r: Result<(), RuntimeError>)
        requires
            old(self).wf(),
        ensures
            final(self).wf(),
            final(self).data_top == old(self).data_top,
            match r {
                Ok(()) => {
                    &&& code_words(ops@).len() <= CODE_END
                    &&& final(self)@ == overwrite(old(self)@, 0, code_words(ops@)
                        + zeroed((CODE_END - code_words(ops@).len()) as nat))
                },
                Err(e) => {
                    &&& e == RuntimeError::InvalidAddress
                    &&& code_words(ops@).len() > CODE_END
                    &&& final(self)@ == old(self)@
                },
            },
    {
        let mut ws: Vec<u16> = Vec::new();
        let mut i: usize = 0;
        while i < ops.len()
            invariant
                i <= ops@.len(),
                self.wf(),
                self@ == old(self)@,
                self.data_top == old(self).data_top,
                ws@ == code_words(ops@.subrange(0, i as int)),
                ws@.len() <= CODE_END,
            decreases ops@.len() - i,
        {
            let w = ops[i].encode();
            assert(ops@.subrange(0, i + 1 as int).drop_last() =~= ops@.subrange(0, i as int));
            if w.len() > (CODE_END as usize) - ws.len() {
                proof {
                    lemma_code_words_prefix(ops@, i + 1 as int);
                }
                return Err(RuntimeError::InvalidAddress);
            }
            let mut j: usize = 0;
            while j < w.len()
                invariant
                    j <= w@.len(),
                    i < ops@.len(),
                    ws@ == code_words(ops@.subrange(0, i as int)) + w@.subrange(0, j as int),
                    ws@.len() <= CODE_END,
                    code_words(ops@.subrange(0, i as int)).len() + w@.len() <= CODE_END,
                decreases w@.len() - j,
            {
                ws.push(w[j]);
                j += 1;
                assert(ws@ =~= code_words(ops@.subrange(0, i as int)) + w@.subrange(0, j as int));
            }
            i += 1;
            assert(w@.subrange(0, j as int) =~= w@);
        }
        assert(ops@.subrange(0, i as int) =~= ops@);
        let n = ws.len() as u16;
        let mut k: u16 = n;
        while k < CODE_END
            invariant
                n <= k <= CODE_END,
                ws@ == code_words(ops@) + zeroed((k - n) as nat),
            decreases CODE_END - k,
        {
            ws.push(0);
            k += 1;
            assert(ws@ =~= code_words(ops@) + zeroed((k - n) as nat));
        }
        self.write(0, &ws);
        Ok(())
    }

    /// The words of the string stored at `addr`, where it lies within memory.
    pub open spec fn str_at(m: Seq<u16>, addr: int) -> Option<Seq<u16>> {
        if addr < m.len() && addr + 1 + m[addr] <= m.len() {
            Some(m.subrange(addr + 1, addr + 1 + m[addr]))
        } else {
            None
        }
    }

    /// Returns the bytes of the string stored at `addr`: the word there gives
    /// their number, and they follow it.
    pub fn get_str_bytes(&self, addr: u16) -> (r: Result<Vec<u16>, RuntimeError>)
        requires
            self.wf(),
        ensures
            match r {
                Ok(ws) => Memory::str_at(self@, addr as int) == Some(ws@),
                Err(e) => e == RuntimeError::InvalidAddress
                    && Memory::str_at(self@, addr as int) is None,
            },
    {
        if addr >= MEMORY_SIZE {
            return Err(RuntimeError::InvalidAddress);
        }
        let len = self.cells[addr as usize];
        if len as u32 + 1 + addr as u32 > MEMORY_SIZE as u32 {
            return Err(RuntimeError::InvalidAddress);
        }
        let start = addr as usize + 1;
        let mut ws: Vec<u16> = Vec::new();
        let mut i: usize = 0;
        while i < len as usize
            invariant
                i <= len,
                start + len <= self@.len(),
                self.wf(),
                ws@ == self@.subrange(start as int, start + i),
            decreases len - i,
        {
            ws.push(self.cells[start + i]);
            i += 1;
            assert(ws@ =~= self@.subrange(start as int, start + i));
        }
        Ok(ws)
    }

    /// The first `n` words of the data stack, the highest first, with a zero
    /// for each slot at or above `sp`.
    pub open spec fn stack_window(m: Seq<u16>, sp: u16, n: nat) -> Seq<u16> {
        Seq::new(n, |i: int| {
            let k = n - 1 - i;
            if STACK_START + k < sp { m[STACK_START + k] } else { 0u16 }
        })
    }

    /// Returns the first `n` words of the data stack region, the highest
    /// first, where a slot that holds no live value reads as zero.
    pub fn read_stack(&self, sp: u16, n: u16) -> (r: Vec<u16>)
        requires
            self.wf(),
            STACK_START <= sp <= STACK_END,
            n <= STACK_END - STACK_START,
        ensures
            r@ == Memory::stack_window(self@, sp, n as nat),
    {
        let mut r: Vec<u16> = Vec::new();
        let mut i: u16 = 0;
        while i < n
            invariant
                i <= n,
                n <= STACK_END - STACK_START,
                self.wf(),
                r@ == Memory::stack_window(self@, sp, n as nat).subrange(0, i as int),
            decreases n - i,
        {
            let k = n - 1 - i;
            let v = if STACK_START + k < sp { self.cells[(STACK_START + k) as usize] } else { 0 };
            r.push(v);
            i += 1;
            assert(r@ =~= Memory::stack_window(self@, sp, n as nat).subrange(0, i as int));
        }
        assert(r@ =~= Memory::stack_window(self@, sp, n as nat));
        r
    }
}

/// The code words of a prefix of a program are a prefix of its code words.
pub proof fn lemma_code_words_prefix(ops: Seq<Op>, k: int)
    requires
        0 <= k <= ops.len(),
    ensures
        code_words(ops.subrange(0, k)).len() <= code_words(ops).len(),
    decreases ops.len(),
{
    if k < ops.len() {
        assert(ops.drop_last().subrange(0, k) =~= ops.subrange(0, k));
        lemma_code_words_prefix(ops.drop_last(), k);
    } else {
        assert(ops.subrange(0, k) =~= ops);
    }
}

/// A stack over memory: the register that points at its next free slot, and
/// the bounds `[min, max]` of that pointer.
#[derive(Debug, Clone, Copy, PartialEq, Eq, Structural)]
pub struct StackManager {
    pub sp: Register,
    pub min: u16,
    pub max: u16,
}

/// The data stack.
pub open spec fn data_stack() -> StackManager {
    StackManager { sp: Register::SP, min: STACK_START, max: STACK_END }
}

/// The call stack.
pub open spec fn call_stack() -> StackManager {
    StackManager { sp: Register::FP, min: CALL_STACK_START, max: CALL_STACK_END }
}

impl StackManager {
    /// The descriptor of the data stack.
    pub fn data() -> (r: StackManager)
        ensures
            r == data_stack(),
    {
        StackManager { sp: Register::SP, min: STACK_START, max: STACK_END }
    }

    /// The descriptor of the call stack.
    pub fn calls() -> (r: StackManager)
        ensures
            r == call_stack(),
    {
        StackManager { sp: Register::FP, min: CALL_STACK_START, max: CALL_STACK_END }
    }

    pub open spec fn ptr(self, reg: Registers) -> u16 {
        reg.spec_get(self.sp)
    }

    pub open spec fn wf_on(self, m: Seq<u16>, reg: Registers) -> bool {
        &&& self.min <= self.ptr(reg) <= self.max
        &&& self.max as int <= m.len()
    }

    /// The values on the stack, the bottom first.
    pub open spec fn contents(self, m: Seq<u16>, reg: Registers) -> Seq<u16> {
        m.subrange(self.min as int, self.ptr(reg) as int)
    }

    /// Memory and registers after pushing `w`.
    pub open spec fn spec_push(self, m: Seq<u16>, reg: Registers, w: u16)
        -> Result<(Seq<u16>, Registers), RuntimeError>
    {
        let p = self.ptr(reg);
        if p >= self.max {
            Err(RuntimeError::StackOverflow)
        } else {
            Ok((m.update(p as int, w), reg.spec_set(self.sp, (p + 1) as u16)))
        }
    }

    /// Registers after a pop, and the value popped.
    pub open spec fn spec_pop(self, m: Seq<u16>, reg: Registers) -> Result<(Registers, u16), RuntimeError> {
        let p = self.ptr(reg);
        if p <= self.min {
            Err(RuntimeError::StackUnderflow)
        } else {
            Ok((reg.spec_set(self.sp, (p - 1) as u16), m[p - 1]))
        }
    }

    /// The value `k` places below the top, or 0 where there is none.
    pub open spec fn spec_get(self, m: Seq<u16>, reg: Registers, k: int) -> u16 {
        if 0 <= k < self.ptr(reg) - self.min {
            m[self.ptr(reg) - 1 - k]
        } else {
            0
        }
    }

    /// Pushes `w`; fails with `StackOverflow` when the stack is full.
    pub fn push(&self, mem: &mut Memory, reg: &mut Registers, w: u16) -> (r: Result<(), RuntimeError>)
        requires
            self.wf_on(old(mem)@, *old(reg)),
        ensures
            final(mem).data_top == old(mem).data_top,
            match r {
                Ok(()) => self.spec_push(old(mem)@, *old(reg), w) == Ok::<_, RuntimeError>((final(mem)@, *final(reg))),
                Err(e) => self.spec_push(old(mem)@, *old(reg), w) == Err::<(Seq<u16>, Registers), _>(e)
                    && final(mem)@ == old(mem)@ && *final(reg) == *old(reg),
            },
    {
        let p = reg.get(self.sp);
        if p >= self.max {
            return Err(RuntimeError::StackOverflow);
        }
        mem.set(p, w);
        reg.set(self.sp, p + 1);
        Ok(())
    }

    /// Pops the top value; fails with `StackUnderflow` when the stack is empty.
    pub fn pop(&self, mem: &Memory, reg: &mut Registers) -> (r: Result<u16, RuntimeError>)
        requires
            self.wf_on(mem@, *old(reg)),
        ensures
            match r {
                Ok(v) => self.spec_pop(mem@, *old(reg)) == Ok::<_, RuntimeError>((*final(reg), v)),
                Err(e) => self.spec_pop(mem@, *old(reg)) == Err::<(Registers, u16), _>(e)
                    && *final(reg) == *old(reg),
            },
    {
        let p = reg.get(self.sp);
        if p <= self.min {
            return Err(RuntimeError::StackUnderflow);
        }
        reg.set(self.sp, p - 1);
        Ok(mem.get(p - 1))
    }

    /// Returns the value `k` places below the top, or 0 where there is none.
    pub fn get(&self, mem: &Memory, reg: &Registers, k: u16) -> (r: u16)
        requires
            self.wf_on(mem@, *reg),
        ensures
            r == self.spec_get(mem@, *reg, k as int),
    {
        let p = reg.get(self.sp);
        if k < p - self.min {
            mem.get(p - 1 - k)
        } else {
            0
        }
    }

    /// Returns the top value, or 0 when the stack is empty.
    pub fn peek(&self, mem: &Memory, reg: &Registers) -> (r: u16)
        requires
            self.wf_on(mem@, *reg),
        ensures
            r == self.spec_get(mem@, *reg, 0),
    {
        self.get(mem, reg, 0)
    }

    /// Returns how many values the stack holds.
    pub fn depth(&self, reg: &Registers) -> (r: u16)
        requires
            self.min <= self.ptr(*reg),
        ensures
            r == self.ptr(*reg) - self.min,
    {
        reg.get(self.sp) - self.min
    }
}

} // verus!
