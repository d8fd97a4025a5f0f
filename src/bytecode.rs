//! The bytecode container: two signature words, a header giving where the
//! code and data sections lie (`code_ptr`, `code_len`, `data_ptr`,
//! `data_len`, in words), then the sections. Words are little-endian.
use vstd::prelude::*;
use crate::layout::{CODE_END, DATA_END, DATA_START, MEMORY_SIZE};
use crate::machine::{
    empty_state, lemma_symbol_words_texts, program_of, program_state, symbol_words, Machine, MState,
};
use crate::mem::{code_words, overwrite, string_words, zeroed};
use crate::op::Op;
use crate::parser::{texts, Parser};

verus! {

/// The two signature words that open every bytecode file.
pub const MAGIC_0: u16 = 0x4F50;
pub const MAGIC_1: u16 = 0x4356;

/// Number of words before the sections: signature and header.
pub const HEADER_LEN: u16 = 6;

/// Why bytecode could not be loaded.
#[derive(Debug, Clone, Copy, PartialEq, Eq, Structural)]
pub enum BytecodeError {
    /// The first two words are not the signature.
    InvalidSignature,
    /// The file is shorter than its header, or a section lies past its end.
    InvalidHeader,
    /// A section does not fit its memory region.
    SectionTooLarge,
}

/// The word at index `i` of little-endian bytes `b`; a missing high byte is zero.
pub open spec fn word_at(b: Seq<u8>, i: int) -> u16 {
    let lo = b[2 * i] as int;
    let hi = if 2 * i + 1 < b.len() { b[2 * i + 1] as int } else { 0 };
    (lo + 256 * hi) as u16
}

/// The words of little-endian bytes: two bytes each, a last odd byte alone.
pub open spec fn words_of(b: Seq<u8>) -> Seq<u16> {
    Seq::new(((b.len() + 1) / 2) as nat, |i: int| word_at(b, i))
}

/// Reads little-endian bytes as words, a last odd byte as a word of its own.
pub fn words_from_bytes(b: &Vec<u8>) -> (r: Vec<u16>)
    ensures
        r@ == words_of(b@),
{
    let mut r: Vec<u16> = Vec::new();
    let mut i: usize = 0;
    while i < b.len() / 2 + b.len() % 2
        invariant
            i <= (b@.len() + 1) / 2,
            r@ == words_of(b@).subrange(0, i as int),
        decreases b@.len() - i,
    {
        let lo = b[2 * i] as u16;
        let hi: u16 = if 2 * i + 1 < b.len() { b[2 * i + 1] as u16 } else { 0 };
        r.push(lo + 256 * hi);
        i += 1;
        assert(r@ =~= words_of(b@).subrange(0, i as int));
    }
    assert(r@ =~= words_of(b@));
    r
}

/// What loading bytecode `w` gives: a fresh machine holding its sections,
/// or the error.
pub open spec fn loaded(w: Seq<u16>) -> Result<MState, BytecodeError> {
    if w.len() < HEADER_LEN {
        Err(BytecodeError::InvalidHeader)
    } else if w[0] != MAGIC_0 || w[1] != MAGIC_1 {
        Err(BytecodeError::InvalidSignature)
    } else if w[2] + w[3] > w.len() || w[4] + w[5] > w.len() {
        Err(BytecodeError::InvalidHeader)
    } else if w[3] > CODE_END || w[5] > DATA_END - DATA_START {
        Err(BytecodeError::SectionTooLarge)
    } else {
        let code = w.subrange(w[2] as int, w[2] + w[3]);
        let data = w.subrange(w[4] as int, w[4] + w[5]);
        Ok(MState {
            mem: overwrite(overwrite(zeroed(MEMORY_SIZE as nat), 0, code), DATA_START as int, data),
            data_top: (DATA_START + w[5]) as u16,
            ..empty_state(None)
        })
    }
}

impl Machine {
    /// Creates a machine from bytecode: its code section at the start of
    /// the code region, its data section at the start of the data region.
    pub fn from_bytecode(w: &Vec<u16>) -> (r: Result<Machine, BytecodeError>)
        ensures
            match r {
                Ok(m) => m.wf() && loaded(w@) == Ok::<_, BytecodeError>(m@),
                Err(e) => loaded(w@) == Err::<MState, _>(e),
            },
    {
        if w.len() < HEADER_LEN as usize {
            return Err(BytecodeError::InvalidHeader);
        }
        if w[0] != MAGIC_0 || w[1] != MAGIC_1 {
            return Err(BytecodeError::InvalidSignature);
        }
        let (code_ptr, code_len, data_ptr, data_len) = (w[2] as usize, w[3] as usize, w[4] as usize, w[5] as usize);
        if code_ptr + code_len > w.len() || data_ptr + data_len > w.len() {
            return Err(BytecodeError::InvalidHeader);
        }
        if code_len > CODE_END as usize || data_len > (DATA_END - DATA_START) as usize {
            return Err(BytecodeError::SectionTooLarge);
        }
        let mut m = Machine::new();
        let code = slice_words(w, code_ptr, code_ptr + code_len);
        let data = slice_words(w, data_ptr, data_ptr + data_len);
        m.mem.write(0, &code);
        m.mem.write(DATA_START, &data);
        m.mem.data_top = DATA_START + data_len as u16;
        Ok(m)
    }
}

/// Returns the words `w[lo..hi]`.
fn slice_words(w: &Vec<u16>, lo: usize, hi: usize) -> (r: Vec<u16>)
    requires
        lo <= hi <= w@.len(),
    ensures
        r@ == w@.subrange(lo as int, hi as int),
{
    let mut r: Vec<u16> = Vec::new();
    let mut i: usize = lo;
    while i < hi
        invariant
            lo <= i <= hi,
            hi <= w@.len(),
            r@ == w@.subrange(lo as int, i as int),
        decreases hi - i,
    {
        r.push(w[i]);
        i += 1;
        assert(r@ =~= w@.subrange(lo as int, i as int));
    }
    r
}

/// The bytecode of a program: signature, header, code section, then data
/// section holding its strings.
pub open spec fn bytecode_of(ops: Seq<Op>, symbols: Seq<String>) -> Seq<u16> {
    let code = code_words(ops);
    let data = symbol_words(symbols);
    seq![MAGIC_0, MAGIC_1, HEADER_LEN, code.len() as u16, (HEADER_LEN + code.len()) as u16,
        data.len() as u16] + code + data
}

/// Writes a program read from source as bytecode. Fails where its code or
/// its strings do not fit their memory regions.
pub fn assemble(p: &Parser) -> (r: Result<Vec<u16>, BytecodeError>)
    ensures
        match r {
            Ok(w) => w@ == bytecode_of(p.ops@, p.symbols@)
                && code_words(p.ops@).len() <= CODE_END
                && symbol_words(p.symbols@).len() <= DATA_END - DATA_START,
            Err(e) => e == BytecodeError::SectionTooLarge && (code_words(p.ops@).len() > CODE_END
                || symbol_words(p.symbols@).len() > DATA_END - DATA_START),
        },
{
    let mut code: Vec<u16> = Vec::new();
    let mut i: usize = 0;
    while i < p.ops.len()
        invariant
            i <= p.ops@.len(),
            code@ == code_words(p.ops@.subrange(0, i as int)),
            code@.len() <= CODE_END,
        decreases p.ops@.len() - i,
    {
        let w = p.ops[i].encode();
        assert(p.ops@.subrange(0, i + 1 as int).drop_last() =~= p.ops@.subrange(0, i as int));
        if w.len() > (CODE_END as usize) - code.len() {
            proof {
                crate::mem::lemma_code_words_prefix(p.ops@, i + 1 as int);
            }
            return Err(BytecodeError::SectionTooLarge);
        }
        let mut j: usize = 0;
        while j < w.len()
            invariant
                j <= w@.len(),
                i < p.ops@.len(),
                code@ == code_words(p.ops@.subrange(0, i as int)) + w@.subrange(0, j as int),
                code_words(p.ops@.subrange(0, i as int)).len() + w@.len() <= CODE_END,
            decreases w@.len() - j,
        {
            code.push(w[j]);
            j += 1;
            assert(code@ =~= code_words(p.ops@.subrange(0, i as int)) + w@.subrange(0, j as int));
        }
        assert(w@.subrange(0, j as int) =~= w@);
        i += 1;
    }
    assert(p.ops@.subrange(0, i as int) =~= p.ops@);
    let mut data: Vec<u16> = Vec::new();
    let mut k: usize = 0;
    while k < p.symbols.len()
        invariant
            k <= p.symbols@.len(),
            data@ == symbol_words(p.symbols@.subrange(0, k as int)),
            data@.len() <= DATA_END - DATA_START,
        decreases p.symbols@.len() - k,
    {
        let bytes = p.symbols[k].as_str().as_bytes();
        assert(p.symbols@.subrange(0, k + 1 as int).drop_last() =~= p.symbols@.subrange(0, k as int));
        assert(string_words(vstd::utf8::encode_utf8(p.symbols@[k as int]@)).len() == 1 + bytes@.len());
        if bytes.len() >= ((DATA_END - DATA_START) as usize) - data.len() {
            proof {
                crate::machine::lemma_symbol_words_prefix(p.symbols@, k + 1 as int);
            }
            return Err(BytecodeError::SectionTooLarge);
        }
        let ghost before = data@;
        data.push(bytes.len() as u16);
        let mut j: usize = 0;
        while j < bytes.len()
            invariant
                j <= bytes@.len(),
                data@ == before + seq![bytes@.len() as u16] + bytes@.subrange(0, j as int).map_values(|b: u8| b as u16),
            decreases bytes@.len() - j,
        {
            data.push(bytes[j] as u16);
            j += 1;
            assert(data@ =~= before + seq![bytes@.len() as u16] + bytes@.subrange(0, j as int).map_values(|b: u8| b as u16));
        }
        assert(bytes@.subrange(0, j as int) =~= bytes@);
        assert(data@ =~= before + string_words(bytes@));
        k += 1;
    }
    assert(p.symbols@.subrange(0, k as int) =~= p.symbols@);
    let n = code.len() as u16;
    let mut w: Vec<u16> = vec![MAGIC_0, MAGIC_1, HEADER_LEN, n, HEADER_LEN + n, data.len() as u16];
    let ghost head = w@;
    let mut q: usize = 0;
    while q < code.len()
        invariant
            q <= code@.len(),
            w@ == head + code@.subrange(0, q as int),
        decreases code@.len() - q,
    {
        w.push(code[q]);
        q += 1;
        assert(w@ =~= head + code@.subrange(0, q as int));
    }
    assert(code@.subrange(0, q as int) =~= code@);
    let ghost mid = w@;
    q = 0;
    while q < data.len()
        invariant
            q <= data@.len(),
            w@ == mid + data@.subrange(0, q as int),
        decreases data@.len() - q,
    {
        w.push(data[q]);
        q += 1;
        assert(w@ =~= mid + data@.subrange(0, q as int));
    }
    assert(data@.subrange(0, q as int) =~= data@);
    Ok(w)
}

/// Bytecode round trip: loading the bytecode of a program gives the same
/// machine as loading the program itself, so the two run alike.
pub proof fn lemma_bytecode_round_trip(ops: Seq<Op>, symbols: Seq<String>)
    requires
        code_words(ops).len() <= CODE_END,
        DATA_START + symbol_words(symbols).len() <= DATA_END,
    ensures
        loaded(bytecode_of(ops, symbols)) == Ok::<_, BytecodeError>(program_state(ops, symbols)),
{
    let code = code_words(ops);
    let data = symbol_words(symbols);
    let w = bytecode_of(ops, symbols);
    assert(w.subrange(6, 6 + code.len() as int) =~= code);
    assert(w.subrange(6 + code.len() as int, 6 + code.len() + data.len() as int) =~= data);
    let z = zeroed(MEMORY_SIZE as nat);
    assert(overwrite(z, 0, code) =~= overwrite(z, 0, code + zeroed((CODE_END - code.len()) as nat)));
}

/// Bytecode round trip from source: the bytecode of a parsed program loads
/// into the same machine that `Machine::from_source` builds from it.
pub proof fn lemma_source_round_trip(ops: Seq<Op>, symbols: Seq<String>)
    requires
        code_words(ops).len() <= CODE_END,
        DATA_START + symbol_words(symbols).len() <= DATA_END,
    ensures
        loaded(bytecode_of(ops, symbols)) == Ok::<_, BytecodeError>(program_of(ops, texts(symbols))),
{
    lemma_bytecode_round_trip(ops, symbols);
    lemma_symbol_words_texts(symbols);
}

} // verus!
