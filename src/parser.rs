//! Reading program source text: one instruction per statement, statements
//! separated by line breaks or `;`, words by blanks. A word ending in `:`
//! defines a label at the address of the next instruction; an argument is a
//! decimal number, a `0x` hexadecimal number or a label; a statement that is
//! a string literal in double quotes stores the string in DATA and emits
//! `LoadString` of its address.
use vstd::prelude::*;
use vstd::string::{StrSliceExecFns, StringExecFns};
use vstd::utf8::encode_utf8;
use crate::error::ParseError;
use crate::layout::{CODE_END, DATA_END, DATA_START};
use crate::machine::symbol_words;
use crate::mem::code_words;
use crate::op::Op;

verus! {

/// The value of a digit in base 10 or 16.
pub open spec fn digit_value(c: char, base: int) -> Option<int> {
    if '0' <= c && c <= '9' {
        Some(c as int - '0' as int)
    } else if base == 16 && 'a' <= c && c <= 'f' {
        Some(c as int - 'a' as int + 10)
    } else if base == 16 && 'A' <= c && c <= 'F' {
        Some(c as int - 'A' as int + 10)
    } else {
        None
    }
}

/// The value of a string of digits in `base`.
pub open spec fn digits_value(s: Seq<char>, base: int) -> Option<int>
    decreases s.len(),
{
    if s.len() == 0 {
        Some(0)
    } else {
        match (digits_value(s.drop_last(), base), digit_value(s.last(), base)) {
            (Some(v), Some(d)) => Some(v * base + d),
            _ => None,
        }
    }
}

/// The number a word spells: decimal digits, or `0x` and hexadecimal digits.
pub open spec fn number_value(s: Seq<char>) -> Option<int> {
    if s.len() > 2 && s[0] == '0' && (s[1] == 'x' || s[1] == 'X') {
        digits_value(s.subrange(2, s.len() as int), 16)
    } else if s.len() > 0 {
        digits_value(s, 10)
    } else {
        None
    }
}

/// A value of digits is no less than that of any prefix of them.
pub proof fn lemma_digits_monotone(s: Seq<char>, base: int, k: int)
    requires
        base == 10 || base == 16,
        0 <= k <= s.len(),
        digits_value(s, base) is Some,
    ensures
        digits_value(s.subrange(0, k), base) is Some,
        digits_value(s.subrange(0, k), base)->Some_0 <= digits_value(s, base)->Some_0,
        digits_value(s.subrange(0, k), base)->Some_0 >= 0,
    decreases s.len(),
{
    if k == s.len() {
        assert(s.subrange(0, k) =~= s);
        if s.len() > 0 {
            lemma_digits_monotone(s.drop_last(), base, 0);
            assert(s.drop_last().subrange(0, 0) =~= s.subrange(0, 0));
            lemma_digits_monotone(s.drop_last(), base, s.len() - 1);
            assert(s.drop_last().subrange(0, s.len() - 1) =~= s.drop_last());
        }
    } else {
        lemma_digits_monotone(s.drop_last(), base, k);
        assert(s.drop_last().subrange(0, k) =~= s.subrange(0, k));
        lemma_digits_monotone(s.drop_last(), base, s.len() - 1);
        assert(s.drop_last().subrange(0, s.len() - 1) =~= s.drop_last());
        let v = digits_value(s.drop_last(), base)->Some_0;
        assert(v * base >= v) by (nonlinear_arith)
            requires v >= 0, base >= 1;
    }
}

/// Returns the value of the digits `w[from..]` in `base`, where it is below 65536.
fn parse_digits(w: &Vec<char>, from: usize, base: u32) -> (r: Option<u16>)
    requires
        base == 10 || base == 16,
        from <= w@.len(),
    ensures
        match r {
            Some(v) => digits_value(w@.subrange(from as int, w@.len() as int), base as int) == Some(v as int),
            None => match digits_value(w@.subrange(from as int, w@.len() as int), base as int) {
                Some(v) => v >= 0x10000,
                None => true,
            },
        },
{
    let ghost s = w@.subrange(from as int, w@.len() as int);
    let mut v: u32 = 0;
    let mut i: usize = from;
    assert(s.subrange(0, 0) =~= Seq::<char>::empty());
    while i < w.len()
        invariant
            from <= i <= w@.len(),
            s == w@.subrange(from as int, w@.len() as int),
            base == 10 || base == 16,
            v < 0x10000,
            digits_value(s.subrange(0, i - from), base as int) == Some(v as int),
        decreases w@.len() - i,
    {
        let c = w[i];
        let d: u32 = if '0' <= c && c <= '9' {
            (c as u32) - ('0' as u32)
        } else if base == 16 && 'a' <= c && c <= 'f' {
            (c as u32) - ('a' as u32) + 10
        } else if base == 16 && 'A' <= c && c <= 'F' {
            (c as u32) - ('A' as u32) + 10
        } else {
            proof {
                assert(s.subrange(0, i - from + 1).drop_last() =~= s.subrange(0, i - from));
                if digits_value(s, base as int) is Some {
                    lemma_digits_monotone(s, base as int, i - from + 1);
                }
            }
            return None;
        };
        assert(s.subrange(0, i - from + 1).drop_last() =~= s.subrange(0, i - from));
        assert(s.subrange(0, i - from + 1).last() == c);
        let next: u32 = v * base + d;
        if next >= 0x10000 {
            proof {
                if digits_value(s, base as int) is Some {
                    lemma_digits_monotone(s, base as int, i - from + 1);
                }
            }
            return None;
        }
        v = next;
        i += 1;
    }
    assert(s.subrange(0, i - from) =~= s);
    Some(v as u16)
}

/// Returns the number a word spells, where it is below 65536.
pub fn parse_number(w: &Vec<char>) -> (r: Option<u16>)
    ensures
        match r {
            Some(v) => number_value(w@) == Some(v as int),
            None => match number_value(w@) {
                Some(v) => v >= 0x10000,
                None => true,
            },
        },
{
    if w.len() > 2 && w[0] == '0' && (w[1] == 'x' || w[1] == 'X') {
        parse_digits(w, 2, 16)
    } else if w.len() > 0 {
        let r = parse_digits(w, 0, 10);
        assert(w@.subrange(0, w@.len() as int) =~= w@);
        r
    } else {
        None
    }
}

/// A program read from source: its instructions and the strings it stores.
#[derive(Debug)]
pub struct Parser {
    pub ops: Vec<Op>,
    pub symbols: Vec<String>,
}

/// One statement of source text: its line, its words and its string
/// literal, as ranges of characters.
pub struct Statement {
    pub line: usize,
    pub words: Vec<(usize, usize)>,
    pub literal: Option<(usize, usize)>,
}

/// The mathematical value of a statement.
pub struct StatementModel {
    pub line: usize,
    pub words: Seq<(usize, usize)>,
    pub literal: Option<(usize, usize)>,
}

impl View for Statement {
    type V = StatementModel;

    open spec fn view(&self) -> StatementModel {
        StatementModel { line: self.line, words: self.words@, literal: self.literal }
    }
}

pub open spec fn statements_model(v: Seq<Statement>) -> Seq<StatementModel> {
    v.map_values(|s: Statement| s@)
}

/// Whether `c` separates words.
pub open spec fn blank(c: char) -> bool {
    c == ' ' || c == '\t' || c == '\r'
}

/// Whether `c` ends a word.
pub open spec fn delimiter(c: char) -> bool {
    blank(c) || c == '\n' || c == ';' || c == '"'
}

/// The state of the scanner that splits source into statements: the
/// statements so far, the words and literal of the current one, its line,
/// and where an open word or string literal started.
pub struct ScanState {
    pub out: Seq<StatementModel>,
    pub words: Seq<(usize, usize)>,
    pub literal: Option<(usize, usize)>,
    pub line: usize,
    pub word_start: Option<usize>,
    pub lit_start: Option<usize>,
}

pub open spec fn scan_start() -> ScanState {
    ScanState { out: Seq::empty(), words: Seq::empty(), literal: None, line: 1, word_start: None, lit_start: None }
}

pub open spec fn next_line(line: usize) -> usize {
    if line == usize::MAX { line } else { (line + 1) as usize }
}

/// The scanner after character `i`.
pub open spec fn scan_char(src: Seq<char>, i: int, s: ScanState) -> Result<ScanState, ParseError> {
    let c = src[i];
    match s.lit_start {
        Some(ls) => if c == '"' {
            Ok(ScanState { literal: Some((ls, i as usize)), lit_start: None, ..s })
        } else if c == '\n' {
            Err(ParseError::UnterminatedString { line: s.line })
        } else {
            Ok(s)
        },
        None => {
            let s1 = if delimiter(c) && s.word_start is Some {
                ScanState { words: s.words.push((s.word_start->Some_0, i as usize)), word_start: None, ..s }
            } else {
                s
            };
            if c == '\n' || c == ';' {
                Ok(ScanState {
                    out: s1.out.push(StatementModel { line: s1.line, words: s1.words, literal: s1.literal }),
                    words: Seq::empty(),
                    literal: None,
                    line: if c == '\n' { next_line(s1.line) } else { s1.line },
                    ..s1
                })
            } else if blank(c) {
                Ok(s1)
            } else if c == '"' {
                if s1.literal is Some {
                    Err(ParseError::UnterminatedString { line: s1.line })
                } else {
                    Ok(ScanState { lit_start: Some((i + 1) as usize), ..s1 })
                }
            } else if s1.word_start is None {
                Ok(ScanState { word_start: Some(i as usize), ..s1 })
            } else {
                Ok(s1)
            }
        },
    }
}

/// The statements once the whole source of length `n` has been scanned.
pub open spec fn scan_finish(n: int, s: ScanState) -> Result<Seq<StatementModel>, ParseError> {
    if s.lit_start is Some {
        Err(ParseError::UnterminatedString { line: s.line })
    } else {
        let words = match s.word_start {
            Some(ws) => s.words.push((ws, n as usize)),
            None => s.words,
        };
        Ok(s.out.push(StatementModel { line: s.line, words, literal: s.literal }))
    }
}

/// Scanning the source from character `i` on, in state `s`.
pub open spec fn scan(src: Seq<char>, i: int, s: ScanState) -> Result<Seq<StatementModel>, ParseError>
    decreases src.len() - i,
{
    if i >= src.len() || i < 0 {
        scan_finish(src.len() as int, s)
    } else {
        match scan_char(src, i, s) {
            Err(e) => Err(e),
            Ok(s2) => scan(src, i + 1, s2),
        }
    }
}

/// Every word and string literal of `st` lies within `n` characters.
pub open spec fn ranges_in(st: StatementModel, n: int) -> bool {
    &&& forall|j: int| 0 <= j < st.words.len()
        ==> (#[trigger] st.words[j]).0 < st.words[j].1 <= n
    &&& st.literal matches Some((a, b)) ==> a <= b <= n
}

/// Whether `c` separates words.
fn is_blank(c: char) -> (r: bool)
    ensures
        r == blank(c),
{
    c == ' ' || c == '\t' || c == '\r'
}

/// Returns the characters of `s`.
fn chars_of(s: &str) -> (r: Vec<char>)
    ensures
        r@ == s@,
{
    let n = s.unicode_len();
    let mut r: Vec<char> = Vec::new();
    let mut i: usize = 0;
    while i < n
        invariant
            n == s@.len(),
            i <= n,
            r@ == s@.subrange(0, i as int),
        decreases n - i,
    {
        r.push(s.get_char(i));
        i += 1;
        assert(r@ =~= s@.subrange(0, i as int));
    }
    assert(r@ =~= s@);
    r
}

/// Splits source characters into statements.
fn statements(src: &Vec<char>) -> (r: Result<Vec<Statement>, ParseError>)
    ensures
        match r {
            Ok(v) => scan(src@, 0, scan_start()) == Ok::<_, ParseError>(statements_model(v@))
                && forall|k: int| 0 <= k < v@.len() ==> ranges_in(#[trigger] v@[k]@, src@.len() as int),
            Err(e) => scan(src@, 0, scan_start()) == Err::<Seq<StatementModel>, _>(e),
        },
{
    let mut out: Vec<Statement> = Vec::new();
    let mut words: Vec<(usize, usize)> = Vec::new();
    let mut literal: Option<(usize, usize)> = None;
    let mut line: usize = 1;
    let mut word_start: Option<usize> = None;
    let mut lit_start: Option<usize> = None;
    let mut i: usize = 0;
    assert(statements_model(out@) =~= Seq::empty());
    while i < src.len()
        invariant
            i <= src@.len(),
            scan(src@, 0, scan_start()) == scan(src@, i as int, ScanState {
                out: statements_model(out@), words: words@, literal, line, word_start, lit_start,
            }),
            forall|k: int| 0 <= k < out@.len() ==> ranges_in(#[trigger] out@[k]@, src@.len() as int),
            forall|j: int| 0 <= j < words@.len() ==> (#[trigger] words@[j]).0 < words@[j].1 <= i,
            literal matches Some((a, b)) ==> a <= b <= i,
            word_start matches Some(ws) ==> ws < i,
            lit_start matches Some(ls) ==> ls <= i,
            word_start is Some ==> lit_start is None,
        decreases src@.len() - i,
    {
        let c = src[i];
        match lit_start {
            Some(ls) => {
                if c == '"' {
                    literal = Some((ls, i));
                    lit_start = None;
                } else if c == '\n' {
                    return Err(ParseError::UnterminatedString { line });
                }
            },
            None => {
                if (is_blank(c) || c == '\n' || c == ';' || c == '"') && word_start.is_some() {
                    let ws = word_start.unwrap();
                    words.push((ws, i));
                    word_start = None;
                }
                if c == '\n' || c == ';' {
                    let ghost om = statements_model(out@);
                    let st = Statement { line, words, literal };
                    let ghost sm = st@;
                    out.push(st);
                    assert(statements_model(out@) =~= om.push(sm));
                    words = Vec::new();
                    literal = None;
                    if c == '\n' {
                        line = if line == usize::MAX { line } else { line + 1 };
                    }
                } else if is_blank(c) {
                } else if c == '"' {
                    if literal.is_some() {
                        return Err(ParseError::UnterminatedString { line });
                    }
                    lit_start = Some(i + 1);
                } else if word_start.is_none() {
                    word_start = Some(i);
                }
            },
        }
        i += 1;
    }
    if lit_start.is_some() {
        return Err(ParseError::UnterminatedString { line });
    }
    if word_start.is_some() {
        let ws = word_start.unwrap();
        words.push((ws, i));
    }
    let ghost om = statements_model(out@);
    let st = Statement { line, words, literal };
    let ghost sm = st@;
    out.push(st);
    assert(statements_model(out@) =~= om.push(sm));
    Ok(out)
}

/// Whether the characters `src[a..b]` spell `lit`.
fn spells(src: &Vec<char>, a: usize, b: usize, lit: &str) -> (r: bool)
    requires
        a <= b <= src@.len(),
    ensures
        r == (src@.subrange(a as int, b as int) == lit@),
{
    let n = lit.unicode_len();
    if b - a != n {
        return false;
    }
    let mut i: usize = 0;
    while i < n
        invariant
            n == lit@.len(),
            b - a == n,
            a <= b <= src@.len(),
            i <= n,
            forall|k: int| 0 <= k < i ==> src@.subrange(a as int, b as int)[k] == #[trigger] lit@[k],
        decreases n - i,
    {
        if src[a + i] != lit.get_char(i) {
            assert(src@.subrange(a as int, b as int)[i as int] != lit@[i as int]);
            return false;
        }
        i += 1;
    }
    assert(src@.subrange(a as int, b as int) =~= lit@);
    true
}

/// The opcode of the instruction whose mnemonic is `w`.
pub open spec fn mnemonic_value(w: Seq<char>) -> Option<u16> {
    if w == "eof"@ {
        Some(0)
    } else if w == "noop"@ {
        Some(1)
    } else if w == "halt"@ {
        Some(2)
    } else if w == "jump"@ {
        Some(3)
    } else if w == "jump_zero"@ {
        Some(4)
    } else if w == "jump_not_zero"@ {
        Some(5)
    } else if w == "call"@ {
        Some(6)
    } else if w == "return"@ {
        Some(7)
    } else if w == "push"@ {
        Some(8)
    } else if w == "pop"@ {
        Some(9)
    } else if w == "dup"@ {
        Some(10)
    } else if w == "swap"@ {
        Some(11)
    } else if w == "over"@ {
        Some(12)
    } else if w == "load"@ {
        Some(13)
    } else if w == "store"@ {
        Some(14)
    } else if w == "load_string"@ {
        Some(15)
    } else if w == "add"@ {
        Some(16)
    } else if w == "sub"@ {
        Some(17)
    } else if w == "mul"@ {
        Some(18)
    } else if w == "div"@ {
        Some(19)
    } else if w == "inc"@ {
        Some(20)
    } else if w == "dec"@ {
        Some(21)
    } else if w == "equal"@ {
        Some(22)
    } else if w == "not_equal"@ {
        Some(23)
    } else if w == "less_than"@ {
        Some(24)
    } else if w == "less_than_or_equal"@ {
        Some(25)
    } else if w == "greater_than"@ {
        Some(26)
    } else if w == "greater_than_or_equal"@ {
        Some(27)
    } else if w == "print"@ {
        Some(28)
    } else if w == "send"@ {
        Some(29)
    } else if w == "receive"@ {
        Some(30)
    } else if w == "memory_map"@ {
        Some(31)
    } else {
        None
    }
}

/// The opcode of the instruction named by `src[a..b]`.
fn mnemonic(src: &Vec<char>, a: usize, b: usize) -> (r: Option<u16>)
    requires
        a <= b <= src@.len(),
    ensures
        r == mnemonic_value(src@.subrange(a as int, b as int)),
{
    if spells(src, a, b, "eof") {
        Some(0)
    } else if spells(src, a, b, "noop") {
        Some(1)
    } else if spells(src, a, b, "halt") {
        Some(2)
    } else if spells(src, a, b, "jump") {
        Some(3)
    } else if spells(src, a, b, "jump_zero") {
        Some(4)
    } else if spells(src, a, b, "jump_not_zero") {
        Some(5)
    } else if spells(src, a, b, "call") {
        Some(6)
    } else if spells(src, a, b, "return") {
        Some(7)
    } else if spells(src, a, b, "push") {
        Some(8)
    } else if spells(src, a, b, "pop") {
        Some(9)
    } else if spells(src, a, b, "dup") {
        Some(10)
    } else if spells(src, a, b, "swap") {
        Some(11)
    } else if spells(src, a, b, "over") {
        Some(12)
    } else if spells(src, a, b, "load") {
        Some(13)
    } else if spells(src, a, b, "store") {
        Some(14)
    } else if spells(src, a, b, "load_string") {
        Some(15)
    } else if spells(src, a, b, "add") {
        Some(16)
    } else if spells(src, a, b, "sub") {
        Some(17)
    } else if spells(src, a, b, "mul") {
        Some(18)
    } else if spells(src, a, b, "div") {
        Some(19)
    } else if spells(src, a, b, "inc") {
        Some(20)
    } else if spells(src, a, b, "dec") {
        Some(21)
    } else if spells(src, a, b, "equal") {
        Some(22)
    } else if spells(src, a, b, "not_equal") {
        Some(23)
    } else if spells(src, a, b, "less_than") {
        Some(24)
    } else if spells(src, a, b, "less_than_or_equal") {
        Some(25)
    } else if spells(src, a, b, "greater_than") {
        Some(26)
    } else if spells(src, a, b, "greater_than_or_equal") {
        Some(27)
    } else if spells(src, a, b, "print") {
        Some(28)
    } else if spells(src, a, b, "send") {
        Some(29)
    } else if spells(src, a, b, "receive") {
        Some(30)
    } else if spells(src, a, b, "memory_map") {
        Some(31)
    } else {
        None
    }
}

/// Index of the first word from `j` on that is no label definition.
pub open spec fn label_prefix(src: Seq<char>, words: Seq<(usize, usize)>, j: int) -> int
    decreases words.len() - j,
{
    if j < 0 || j >= words.len() || src[words[j].1 - 1] != ':' {
        j
    } else {
        label_prefix(src, words, j + 1)
    }
}

/// The labels that words `j..e` define, each without its `:`, at `addr`.
pub open spec fn labels_defined(words: Seq<(usize, usize)>, j: int, e: int, addr: u16)
    -> Seq<(usize, usize, u16)>
{
    Seq::new((e - j) as nat, |q: int| (words[j + q].0, (words[j + q].1 - 1) as usize, addr))
}

/// Number of code words of a statement, or the error of its mnemonic.
pub open spec fn statement_width(src: Seq<char>, st: StatementModel) -> Result<u32, ParseError> {
    let j = label_prefix(src, st.words, 0);
    if j < st.words.len() {
        match mnemonic_value(src.subrange(st.words[j].0 as int, st.words[j].1 as int)) {
            Some(t) => Ok(Op::size_of_opcode(t) as u32),
            None => Err(ParseError::UnknownMnemonic { line: st.line }),
        }
    } else if st.literal is Some {
        Ok(2)
    } else {
        Ok(0)
    }
}

/// The labels of statements `0..k` and the address after them.
pub open spec fn label_pass(src: Seq<char>, sts: Seq<StatementModel>, k: int)
    -> Result<(Seq<(usize, usize, u16)>, u32), ParseError>
    decreases k,
{
    if k <= 0 {
        Ok((Seq::empty(), 0))
    } else {
        match label_pass(src, sts, k - 1) {
            Err(e) => Err(e),
            Ok((ls, addr)) => {
                let st = sts[k - 1];
                let ls2 = ls + labels_defined(st.words, 0, label_prefix(src, st.words, 0), addr as u16);
                match statement_width(src, st) {
                    Err(e) => Err(e),
                    Ok(w) => if addr + w > CODE_END { Err(ParseError::ProgramTooLarge) } else { Ok((ls2, (addr + w) as u32)) },
                }
            },
        }
    }
}

/// The address of the first label from index `k` on that is spelt `w`.
pub open spec fn find_label(src: Seq<char>, w: Seq<char>, labels: Seq<(usize, usize, u16)>, k: int) -> Option<u16>
    decreases labels.len() - k,
{
    if k < 0 || k >= labels.len() {
        None
    } else if src.subrange(labels[k].0 as int, labels[k].1 as int) == w {
        Some(labels[k].2)
    } else {
        find_label(src, w, labels, k + 1)
    }
}

/// The value of an argument word: its number, else the first label it names.
pub open spec fn argument_value(src: Seq<char>, w: Seq<char>, labels: Seq<(usize, usize, u16)>) -> Option<u16> {
    match number_value(w) {
        Some(v) => if v < 0x10000 { Some(v as u16) } else { find_label(src, w, labels, 0) },
        None => find_label(src, w, labels, 0),
    }
}

pub open spec fn word_of(src: Seq<char>, r: (usize, usize)) -> Seq<char> {
    src.subrange(r.0 as int, r.1 as int)
}

/// What a statement yields: its instruction, its string, and the next free
/// DATA address; or its error.
pub open spec fn statement_output(src: Seq<char>, st: StatementModel, labels: Seq<(usize, usize, u16)>, data: u32)
    -> Result<(Option<Op>, Option<Seq<char>>, u32), ParseError>
{
    let j = label_prefix(src, st.words, 0);
    let line = st.line;
    if j < st.words.len() {
        if st.literal is Some {
            Err(ParseError::TrailingInput { line })
        } else {
            match mnemonic_value(word_of(src, st.words[j])) {
                None => Err(ParseError::UnknownMnemonic { line }),
                Some(t) => {
                    let n = Op::size_of_opcode(t) - 1;
                    let rest = st.words.len() - j - 1;
                    if rest < n {
                        Err(ParseError::MissingArgument { line })
                    } else if rest > n {
                        Err(ParseError::TrailingInput { line })
                    } else {
                        let x = if n >= 1 { argument_value(src, word_of(src, st.words[j + 1]), labels) } else { Some(0u16) };
                        let y = if n >= 2 { argument_value(src, word_of(src, st.words[j + 2]), labels) } else { Some(0u16) };
                        match (x, y) {
                            (Some(x), Some(y)) => Ok((Op::from_words(t, x, y), None, data)),
                            _ => Err(ParseError::InvalidArgument { line }),
                        }
                    }
                },
            }
        }
    } else {
        match st.literal {
            Some((a, b)) => {
                let text = src.subrange(a as int, b as int);
                let len = encode_utf8(text).len();
                if len >= DATA_END || len + 1 + data > DATA_END {
                    Err(ParseError::ProgramTooLarge)
                } else {
                    Ok((Some(Op::LoadString(data as u16)), Some(text), (data + 1 + len) as u32))
                }
            },
            None => Ok((None, None, data)),
        }
    }
}

/// The instructions and strings of statements `0..k`, and the next free
/// DATA address.
pub open spec fn emit_pass(src: Seq<char>, sts: Seq<StatementModel>, labels: Seq<(usize, usize, u16)>, k: int)
    -> Result<(Seq<Op>, Seq<Seq<char>>, u32), ParseError>
    decreases k,
{
    if k <= 0 {
        Ok((Seq::empty(), Seq::empty(), DATA_START as u32))
    } else {
        match emit_pass(src, sts, labels, k - 1) {
            Err(e) => Err(e),
            Ok((ops, strs, data)) => match statement_output(src, sts[k - 1], labels, data) {
                Err(e) => Err(e),
                Ok((op, text, data2)) => {
                    let ops2 = match op { Some(o) => ops.push(o), None => ops };
                    let strs2 = match text { Some(t) => strs.push(t), None => strs };
                    if code_words(ops2).len() > CODE_END {
                        Err(ParseError::ProgramTooLarge)
                    } else {
                        Ok((ops2, strs2, data2))
                    }
                },
            },
        }
    }
}

/// The program that source text spells: its instructions and the text of
/// its strings, or the first error.
pub open spec fn parsed(source: Seq<char>) -> Result<(Seq<Op>, Seq<Seq<char>>), ParseError> {
    match scan(source, 0, scan_start()) {
        Err(e) => Err(e),
        Ok(sts) => match label_pass(source, sts, sts.len() as int) {
            Err(e) => Err(e),
            Ok((labels, _)) => match emit_pass(source, sts, labels, sts.len() as int) {
                Err(e) => Err(e),
                Ok((ops, strs, _)) => Ok((ops, strs)),
            },
        },
    }
}

pub open spec fn texts(symbols: Seq<String>) -> Seq<Seq<char>> {
    symbols.map_values(|s: String| s@)
}

/// Whether a word ends in `:`, which makes it a label definition.
fn is_label(src: &Vec<char>, a: usize, b: usize) -> (r: bool)
    requires
        a < b <= src@.len(),
    ensures
        r == (src@[b - 1] == ':'),
{
    src[b - 1] == ':'
}

/// Whether `src[a..b]` and `src[c..d]` are the same characters.
fn same_word(src: &Vec<char>, a: usize, b: usize, c: usize, d: usize) -> (r: bool)
    requires
        a <= b <= src@.len(),
        c <= d <= src@.len(),
    ensures
        r == (src@.subrange(a as int, b as int) == src@.subrange(c as int, d as int)),
{
    if b - a != d - c {
        assert(src@.subrange(a as int, b as int).len() != src@.subrange(c as int, d as int).len());
        return false;
    }
    let mut i: usize = 0;
    while i < b - a
        invariant
            a <= b <= src@.len(),
            c <= d <= src@.len(),
            b - a == d - c,
            i <= b - a,
            forall|k: int| 0 <= k < i ==> src@.subrange(a as int, b as int)[k] == #[trigger] src@.subrange(c as int, d as int)[k],
        decreases b - a - i,
    {
        if src[a + i] != src[c + i] {
            assert(src@.subrange(a as int, b as int)[i as int] != src@.subrange(c as int, d as int)[i as int]);
            return false;
        }
        i += 1;
    }
    assert(src@.subrange(a as int, b as int) =~= src@.subrange(c as int, d as int));
    true
}

/// The value of an argument word: a number, or the address of the first
/// label it names.
fn argument(src: &Vec<char>, a: usize, b: usize, labels: &Vec<(usize, usize, u16)>) -> (r: Option<u16>)
    requires
        a < b <= src@.len(),
        forall|k: int| 0 <= k < labels@.len() ==> (#[trigger] labels@[k]).0 <= labels@[k].1 <= src@.len(),
    ensures
        r == argument_value(src@, src@.subrange(a as int, b as int), labels@),
{
    let mut w: Vec<char> = Vec::new();
    let mut i: usize = a;
    while i < b
        invariant
            a <= i <= b,
            b <= src@.len(),
            w@ == src@.subrange(a as int, i as int),
        decreases b - i,
    {
        w.push(src[i]);
        i += 1;
        assert(w@ =~= src@.subrange(a as int, i as int));
    }
    let n = parse_number(&w);
    if n.is_some() {
        return n;
    }
    let mut k: usize = 0;
    while k < labels.len()
        invariant
            k <= labels@.len(),
            a < b <= src@.len(),
            forall|q: int| 0 <= q < labels@.len() ==> (#[trigger] labels@[q]).0 <= labels@[q].1 <= src@.len(),
            argument_value(src@, src@.subrange(a as int, b as int), labels@)
                == find_label(src@, src@.subrange(a as int, b as int), labels@, k as int),
        decreases labels@.len() - k,
    {
        let (c, d, addr) = labels[k];
        if same_word(src, a, b, c, d) {
            return Some(addr);
        }
        k += 1;
    }
    None
}


/// Once the label pass fails, it fails alike over longer prefixes.
proof fn lemma_label_pass_err(src: Seq<char>, sts: Seq<StatementModel>, k: int, m: int)
    requires
        0 <= k <= m,
        label_pass(src, sts, k) is Err,
    ensures
        label_pass(src, sts, m) == label_pass(src, sts, k),
    decreases m - k,
{
    if m > k {
        lemma_label_pass_err(src, sts, k, m - 1);
    }
}

/// Once the emitting pass fails, it fails alike over longer prefixes.
proof fn lemma_emit_pass_err(src: Seq<char>, sts: Seq<StatementModel>, labels: Seq<(usize, usize, u16)>, k: int, m: int)
    requires
        0 <= k <= m,
        emit_pass(src, sts, labels, k) is Err,
    ensures
        emit_pass(src, sts, labels, m) == emit_pass(src, sts, labels, k),
    decreases m - k,
{
    if m > k {
        lemma_emit_pass_err(src, sts, labels, k, m - 1);
    }
}

/// Returns the index of the first word that is no label definition.
fn leading_labels(src: &Vec<char>, words: &Vec<(usize, usize)>) -> (r: usize)
    requires
        forall|j: int| 0 <= j < words@.len() ==> (#[trigger] words@[j]).0 < words@[j].1 <= src@.len(),
    ensures
        r as int == label_prefix(src@, words@, 0),
        r <= words@.len(),
{
    let mut j: usize = 0;
    while j < words.len()
        invariant
            j <= words@.len(),
            label_prefix(src@, words@, 0) == label_prefix(src@, words@, j as int),
            forall|q: int| 0 <= q < words@.len() ==> (#[trigger] words@[q]).0 < words@[q].1 <= src@.len(),
        decreases words@.len() - j,
    {
        let (a, b) = words[j];
        if !is_label(src, a, b) {
            return j;
        }
        j += 1;
    }
    j
}

pub open spec fn text_view(t: Option<String>) -> Option<Seq<char>> {
    match t {
        Some(s) => Some(s@),
        None => None,
    }
}

/// What one statement yields: its instruction, its string, and the next
/// free DATA address.
fn statement_out(src: &Vec<char>, source: &str, st: &Statement, labels: &Vec<(usize, usize, u16)>, data: u32)
    -> (r: Result<(Option<Op>, Option<String>, u32), ParseError>)
    requires
        src@ == source@,
        ranges_in(st@, src@.len() as int),
        forall|k: int| 0 <= k < labels@.len() ==> (#[trigger] labels@[k]).0 <= labels@[k].1 <= src@.len(),
        data <= DATA_END,
    ensures
        match r {
            Ok((op, t, d)) => statement_output(src@, st@, labels@, data)
                == Ok::<_, ParseError>((op, text_view(t), d)) && d <= DATA_END,
            Err(e) => statement_output(src@, st@, labels@, data)
                == Err::<(Option<Op>, Option<Seq<char>>, u32), _>(e),
        },
{
    let line = st.line;
    assert forall|q: int| 0 <= q < st.words@.len() implies
        (#[trigger] st.words@[q]).0 < st.words@[q].1 <= src@.len() by {
        assert(st@.words[q] == st.words@[q]);
    }
    let j = leading_labels(src, &st.words);
    if j < st.words.len() {
        if st.literal.is_some() {
            return Err(ParseError::TrailingInput { line });
        }
        let (a, b) = st.words[j];
        let t = match mnemonic(src, a, b) {
            Some(t) => t,
            None => return Err(ParseError::UnknownMnemonic { line }),
        };
        let n = Op::width(t) as usize - 1;
        if st.words.len() - j - 1 < n {
            return Err(ParseError::MissingArgument { line });
        }
        if st.words.len() - j - 1 > n {
            return Err(ParseError::TrailingInput { line });
        }
        let x: u16 = if n >= 1 {
            let (c, d) = st.words[j + 1];
            match argument(src, c, d, labels) {
                Some(v) => v,
                None => return Err(ParseError::InvalidArgument { line }),
            }
        } else {
            0
        };
        let y: u16 = if n >= 2 {
            let (c, d) = st.words[j + 2];
            match argument(src, c, d, labels) {
                Some(v) => v,
                None => return Err(ParseError::InvalidArgument { line }),
            }
        } else {
            0
        };
        Ok((Op::decode(t, x, y), None, data))
    } else {
        match st.literal {
            Some((a, b)) => {
                let text = <String as StringExecFns>::from_str(source.substring_char(a, b));
                let len = text.as_str().as_bytes().len();
                if len >= DATA_END as usize || len as u32 + 1 + data > DATA_END as u32 {
                    return Err(ParseError::ProgramTooLarge);
                }
                let at = data as u16;
                Ok((Some(Op::LoadString(at)), Some(text), data + 1 + len as u32))
            },
            None => Ok((None, None, data)),
        }
    }
}

impl Parser {
    /// Reads program source text: the result is exactly `parsed(source@)`.
    /// On success the code fits the code region and the strings, laid out
    /// from `DATA_START` on in the order of `symbols`, fit the data region.
    pub fn parse(source: &str) -> (r: Result<Parser, ParseError>)
        ensures
            match r {
                Ok(p) => parsed(source@) == Ok::<_, ParseError>((p.ops@, texts(p.symbols@)))
                    && code_words(p.ops@).len() <= CODE_END
                    && DATA_START + symbol_words(p.symbols@).len() <= DATA_END,
                Err(e) => parsed(source@) == Err::<(Seq<Op>, Seq<Seq<char>>), _>(e),
            },
    {
        let src = chars_of(source);
        let sts = match statements(&src) {
            Ok(sts) => sts,
            Err(e) => return Err(e),
        };
        let ghost sm = statements_model(sts@);
        // First pass: the address of each label.
        let mut labels: Vec<(usize, usize, u16)> = Vec::new();
        let mut addr: u32 = 0;
        let mut k: usize = 0;
        while k < sts.len()
            invariant
                k <= sts@.len(),
                sm == statements_model(sts@),
                src@ == source@,
                scan(src@, 0, scan_start()) == Ok::<_, ParseError>(sm),
                addr <= CODE_END,
                label_pass(src@, sm, k as int) == Ok::<_, ParseError>((labels@, addr)),
                forall|q: int| 0 <= q < labels@.len() ==> (#[trigger] labels@[q]).0 <= labels@[q].1 <= src@.len(),
                forall|q: int| 0 <= q < sts@.len() ==> ranges_in(#[trigger] sts@[q]@, src@.len() as int),
            decreases sts@.len() - k,
        {
            let st = &sts[k];
            assert(sm[k as int] == st@);
            assert(ranges_in(st@, src@.len() as int));
            assert forall|q: int| 0 <= q < st.words@.len() implies
                (#[trigger] st.words@[q]).0 < st.words@[q].1 <= src@.len() by {
                assert(st@.words[q] == st.words@[q]);
            }
            let j = leading_labels(&src, &st.words);
            let ghost ls0 = labels@;
            let mut q: usize = 0;
            while q < j
                invariant
                    q <= j,
                    j <= st.words@.len(),
                    labels@ == ls0 + labels_defined(st.words@, 0, q as int, addr as u16),
                    forall|q: int| 0 <= q < st.words@.len() ==>
                        (#[trigger] st.words@[q]).0 < st.words@[q].1 <= src@.len(),
                    addr <= CODE_END,
                    forall|q: int| 0 <= q < labels@.len() ==> (#[trigger] labels@[q]).0 <= labels@[q].1 <= src@.len(),
                decreases j - q,
            {
                let (a, b) = st.words[q];
                labels.push((a, b - 1, addr as u16));
                q += 1;
                assert(labels@ =~= ls0 + labels_defined(st.words@, 0, q as int, addr as u16));
            }
            let width: u32 = if j < st.words.len() {
                let (a, b) = st.words[j];
                match mnemonic(&src, a, b) {
                    Some(t) => Op::width(t) as u32,
                    None => {
                        proof {
                            assert(statement_width(src@, sm[k as int])
                                == Err::<u32, ParseError>(ParseError::UnknownMnemonic { line: st.line }));
                            lemma_label_pass_err(src@, sm, k + 1, sm.len() as int);
                        }
                        return Err(ParseError::UnknownMnemonic { line: st.line });
                    },
                }
            } else if st.literal.is_some() {
                2
            } else {
                0
            };
            assert(statement_width(src@, sm[k as int]) == Ok::<u32, ParseError>(width));
            if addr + width > CODE_END as u32 {
                proof {
                    lemma_label_pass_err(src@, sm, k + 1, sm.len() as int);
                }
                return Err(ParseError::ProgramTooLarge);
            }
            assert(labels@ =~= ls0 + labels_defined(st.words@, 0, j as int, addr as u16));
            addr = addr + width;
            k += 1;
        }
        // Second pass: the instructions and strings.
        let mut ops: Vec<Op> = Vec::new();
        let mut symbols: Vec<String> = Vec::new();
        let mut data: u32 = DATA_START as u32;
        let mut clen: usize = 0;
        assert(texts(symbols@) =~= Seq::empty());
        k = 0;
        while k < sts.len()
            invariant
                k <= sts@.len(),
                sm == statements_model(sts@),
                scan(src@, 0, scan_start()) == Ok::<_, ParseError>(sm),
                label_pass(src@, sm, sm.len() as int) == Ok::<_, ParseError>((labels@, addr)),
                emit_pass(src@, sm, labels@, k as int) == Ok::<_, ParseError>((ops@, texts(symbols@), data)),
                code_words(ops@).len() <= CODE_END,
                clen == code_words(ops@).len(),
                data == DATA_START + symbol_words(symbols@).len(),
                data <= DATA_END,
                forall|q: int| 0 <= q < labels@.len() ==> (#[trigger] labels@[q]).0 <= labels@[q].1 <= src@.len(),
                forall|q: int| 0 <= q < sts@.len() ==> ranges_in(#[trigger] sts@[q]@, src@.len() as int),
                src@ == source@,
            decreases sts@.len() - k,
        {
            let st = &sts[k];
            assert(sm[k as int] == st@);
            let (op, text, data2) = match statement_out(&src, source, st, &labels, data) {
                Ok(o) => o,
                Err(e) => {
                    proof {
                        lemma_emit_pass_err(src@, sm, labels@, k + 1, sm.len() as int);
                    }
                    return Err(e);
                },
            };
            let ghost ops0 = ops@;
            let ghost sy0 = symbols@;
            match op {
                Some(o) => {
                    let w = o.encode();
                    proof {
                        assert(ops0.push(o).drop_last() =~= ops0);
                    }
                    if clen + w.len() > CODE_END as usize {
                        proof {
                            lemma_emit_pass_err(src@, sm, labels@, k + 1, sm.len() as int);
                        }
                        return Err(ParseError::ProgramTooLarge);
                    }
                    ops.push(o);
                    clen = clen + w.len();
                },
                None => {},
            }
            match text {
                Some(t) => {
                    let ghost tv = t@;
                    symbols.push(t);
                    proof {
                        assert(texts(symbols@) =~= texts(sy0).push(tv));
                        assert(symbols@.drop_last() =~= sy0);
                    }
                },
                None => {},
            }
            data = data2;
            k += 1;
        }
        Ok(Parser { ops, symbols })
    }
}

} // verus!
