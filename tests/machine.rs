use machine::bytecode::{BytecodeError, MAGIC_0, MAGIC_1};
use machine::{Execute, Machine, Op as I, ParseError, RuntimeError, CODE_END, STACK_START};

#[test]
fn test_add() {
    let mut m = Machine::new();
    m.mem.load_code(vec![I::Push(5), I::Push(10), I::Add, I::Push(3), I::Sub]).unwrap();

    m.tick().unwrap();
    m.tick().unwrap();
    assert_eq!(m.mem.read_stack(m.reg.sp, 3), [0, 10, 5]);

    m.tick().unwrap();
    assert_eq!(m.mem.read_stack(m.reg.sp, 3), [0, 0, 15]);
    assert_eq!(m.stack().peek(&m.mem, &m.reg), 15);

    m.tick().unwrap();
    assert_eq!(m.stack().peek(&m.mem, &m.reg), 3);

    m.tick().unwrap();
    assert_eq!(m.mem.read_stack(m.reg.sp, 3), [0, 0, 12]);
    assert_eq!(m.stack().peek(&m.mem, &m.reg), 12);
}

fn stack_of(m: &Machine) -> Vec<u16> {
    m.mem.cells[STACK_START as usize..m.reg.sp as usize].to_vec()
}

#[test]
fn test_load_str() {
    let mut m = Machine::new();
    let s = "hello";
    let h_addr = m.mem.add_str(s).unwrap();

    let mut ins: Vec<I> = vec![];

    for i in h_addr + 1..h_addr + 1 + s.len() as u16 {
        ins.push(I::Load(i));
    }

    m.mem.load_code(ins).unwrap();
    assert_eq!(m.mem.read_stack(m.reg.sp, 5), [0, 0, 0, 0, 0]);

    m.run().unwrap();
    assert_eq!(stack_of(&m), [104, 101, 108, 108, 111]);
}

#[test]
fn reverse_string() {
    let mut m = Machine::new();
    let s_addr = m.mem.add_str("poom").unwrap();
    m.mem.load_code(vec![I::LoadString(s_addr)]).unwrap();
    m.tick().unwrap();
    assert_eq!(stack_of(&m), [112, 111, 111, 109]);
}

#[test]
fn arithmetic_program() {
    let mut m = Machine::from_source("push 5; push 10; add; push 3; sub; halt").unwrap();
    m.run().unwrap();
    assert_eq!(m.stack().peek(&m.mem, &m.reg), 12);
}

#[test]
fn call_and_return() {
    let mut m = Machine::from_source("call l; halt; l: push 7; return").unwrap();
    m.run().unwrap();
    assert_eq!(m.stack().peek(&m.mem, &m.reg), 7);
    assert_eq!(m.reg.pc, 2);
    assert_eq!(m.call_stack().depth(&m.reg), 0);
}

#[test]
fn wrapping_arithmetic() {
    let mut m = Machine::from_ops(vec![I::Push(0xFFFF), I::Inc, I::Push(0), I::Dec, I::Push(3), I::Push(5), I::Sub, I::Halt]).unwrap();
    m.run().unwrap();
    assert_eq!(stack_of(&m), [0, 0xFFFF, 0xFFFE]);
}

#[test]
fn comparisons_take_top_first() {
    let mut m = Machine::from_ops(vec![I::Push(1), I::Push(2), I::LessThan, I::Push(9), I::Push(3), I::Div, I::Halt]).unwrap();
    m.run().unwrap();
    assert_eq!(stack_of(&m), [0, 3]);
}

#[test]
fn division_by_zero_fails() {
    let mut m = Machine::from_ops(vec![I::Push(4), I::Push(0), I::Div, I::Halt]).unwrap();
    assert_eq!(m.run(), Err(RuntimeError::DivisionByZero));
    assert_eq!(stack_of(&m), [4, 0]);
}

#[test]
fn pop_on_empty_stack_fails() {
    let mut m = Machine::from_ops(vec![I::Pop, I::Halt]).unwrap();
    assert_eq!(m.tick(), Err(RuntimeError::StackUnderflow));
    assert_eq!(m.reg.pc, 0);
}

#[test]
fn push_on_full_stack_fails() {
    let mut m = Machine::from_ops(vec![I::Push(1), I::Jump(0)]).unwrap();
    assert_eq!(m.run(), Err(RuntimeError::StackOverflow));
    assert_eq!(m.reg.sp, machine::STACK_END);
}

#[test]
fn return_with_empty_call_stack_fails() {
    let mut m = Machine::from_ops(vec![I::Return]).unwrap();
    assert_eq!(m.tick(), Err(RuntimeError::StackUnderflow));
}

#[test]
fn send_larger_than_stack_fails() {
    let mut m = Machine::from_ops(vec![I::Push(1), I::Send(0, 2)]).unwrap();
    m.tick().unwrap();
    assert_eq!(m.tick(), Err(RuntimeError::StackUnderflow));
}

#[test]
fn jump_outside_code_fails() {
    let mut m = Machine::from_ops(vec![I::Jump(CODE_END)]).unwrap();
    assert_eq!(m.tick(), Err(RuntimeError::InvalidAddress));
}

#[test]
fn unknown_opcode_fails() {
    let mut m = Machine::new();
    m.mem.cells[0] = 999;
    assert_eq!(m.tick(), Err(RuntimeError::UnknownOpcode));
}

#[test]
fn invalid_text_fails() {
    let mut m = Machine::from_ops(vec![I::Push(0xFF), I::Print]).unwrap();
    m.tick().unwrap();
    assert_eq!(m.tick(), Err(RuntimeError::InvalidString));
}

#[test]
fn print_pops_to_the_zero() {
    let mut m = Machine::from_ops(vec![I::Push(7), I::Push(0), I::Push(104), I::Push(105), I::Print, I::Halt]).unwrap();
    m.run().unwrap();
    assert_eq!(stack_of(&m), [7]);
    assert!(matches!(&m.events[0], machine::Event::Print { text } if text == "hi"));
}

#[test]
fn print_on_empty_stack_is_empty_text() {
    let mut m = Machine::from_ops(vec![I::Print, I::Halt]).unwrap();
    m.run().unwrap();
    assert!(matches!(&m.events[0], machine::Event::Print { text } if text.is_empty()));
}

#[test]
fn swap_dup_over_store_load() {
    let mut m = Machine::from_ops(vec![
        I::Push(1), I::Push(2), I::Swap, I::Over, I::Dup, I::Store(0x1800), I::Load(0x1800), I::Halt,
    ]).unwrap();
    m.run().unwrap();
    assert_eq!(stack_of(&m), [2, 1, 2, 2]);
}

#[test]
fn conditional_jumps() {
    let mut m = Machine::from_source("push 0; jump_zero a; push 9; a: push 1; jump_not_zero b; push 8; b: halt").unwrap();
    m.run().unwrap();
    assert_eq!(stack_of(&m), Vec::<u16>::new());
}

#[test]
fn send_without_id_only_pops() {
    let mut m = Machine::from_ops(vec![I::Push(3), I::Send(1, 1), I::Halt]).unwrap();
    m.run().unwrap();
    assert!(m.events.is_empty());
    assert!(m.outbox.is_empty());
}

#[test]
fn receive_counts_expected_messages() {
    let mut m = Machine::from_ops(vec![I::Receive, I::Receive, I::Halt]).unwrap();
    m.run().unwrap();
    assert_eq!(m.expected_receives, 2);
}

#[test]
fn partial_reset_keeps_code() {
    let mut m = Machine::from_ops(vec![I::Push(3), I::Receive, I::Halt]).unwrap();
    m.run().unwrap();
    m.partial_reset();
    assert_eq!(m.reg.sp, STACK_START);
    assert_eq!(m.expected_receives, 0);
    assert_eq!(m.mem.cells[0], 8);
    m.full_reset();
    assert_eq!(m.mem.cells[0], 0);
}

#[test]
fn encode_then_decode() {
    let op = I::Send(4, 2);
    let w = op.encode();
    assert_eq!(w, vec![29, 4, 2]);
    assert_eq!(I::decode(w[0], w[1], w[2]), Some(op));
    assert_eq!(I::decode(200, 0, 0), None);
}

#[test]
fn numbers_and_text_decode() {
    let hex: Vec<char> = "0xAa".chars().collect();
    assert_eq!(machine::parser::parse_number(&hex), Some(0xAA));
    let big: Vec<char> = "65536".chars().collect();
    assert_eq!(machine::parser::parse_number(&big), None);
    assert_eq!(machine::text::get_str_from_bytes(&vec![104, 105]), Some("hi".to_string()));
    assert_eq!(machine::text::get_str_from_bytes(&vec![0xC3]), None);
}

#[test]
fn bytecode_loads_sections() {
    let words = vec![MAGIC_0, MAGIC_1, 6, 4, 10, 2, 8, 7, 8, 5, 1, 104];
    let mut m = Machine::from_bytecode(&words).unwrap();
    m.run().unwrap();
    assert_eq!(stack_of(&m), [7, 5]);
    assert_eq!(m.mem.cells[machine::DATA_START as usize], 1);
    assert_eq!(m.mem.data_top, machine::DATA_START + 2);
    let bad = vec![0, MAGIC_1, 6, 0, 6, 0];
    assert_eq!(Machine::from_bytecode(&bad).err(), Some(BytecodeError::InvalidSignature));
    let short = vec![MAGIC_0, MAGIC_1, 6, 9, 6, 0];
    assert_eq!(Machine::from_bytecode(&short).err(), Some(BytecodeError::InvalidHeader));
}

#[test]
fn bytes_to_words_little_endian() {
    let w = machine::bytecode::words_from_bytes(&vec![0x34, 0x12, 0xFF]);
    assert_eq!(w, vec![0x1234, 0x00FF]);
}

#[test]
fn string_literal_in_source() {
    let mut m = Machine::from_source("\"hi\"; print; halt").unwrap();
    m.run().unwrap();
    assert!(matches!(&m.events[0], machine::Event::Print { text } if text == "hi"));
}

#[test]
fn parse_errors_name_the_line() {
    assert_eq!(Machine::from_source("push 1\nfoo").err(), Some(ParseError::UnknownMnemonic { line: 2 }));
    assert_eq!(Machine::from_source("push").err(), Some(ParseError::MissingArgument { line: 1 }));
    assert_eq!(Machine::from_source("push 1 2").err(), Some(ParseError::TrailingInput { line: 1 }));
    assert_eq!(Machine::from_source("jump nowhere").err(), Some(ParseError::InvalidArgument { line: 1 }));
    assert_eq!(Machine::from_source("\"open").err(), Some(ParseError::UnterminatedString { line: 1 }));
}

#[test]
fn execute_trait_runs_the_machine() {
    let mut m = Machine::from_ops(vec![I::Push(2), I::Push(3), I::Mul, I::Halt]).unwrap();
    Execute::run(&mut m).unwrap();
    assert!(Execute::should_halt(&m));
    assert_eq!(m.stack().peek(&m.mem, &m.reg), 6);
}

#[test]
fn bytecode_round_trip_runs_alike() {
    let src = "\"ok\"; print; push 2; push 3; add; halt";
    let p = machine::parser::Parser::parse(src).unwrap();
    let words = machine::bytecode::assemble(&p).unwrap();
    assert_eq!(&words[0..2], &[MAGIC_0, MAGIC_1]);
    let mut a = Machine::from_bytecode(&words).unwrap();
    let mut b = Machine::from_source(src).unwrap();
    a.run().unwrap();
    b.run().unwrap();
    assert_eq!(a.mem.cells, b.mem.cells);
    assert_eq!(a.events.len(), 1);
    assert!(matches!(&a.events[0], machine::Event::Print { text } if text == "ok"));
    assert!(matches!(&b.events[0], machine::Event::Print { text } if text == "ok"));
    assert_eq!(stack_of(&a), [5]);
}

#[test]
fn load_string_pushes_bytes() {
    let mut m = Machine::new();
    let a = m.mem.add_str("hello").unwrap();
    m.mem.load_code(vec![I::LoadString(a), I::Halt]).unwrap();
    m.run().unwrap();
    assert_eq!(stack_of(&m), [104, 101, 108, 108, 111]);
}
