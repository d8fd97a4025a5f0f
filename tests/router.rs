use machine::MachineStatus::{Halted, Running};
use machine::{RouterError, Router};

#[test]
fn test_send_and_receive() -> Result<(), RouterError> {
    let src_1 = r"
            push 10
            push 20
            add
            send 1 1
        ";

    let src_2 = r"
            push 6
            receive
            mul
        ";

    let mut r = Router::new();
    r.add();
    r.add();

    r.load(0, src_1)?;
    r.load(1, src_2)?;
    r.run()?;

    let m1 = r.get(1).expect("cannot get second machine");
    assert_eq!(m1.stack().peek(&m1.mem, &m1.reg), 180);
    assert_eq!(r.statuses[1], Halted, "machine must be halted after message is received");

    Ok(())
}

#[test]
fn test_receive_only() -> Result<(), RouterError> {
    let src_1 = r"
            push 10
            push 20
            add
            send 1 1
        ";

    let mut r = Router::new();
    r.add();
    r.add();

    r.load(0, src_1)?;
    r.load(1, "receive")?;
    r.run()?;

    let m1 = r.get(1).expect("cannot get second machine");
    assert_eq!(m1.stack().peek(&m1.mem, &m1.reg), 30);
    assert_eq!(r.statuses[1], Halted, "machine must be halted after message is received");

    Ok(())
}

#[test]
fn test_stepping() -> Result<(), RouterError> {
    let src_1 = r"
            push 0xAA
            push 0xBB
            push 0xCC
        ";

    let mut r = Router::new();
    r.add();

    r.load(0, src_1)?;
    r.ready();

    r.step()?;
    r.step()?;
    assert_eq!(r.statuses.get(0), Some(&Running));

    r.step()?;
    assert_eq!(r.statuses.get(0), Some(&Halted));

    Ok(())
}

#[test]
fn send_and_receive_with_explicit_halts() -> Result<(), RouterError> {
    let mut r = Router::new();
    r.add();
    r.add();
    r.load(0, "push 10; push 20; add; send 1 1; halt")?;
    r.load(1, "push 6; receive; mul; halt")?;
    r.run()?;
    let m1 = r.get(1).unwrap();
    assert_eq!(m1.stack().peek(&m1.mem, &m1.reg), 180);
    assert_eq!(r.statuses[1], Halted);
    Ok(())
}

#[test]
fn stepping_with_explicit_halt() -> Result<(), RouterError> {
    let mut r = Router::new();
    r.add();
    r.load(0, "push 0xAA; push 0xBB; push 0xCC; halt")?;
    r.ready();
    r.step()?;
    r.step()?;
    assert_eq!(r.statuses[0], Running);
    r.step()?;
    assert_eq!(r.statuses[0], Halted);
    r.step()?;
    assert_eq!(r.statuses[0], Halted);
    assert_eq!(r.get(0).unwrap().reg.pc, 6);
    Ok(())
}

#[test]
fn waiting_forever_is_a_deadlock() {
    let mut r = Router::new();
    r.add();
    r.load(0, "receive; halt").unwrap();
    assert_eq!(r.run(), Err(RouterError::Deadlock));
}

#[test]
fn unknown_machine_is_refused() {
    let mut r = Router::new();
    r.add();
    assert_eq!(r.load(3, "halt"), Err(RouterError::NoMachine(3)));
}

#[test]
fn parse_error_leaves_machine_as_it_was() {
    let mut r = Router::new();
    r.add();
    r.load(0, "push 1").unwrap();
    assert!(matches!(r.load(0, "frobnicate"), Err(RouterError::Parse(_))));
    assert_eq!(r.get(0).unwrap().mem.cells[0], 8);
    assert_eq!(r.get(0).unwrap().mem.cells[1], 1);
}

#[test]
fn messages_keep_their_order() -> Result<(), RouterError> {
    let mut r = Router::new();
    r.add();
    r.add();
    r.load(0, "push 1; send 1 1; push 2; send 1 1; halt")?;
    r.load(1, "receive; receive; halt")?;
    r.run()?;
    let m1 = r.get(1).unwrap();
    assert_eq!(m1.mem.read_stack(m1.reg.sp, 2), vec![2, 1]);
    Ok(())
}

#[test]
fn message_is_not_delivered_in_its_own_round() -> Result<(), RouterError> {
    let mut r = Router::new();
    r.add();
    r.add();
    r.load(0, "push 7; send 1 1; halt")?;
    r.load(1, "receive; halt")?;
    r.ready();
    r.step()?;
    r.step()?;
    let m1 = r.get(1).unwrap();
    assert_eq!(m1.inbox.len(), 1);
    assert_eq!(m1.reg.sp, machine::STACK_START);
    r.step()?;
    let m1 = r.get(1).unwrap();
    assert_eq!(m1.inbox.len(), 0);
    assert_eq!(m1.stack().peek(&m1.mem, &m1.reg), 7);
    Ok(())
}

#[test]
fn printed_text_reaches_the_router() -> Result<(), RouterError> {
    let mut r = Router::new();
    r.add();
    r.load(0, "push 0; push 104; push 105; print; halt")?;
    r.run()?;
    assert_eq!(r.printed, vec!["hi".to_string()]);
    Ok(())
}

#[test]
fn same_program_same_events() -> Result<(), RouterError> {
    let mut outputs = vec![];
    for _ in 0..2 {
        let mut r = Router::new();
        r.add();
        r.add();
        r.load(0, "\"ab\"; print; push 3; send 1 1; halt")?;
        r.load(1, "receive; push 0; push 120; print; halt")?;
        r.run()?;
        outputs.push(r.printed.clone());
    }
    assert_eq!(outputs[0], outputs[1]);
    assert_eq!(outputs[0], vec!["ab".to_string(), "x".to_string()]);
    Ok(())
}
