use gba_core::bus::{Access, Bus};
use gba_core::harte::{parse, run_test, ParseError, State, Test, Tx, TxBus, TxMismatch, FILE_MAGIC};

#[test]
fn txbus_replays_reads_in_order() {
    let txs = vec![Tx { kind: 0, size: 4, addr: 0x0800_0000, data: 0xCAFEBABE, cycle: 0, access: 0 }];
    let mut b = TxBus::new(txs);
    assert_eq!(b.read32(0x0800_0000, Access::Sequential), 0xCAFEBABE);
    assert!(b.fully_consumed());
    assert!(b.errors.is_empty());
}

#[test]
fn txbus_records_deviations() {
    let txs = vec![Tx { kind: 1, size: 2, addr: 0x10, data: 0xAB12, cycle: 0, access: 0 }];
    let mut b = TxBus::new(txs);
    b.write16(0x12, 0x3412, Access::NonSeq);
    assert_eq!(
        b.errors,
        vec![
            TxMismatch::WriteAddr { addr: 0x12, expected: 0x10 },
            TxMismatch::WriteData { val: 0x3412, expected: 0xAB12 }
        ]
    );
    assert_eq!(b.read8(0x20, Access::NonSeq), 0);
    assert_eq!(b.errors[2], TxMismatch::UnexpectedRead { addr: 0x20 });
    assert!(!b.fully_consumed());
}

fn le(out: &mut Vec<u8>, v: u32) {
    out.extend_from_slice(&v.to_le_bytes());
}

fn state_block(out: &mut Vec<u8>, s: &State) {
    le(out, 168);
    le(out, 0);
    for v in s.r {
        le(out, v);
    }
    for v in s.r_fiq {
        le(out, v);
    }
    for v in s.r_svc.iter().chain(&s.r_abt).chain(&s.r_irq).chain(&s.r_und) {
        le(out, *v);
    }
    le(out, s.cpsr);
    for v in s.spsr {
        le(out, v);
    }
    le(out, s.pipeline[0]);
    le(out, s.pipeline[1]);
    le(out, s.access);
}

fn blank_state() -> State {
    State {
        r: [0; 16],
        r_fiq: [0; 7],
        r_svc: [0; 2],
        r_abt: [0; 2],
        r_irq: [0; 2],
        r_und: [0; 2],
        cpsr: 0x1F,
        spsr: [0; 5],
        pipeline: [0; 2],
        access: 0,
    }
}

/// One vector: `mov r0, #5` at 0x08000000 in System mode.
fn file_with_one_test() -> Vec<u8> {
    let mut init = blank_state();
    init.r[15] = 0x0800_0008;
    init.pipeline = [0xE3A0_0005, 0xE1A0_0000];
    let mut fin = init.clone();
    fin.r[0] = 5;
    fin.r[15] = 0x0800_000C;
    fin.pipeline = [0xE1A0_0000, 0xE1A0_0000];
    let mut out = Vec::new();
    le(&mut out, FILE_MAGIC);
    le(&mut out, 1);
    le(&mut out, 0); // outer size (unused)
    state_block(&mut out, &init);
    state_block(&mut out, &fin);
    le(&mut out, 12 + 24);
    le(&mut out, 3);
    le(&mut out, 1);
    for v in [0u32, 4, 0x0800_0008, 0xE1A0_0000, 0, 0] {
        le(&mut out, v);
    }
    le(&mut out, 16);
    le(&mut out, 0);
    le(&mut out, 0xE3A0_0005);
    le(&mut out, 0x0800_0000);
    out
}

#[test]
fn parses_a_vector_file() {
    let buf = file_with_one_test();
    let tests = parse(&buf).ok().unwrap();
    assert_eq!(tests.len(), 1);
    let t: &Test = &tests[0];
    assert_eq!(t.opcode, 0xE3A0_0005);
    assert_eq!(t.base_addr, 0x0800_0000);
    assert_eq!(t.initial.r[15], 0x0800_0008);
    assert_eq!(t.final_.r[0], 5);
    assert_eq!(t.transactions.len(), 1);
    assert_eq!(t.transactions[0].addr, 0x0800_0008);
}

#[test]
fn a_vector_runs_clean() {
    let buf = file_with_one_test();
    let tests = parse(&buf).ok().unwrap();
    assert_eq!(run_test(&tests[0]), Ok(()));
}

#[test]
fn a_wrong_expectation_is_reported() {
    let buf = file_with_one_test();
    let mut tests = parse(&buf).ok().unwrap();
    tests[0].final_.r[0] = 6;
    let diffs = run_test(&tests[0]).err().unwrap();
    assert_eq!(diffs.len(), 1);
}

#[test]
fn malformed_files_are_refused() {
    assert_eq!(parse(&[1, 2, 3]).err(), Some(ParseError::TooSmall));
    assert_eq!(parse(&[0, 0, 0, 0, 0, 0, 0, 0]).err(), Some(ParseError::BadMagic(0)));
    let mut buf = file_with_one_test();
    buf.truncate(buf.len() - 4);
    assert_eq!(parse(&buf).err(), Some(ParseError::Truncated));
}

#[test]
fn active_registers_follow_the_mode() {
    let mut s = blank_state();
    s.r[13] = 1;
    s.r_irq = [2, 3];
    s.spsr[3] = 0x10;
    s.cpsr = 0x12;
    let r = s.active_regs();
    assert_eq!(r[13], 2);
    assert_eq!(r[14], 3);
    assert_eq!(s.spsr_for_mode(), 0x10);
    s.cpsr = 0x1F;
    assert_eq!(s.active_regs()[13], 1);
    assert_eq!(s.spsr_for_mode(), 0);
}
