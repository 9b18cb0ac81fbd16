use r8::machine::Machine;
use r8::error::Error;

#[test]
fn first_step_executes_at_program_start() {
    // The word at 0x200 runs with the counter already at 0x202.
    let mut m = Machine::new();
    assert_eq!(m.pc, 0x200);
    m.load(&[0x63, 0x42]);
    m.step(0, 0).unwrap();
    assert_eq!(m.v[3], 0x42);
    assert_eq!(m.pc, 0x202);
}

#[test]
fn load_places_program_at_0x200() {
    let mut m = Machine::new();
    m.load(&[1, 2, 3]);
    assert_eq!(m.memory[0x200], 1);
    assert_eq!(m.memory[0x201], 2);
    assert_eq!(m.memory[0x202], 3);
    assert_eq!(m.memory[0x203], 0);
}

#[test]
fn jump_sets_counter() {
    let mut m = Machine::new();
    m.load(&[0x13, 0x00]);
    m.step(0, 0).unwrap();
    assert_eq!(m.pc, 0x300);
}

#[test]
fn jump_offset_adds_v0() {
    let mut m = Machine::new();
    m.v[0] = 4;
    m.load(&[0xB3, 0x00]);
    m.step(0, 0).unwrap();
    assert_eq!(m.pc, 0x304);
}

#[test]
fn call_pushes_and_ret_pops() {
    let mut m = Machine::new();
    m.load(&[0x23, 0x00]);
    m.memory[0x300] = 0x00;
    m.memory[0x301] = 0xEE;
    m.step(0, 0).unwrap();
    assert_eq!(m.pc, 0x300);
    assert_eq!(m.stack, vec![0x202]);
    m.step(0, 0).unwrap();
    assert_eq!(m.pc, 0x202);
    assert!(m.stack.is_empty());
}

#[test]
fn ret_with_empty_stack_is_fatal() {
    let mut m = Machine::new();
    m.load(&[0x00, 0xEE]);
    assert_eq!(m.step(0, 0), Err(Error::StackUnderflow));
}

#[test]
fn bad_opcode_carries_word() {
    let mut m = Machine::new();
    m.load(&[0xFF, 0xFF]);
    assert_eq!(m.step(0, 0), Err(Error::Opcode(0xFFFF)));
}

#[test]
fn fetch_past_memory_end_faults() {
    let mut m = Machine::new();
    m.pc = 4095;
    assert_eq!(m.step(0, 0), Err(Error::AddressOutOfRange(4095)));
    assert_eq!(m.pc, 4095);
}

#[test]
fn sys_is_a_no_op() {
    let mut m = Machine::new();
    m.load(&[0x01, 0x23]);
    let r = m.step(0, 0).unwrap();
    assert!(!r.redraw);
    assert_eq!(m.pc, 0x202);
}

#[test]
fn skip_equal_immediate() {
    let mut m = Machine::new();
    m.v[1] = 0x42;
    m.load(&[0x31, 0x42]);
    m.step(0, 0).unwrap();
    assert_eq!(m.pc, 0x204);

    let mut m = Machine::new();
    m.v[1] = 0x41;
    m.load(&[0x31, 0x42]);
    m.step(0, 0).unwrap();
    assert_eq!(m.pc, 0x202);
}

#[test]
fn skip_not_equal_registers() {
    let mut m = Machine::new();
    m.v[1] = 1;
    m.v[2] = 2;
    m.load(&[0x91, 0x20]);
    m.step(0, 0).unwrap();
    assert_eq!(m.pc, 0x204);

    let mut m = Machine::new();
    m.v[1] = 2;
    m.v[2] = 2;
    m.load(&[0x91, 0x20]);
    m.step(0, 0).unwrap();
    assert_eq!(m.pc, 0x202);
}

#[test]
fn index_load_and_wrapping_add() {
    let mut m = Machine::new();
    m.v[3] = 0x20;
    m.load(&[0xA1, 0x23, 0xF3, 0x1E]);
    m.step(0, 0).unwrap();
    assert_eq!(m.i, 0x123);
    m.step(0, 0).unwrap();
    assert_eq!(m.i, 0x143);

    let mut m = Machine::new();
    m.i = 0xFFF0;
    m.v[3] = 0x20;
    m.load(&[0xF3, 0x1E]);
    m.step(0, 0).unwrap();
    assert_eq!(m.i, 0x10);
}

#[test]
fn bcd_decomposes_decimal_digits() {
    let mut m = Machine::new();
    m.v[2] = 234;
    m.i = 0x400;
    m.load(&[0xF2, 0x33]);
    m.step(0, 0).unwrap();
    assert_eq!(&m.memory[0x400..0x403], &[2, 3, 4]);
}

#[test]
fn bcd_past_memory_end_faults() {
    let mut m = Machine::new();
    m.v[2] = 7;
    m.i = 4094;
    m.load(&[0xF2, 0x33]);
    assert_eq!(m.step(0, 0), Err(Error::AddressOutOfRange(4094)));
    assert_eq!(m.memory[4094], 0);
}

#[test]
fn register_dump_and_load_are_inclusive() {
    let mut m = Machine::new();
    m.v[0] = 10;
    m.v[1] = 11;
    m.v[2] = 12;
    m.v[3] = 13;
    m.v[4] = 99;
    m.i = 0x500;
    m.load(&[0xF3, 0x55]);
    m.step(0, 0).unwrap();
    assert_eq!(&m.memory[0x500..0x504], &[10, 11, 12, 13]);
    assert_eq!(m.memory[0x504], 0);

    let mut m = Machine::new();
    m.i = 0x500;
    m.memory[0x500] = 21;
    m.memory[0x501] = 22;
    m.memory[0x502] = 23;
    m.v[3] = 77;
    m.load(&[0xF2, 0x65]);
    m.step(0, 0).unwrap();
    assert_eq!(&m.v[0..4], &[21, 22, 23, 77]);
}

#[test]
fn register_dump_past_memory_end_faults() {
    let mut m = Machine::new();
    m.i = 4090;
    m.load(&[0xF7, 0x55]);
    assert_eq!(m.step(0, 0), Err(Error::AddressOutOfRange(4090)));
}
