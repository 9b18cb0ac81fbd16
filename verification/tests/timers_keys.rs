use r8::machine::Machine;

#[test]
fn one_tick_decrements_each_timer_once() {
    let mut m = Machine::new();
    m.dt = 5;
    m.st = 3;
    m.step(0, 1_000).unwrap();
    assert_eq!((m.dt, m.st), (5, 3));
    m.step(0, 1_000 + 16_667).unwrap();
    assert_eq!((m.dt, m.st), (4, 2));
}

#[test]
fn timers_floor_at_zero() {
    let mut m = Machine::new();
    m.dt = 1;
    m.st = 0;
    m.step(0, 0).unwrap();
    m.step(0, 10 * 16_667).unwrap();
    assert_eq!((m.dt, m.st), (0, 0));
    m.step(0, 20 * 16_667).unwrap();
    assert_eq!((m.dt, m.st), (0, 0));
}

#[test]
fn fractional_tick_time_carries_over() {
    let mut m = Machine::new();
    m.dt = 10;
    m.step(0, 0).unwrap();
    m.step(0, 16_000).unwrap();
    assert_eq!(m.dt, 10);
    m.step(0, 17_000).unwrap();
    assert_eq!(m.dt, 9);
    // The leftover 333 microseconds stay banked: the next tick completes
    // at 2 * 16667, not at 17000 + 16667.
    m.step(0, 2 * 16_667).unwrap();
    assert_eq!(m.dt, 8);
}

#[test]
fn sound_reported_while_sound_timer_runs() {
    let mut m = Machine::new();
    m.st = 2;
    let r = m.step(0, 0).unwrap();
    assert!(r.sound);

    let mut m = Machine::new();
    let r = m.step(0, 0).unwrap();
    assert!(!r.sound);
}

#[test]
fn set_and_read_timers_by_instruction() {
    let mut m = Machine::new();
    m.v[0] = 7;
    m.load(&[0xF0, 0x15, 0xF1, 0x07, 0xF0, 0x18]);
    m.step(0, 0).unwrap();
    assert_eq!(m.dt, 7);
    m.step(0, 0).unwrap();
    assert_eq!(m.v[1], 7);
    m.step(0, 0).unwrap();
    assert_eq!(m.st, 7);
}

#[test]
fn skip_if_key_pressed() {
    let mut m = Machine::new();
    m.v[2] = 5;
    m.load(&[0xE2, 0x9E]);
    m.step(1 << 5, 0).unwrap();
    assert_eq!(m.pc, 0x204);

    let mut m = Machine::new();
    m.v[2] = 5;
    m.load(&[0xE2, 0x9E]);
    m.step(1 << 6, 0).unwrap();
    assert_eq!(m.pc, 0x202);
}

#[test]
fn skip_if_key_not_pressed() {
    let mut m = Machine::new();
    m.v[2] = 5;
    m.load(&[0xE2, 0xA1]);
    m.step(1 << 5, 0).unwrap();
    assert_eq!(m.pc, 0x202);

    let mut m = Machine::new();
    m.v[2] = 5;
    m.load(&[0xE2, 0xA1]);
    m.step(0, 0).unwrap();
    assert_eq!(m.pc, 0x204);
}

#[test]
fn out_of_range_key_never_reads_as_pressed() {
    let mut m = Machine::new();
    m.v[2] = 20;
    m.load(&[0xE2, 0x9E]);
    m.step(0xFFFF, 0).unwrap();
    assert_eq!(m.pc, 0x202);

    let mut m = Machine::new();
    m.v[2] = 20;
    m.load(&[0xE2, 0xA1]);
    m.step(0xFFFF, 0).unwrap();
    assert_eq!(m.pc, 0x204);
}

#[test]
fn wait_for_key_blocks_without_edge() {
    let mut m = Machine::new();
    m.keys = 1 << 4;
    m.load(&[0xF1, 0x0A]);
    // A key that stays held is no edge, and neither is a release.
    m.step(1 << 4, 0).unwrap();
    assert_eq!(m.pc, 0x200);
    m.step(1 << 4, 0).unwrap();
    assert_eq!(m.pc, 0x200);
    m.step(0, 0).unwrap();
    assert_eq!(m.pc, 0x200);
}

#[test]
fn wait_for_key_takes_new_edge() {
    let mut m = Machine::new();
    m.load(&[0xF1, 0x0A]);
    m.step(0, 0).unwrap();
    assert_eq!(m.pc, 0x200);
    m.step(1 << 9, 0).unwrap();
    assert_eq!(m.pc, 0x202);
    assert_eq!(m.v[1], 9);
}

#[test]
fn wait_for_key_takes_lowest_of_several_edges() {
    let mut m = Machine::new();
    m.keys = 1 << 3;
    m.load(&[0xF1, 0x0A]);
    // Key 3 was already held; 6 and 11 are the new edges, 6 is lowest.
    m.step((1 << 3) | (1 << 6) | (1 << 11), 0).unwrap();
    assert_eq!(m.pc, 0x202);
    assert_eq!(m.v[1], 6);
}
