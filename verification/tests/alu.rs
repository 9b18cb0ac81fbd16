use r8::machine::Machine;

#[test]
fn add_sets_carry_and_wraps() {
    let mut m = Machine::new();
    m.v[1] = 200;
    m.v[2] = 100;
    m.load(&[0x81, 0x24]);
    m.step(0, 0).unwrap();
    assert_eq!(m.v[1], 44);
    assert_eq!(m.v[15], 1);
}

#[test]
fn add_clears_carry_without_overflow() {
    let mut m = Machine::new();
    m.v[1] = 1;
    m.v[2] = 2;
    m.v[15] = 1;
    m.load(&[0x81, 0x24]);
    m.step(0, 0).unwrap();
    assert_eq!(m.v[1], 3);
    assert_eq!(m.v[15], 0);
}

#[test]
fn add_into_flag_register_keeps_result() {
    // Flag first, result second: with VF as destination the result wins.
    let mut m = Machine::new();
    m.v[15] = 200;
    m.v[2] = 100;
    m.load(&[0x8F, 0x24]);
    m.step(0, 0).unwrap();
    assert_eq!(m.v[15], 44);
}

#[test]
fn add_immediate_wraps_without_flag() {
    let mut m = Machine::new();
    m.v[1] = 250;
    m.v[15] = 0;
    m.load(&[0x71, 0x0A]);
    m.step(0, 0).unwrap();
    assert_eq!(m.v[1], 4);
    assert_eq!(m.v[15], 0);
}

#[test]
fn sub_flag_is_no_borrow() {
    let mut m = Machine::new();
    m.v[1] = 5;
    m.v[2] = 3;
    m.load(&[0x81, 0x25]);
    m.step(0, 0).unwrap();
    assert_eq!(m.v[1], 2);
    assert_eq!(m.v[15], 1);
}

#[test]
fn sub_with_borrow_wraps() {
    let mut m = Machine::new();
    m.v[1] = 3;
    m.v[2] = 5;
    m.load(&[0x81, 0x25]);
    m.step(0, 0).unwrap();
    assert_eq!(m.v[1], 254);
    assert_eq!(m.v[15], 0);
}

#[test]
fn sub_equal_operands_sets_flag() {
    let mut m = Machine::new();
    m.v[1] = 7;
    m.v[2] = 7;
    m.load(&[0x81, 0x25]);
    m.step(0, 0).unwrap();
    assert_eq!(m.v[1], 0);
    assert_eq!(m.v[15], 1);
}

#[test]
fn subn_is_reversed_sub() {
    let mut m = Machine::new();
    m.v[1] = 3;
    m.v[2] = 5;
    m.load(&[0x81, 0x27]);
    m.step(0, 0).unwrap();
    assert_eq!(m.v[1], 2);
    assert_eq!(m.v[15], 1);
}

#[test]
fn shr_flag_is_low_bit() {
    let mut m = Machine::new();
    m.v[1] = 0b1010_0101;
    m.load(&[0x81, 0x06]);
    m.step(0, 0).unwrap();
    assert_eq!(m.v[1], 0b0101_0010);
    assert_eq!(m.v[15], 1);

    let mut m = Machine::new();
    m.v[1] = 0b1010_0100;
    m.load(&[0x81, 0x06]);
    m.step(0, 0).unwrap();
    assert_eq!(m.v[1], 0b0101_0010);
    assert_eq!(m.v[15], 0);
}

#[test]
fn shl_flag_is_high_bit() {
    let mut m = Machine::new();
    m.v[1] = 0b1010_0101;
    m.load(&[0x81, 0x0E]);
    m.step(0, 0).unwrap();
    assert_eq!(m.v[1], 0b0100_1010);
    assert_eq!(m.v[15], 1);

    let mut m = Machine::new();
    m.v[1] = 0b0010_0101;
    m.load(&[0x81, 0x0E]);
    m.step(0, 0).unwrap();
    assert_eq!(m.v[1], 0b0100_1010);
    assert_eq!(m.v[15], 0);
}

#[test]
fn bitwise_ops() {
    let mut m = Machine::new();
    m.v[1] = 0b1100;
    m.v[2] = 0b1010;
    m.load(&[0x81, 0x21]);
    m.step(0, 0).unwrap();
    assert_eq!(m.v[1], 0b1110);

    let mut m = Machine::new();
    m.v[1] = 0b1100;
    m.v[2] = 0b1010;
    m.load(&[0x81, 0x22]);
    m.step(0, 0).unwrap();
    assert_eq!(m.v[1], 0b1000);

    let mut m = Machine::new();
    m.v[1] = 0b1100;
    m.v[2] = 0b1010;
    m.load(&[0x81, 0x23]);
    m.step(0, 0).unwrap();
    assert_eq!(m.v[1], 0b0110);
}

#[test]
fn copy_and_load_immediate() {
    let mut m = Machine::new();
    m.v[2] = 9;
    m.load(&[0x81, 0x20, 0x63, 0x42]);
    m.step(0, 0).unwrap();
    assert_eq!(m.v[1], 9);
    m.step(0, 0).unwrap();
    assert_eq!(m.v[3], 0x42);
}

#[test]
fn random_masked_to_zero() {
    // Whatever byte the generator returns, the mask pins the result.
    let mut m = Machine::new();
    m.v[1] = 77;
    m.load(&[0xC1, 0x00, 0xC2, 0x0F]);
    m.step(0, 0).unwrap();
    assert_eq!(m.v[1], 0);
    m.step(0, 0).unwrap();
    assert!(m.v[2] <= 0x0F);
}
