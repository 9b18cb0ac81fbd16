use r8::error::Error;
use r8::ins::Ins;

#[test]
fn decode_clear_and_bad_word() {
    assert_eq!(Ins::decode(0x00E0), Ok(Ins::Cls));
    assert_eq!(Ins::decode(0xFFFF), Err(Error::Opcode(0xFFFF)));
}

#[test]
fn decode_system_and_flow() {
    assert_eq!(Ins::decode(0x00EE), Ok(Ins::Ret));
    assert_eq!(Ins::decode(0x0123), Ok(Ins::Sys(0x123)));
    assert_eq!(Ins::decode(0x1ABC), Ok(Ins::Jp(0xABC)));
    assert_eq!(Ins::decode(0x2ABC), Ok(Ins::Call(0xABC)));
    assert_eq!(Ins::decode(0xB123), Ok(Ins::JpV0(0x123)));
}

#[test]
fn decode_skips() {
    assert_eq!(Ins::decode(0x3A42), Ok(Ins::SeVB(0xA, 0x42)));
    assert_eq!(Ins::decode(0x4A42), Ok(Ins::SneVB(0xA, 0x42)));
    assert_eq!(Ins::decode(0x5AB0), Ok(Ins::SeVV(0xA, 0xB)));
    assert_eq!(Ins::decode(0x9AB0), Ok(Ins::SneVV(0xA, 0xB)));
    assert_eq!(Ins::decode(0x5AB1), Err(Error::Opcode(0x5AB1)));
    assert_eq!(Ins::decode(0x9AB7), Err(Error::Opcode(0x9AB7)));
}

#[test]
fn decode_loads_and_alu() {
    assert_eq!(Ins::decode(0x6A42), Ok(Ins::LdVB(0xA, 0x42)));
    assert_eq!(Ins::decode(0x7A42), Ok(Ins::AddVB(0xA, 0x42)));
    assert_eq!(Ins::decode(0x8AB0), Ok(Ins::LdVV(0xA, 0xB)));
    assert_eq!(Ins::decode(0x8AB1), Ok(Ins::Or(0xA, 0xB)));
    assert_eq!(Ins::decode(0x8AB2), Ok(Ins::And(0xA, 0xB)));
    assert_eq!(Ins::decode(0x8AB3), Ok(Ins::Xor(0xA, 0xB)));
    assert_eq!(Ins::decode(0x8AB4), Ok(Ins::AddVV(0xA, 0xB)));
    assert_eq!(Ins::decode(0x8AB5), Ok(Ins::Sub(0xA, 0xB)));
    assert_eq!(Ins::decode(0x8AB6), Ok(Ins::Shr(0xA)));
    assert_eq!(Ins::decode(0x8AB7), Ok(Ins::Subn(0xA, 0xB)));
    assert_eq!(Ins::decode(0x8ABE), Ok(Ins::Shl(0xA)));
    assert_eq!(Ins::decode(0x8AB8), Err(Error::Opcode(0x8AB8)));
    assert_eq!(Ins::decode(0x8ABF), Err(Error::Opcode(0x8ABF)));
}

#[test]
fn decode_index_draw_random() {
    assert_eq!(Ins::decode(0xA123), Ok(Ins::LdI(0x123)));
    assert_eq!(Ins::decode(0xC742), Ok(Ins::Rnd(7, 0x42)));
    assert_eq!(Ins::decode(0xD125), Ok(Ins::Drw(1, 2, 5)));
}

#[test]
fn decode_keys_and_timers() {
    assert_eq!(Ins::decode(0xE29E), Ok(Ins::Skp(2)));
    assert_eq!(Ins::decode(0xE2A1), Ok(Ins::Sknp(2)));
    assert_eq!(Ins::decode(0xE2A2), Err(Error::Opcode(0xE2A2)));
    assert_eq!(Ins::decode(0xF207), Ok(Ins::LdVDt(2)));
    assert_eq!(Ins::decode(0xF20A), Ok(Ins::LdVK(2)));
    assert_eq!(Ins::decode(0xF215), Ok(Ins::LdDtV(2)));
    assert_eq!(Ins::decode(0xF218), Ok(Ins::LdStV(2)));
    assert_eq!(Ins::decode(0xF21E), Ok(Ins::AddI(2)));
    assert_eq!(Ins::decode(0xF229), Ok(Ins::LdFV(2)));
    assert_eq!(Ins::decode(0xF233), Ok(Ins::LdBV(2)));
    assert_eq!(Ins::decode(0xF255), Ok(Ins::LdIlocV(2)));
    assert_eq!(Ins::decode(0xF265), Ok(Ins::LdVIloc(2)));
    assert_eq!(Ins::decode(0xF299), Err(Error::Opcode(0xF299)));
}
