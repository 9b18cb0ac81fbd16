//! The instruction set: a tagged value per opcode family and a pure, total
//! decoder from a raw 16-bit word.

use vstd::prelude::*;

use crate::error::Error;

verus! {

/// A general-purpose register index, 0 to 15, as decoded from a 4-bit field.
pub type Reg = usize;

/// One decoded instruction. Registers are named by index; `u16` payloads are
/// 12-bit addresses; `u8` payloads are immediate bytes or sprite heights.
#[derive(Debug, Clone, Copy, PartialEq, Eq, Structural)]
pub enum Ins {
    /// `0nnn`: legacy machine-code call, deliberately a no-op here.
    Sys(u16),
    /// `00E0`: blank the framebuffer.
    Cls,
    /// `00EE`: pop the stack into the program counter.
    Ret,
    /// `1nnn`: jump to `nnn`.
    Jp(u16),
    /// `2nnn`: push the program counter, jump to `nnn`.
    Call(u16),
    /// `3xnn`: skip the next instruction if `Vx == nn`.
    SeVB(Reg, u8),
    /// `4xnn`: skip the next instruction if `Vx != nn`.
    SneVB(Reg, u8),
    /// `5xy0`: skip the next instruction if `Vx == Vy`.
    SeVV(Reg, Reg),
    /// `6xnn`: `Vx := nn`.
    LdVB(Reg, u8),
    /// `7xnn`: `Vx := Vx + nn`, wrapping, no flag.
    AddVB(Reg, u8),
    /// `8xy0`: `Vx := Vy`.
    LdVV(Reg, Reg),
    /// `8xy1`: `Vx := Vx | Vy`.
    Or(Reg, Reg),
    /// `8xy2`: `Vx := Vx & Vy`.
    And(Reg, Reg),
    /// `8xy3`: `Vx := Vx ^ Vy`.
    Xor(Reg, Reg),
    /// `8xy4`: `Vx := Vx + Vy` wrapping; `VF := 1` on carry else `0`.
    AddVV(Reg, Reg),
    /// `8xy5`: `Vx := Vx - Vy` wrapping; `VF := 1` if no borrow (`Vx >= Vy`).
    Sub(Reg, Reg),
    /// `8xy6`: `VF := low bit of Vx`, then `Vx := Vx >> 1`.
    Shr(Reg),
    /// `8xy7`: `Vx := Vy - Vx` wrapping; `VF := 1` if no borrow (`Vy >= Vx`).
    Subn(Reg, Reg),
    /// `8xyE`: `VF := high bit of Vx`, then `Vx := Vx << 1`.
    Shl(Reg),
    /// `9xy0`: skip the next instruction if `Vx != Vy`.
    SneVV(Reg, Reg),
    /// `Annn`: `I := nnn`.
    LdI(u16),
    /// `Bnnn`: jump to `V0 + nnn`.
    JpV0(u16),
    /// `Cxnn`: `Vx := random byte & nn`.
    Rnd(Reg, u8),
    /// `Dxyn`: XOR-blit the `n`-row sprite at `memory[I..]` to `(Vx, Vy)`.
    Drw(Reg, Reg, u8),
    /// `Ex9E`: skip the next instruction if key `Vx` is held down.
    Skp(Reg),
    /// `ExA1`: skip the next instruction if key `Vx` is not held down.
    Sknp(Reg),
    /// `Fx07`: `Vx := delay timer`.
    LdVDt(Reg),
    /// `Fx0A`: block until a key is newly pressed, then `Vx := its code`.
    LdVK(Reg),
    /// `Fx15`: `delay timer := Vx`.
    LdDtV(Reg),
    /// `Fx18`: `sound timer := Vx`.
    LdStV(Reg),
    /// `Fx1E`: `I := I + Vx`, wrapping at 16 bits.
    AddI(Reg),
    /// `Fx29`: `I` := address of the built-in glyph for digit `Vx mod 10`.
    LdFV(Reg),
    /// `Fx33`: store the three decimal digits of `Vx` at `I`, `I+1`, `I+2`.
    LdBV(Reg),
    /// `Fx55`: copy `V0..=Vx` into `memory[I..=I+x]`.
    LdIlocV(Reg),
    /// `Fx65`: copy `memory[I..=I+x]` into `V0..=Vx`.
    LdVIloc(Reg),
}

/// The decode table as a mathematical function: `None` is a decode failure.
/// The word splits into four nibbles `n1 n2 n3 n4`; `x = n2`, `y = n3`,
/// `nn` is the low byte and `nnn` the low 12 bits.
pub open spec fn spec_decode(op: u16) -> Option<Ins> {
    let n1 = op / 0x1000;
    let x = ((op / 0x100) % 0x10) as usize;
    let y = ((op / 0x10) % 0x10) as usize;
    let n4 = op % 0x10;
    let nn = (op % 0x100) as u8;
    let nnn = op % 0x1000;
    if op == 0x00E0 {
        Some(Ins::Cls)
    } else if op == 0x00EE {
        Some(Ins::Ret)
    } else if n1 == 0x0 {
        Some(Ins::Sys(nnn))
    } else if n1 == 0x1 {
        Some(Ins::Jp(nnn))
    } else if n1 == 0x2 {
        Some(Ins::Call(nnn))
    } else if n1 == 0x3 {
        Some(Ins::SeVB(x, nn))
    } else if n1 == 0x4 {
        Some(Ins::SneVB(x, nn))
    } else if n1 == 0x5 && n4 == 0x0 {
        Some(Ins::SeVV(x, y))
    } else if n1 == 0x6 {
        Some(Ins::LdVB(x, nn))
    } else if n1 == 0x7 {
        Some(Ins::AddVB(x, nn))
    } else if n1 == 0x8 && n4 == 0x0 {
        Some(Ins::LdVV(x, y))
    } else if n1 == 0x8 && n4 == 0x1 {
        Some(Ins::Or(x, y))
    } else if n1 == 0x8 && n4 == 0x2 {
        Some(Ins::And(x, y))
    } else if n1 == 0x8 && n4 == 0x3 {
        Some(Ins::Xor(x, y))
    } else if n1 == 0x8 && n4 == 0x4 {
        Some(Ins::AddVV(x, y))
    } else if n1 == 0x8 && n4 == 0x5 {
        Some(Ins::Sub(x, y))
    } else if n1 == 0x8 && n4 == 0x6 {
        Some(Ins::Shr(x))
    } else if n1 == 0x8 && n4 == 0x7 {
        Some(Ins::Subn(x, y))
    } else if n1 == 0x8 && n4 == 0xE {
        Some(Ins::Shl(x))
    } else if n1 == 0x9 && n4 == 0x0 {
        Some(Ins::SneVV(x, y))
    } else if n1 == 0xA {
        Some(Ins::LdI(nnn))
    } else if n1 == 0xB {
        Some(Ins::JpV0(nnn))
    } else if n1 == 0xC {
        Some(Ins::Rnd(x, nn))
    } else if n1 == 0xD {
        Some(Ins::Drw(x, y, n4 as u8))
    } else if n1 == 0xE && nn == 0x9E {
        Some(Ins::Skp(x))
    } else if n1 == 0xE && nn == 0xA1 {
        Some(Ins::Sknp(x))
    } else if n1 == 0xF && nn == 0x07 {
        Some(Ins::LdVDt(x))
    } else if n1 == 0xF && nn == 0x0A {
        Some(Ins::LdVK(x))
    } else if n1 == 0xF && nn == 0x15 {
        Some(Ins::LdDtV(x))
    } else if n1 == 0xF && nn == 0x18 {
        Some(Ins::LdStV(x))
    } else if n1 == 0xF && nn == 0x1E {
        Some(Ins::AddI(x))
    } else if n1 == 0xF && nn == 0x29 {
        Some(Ins::LdFV(x))
    } else if n1 == 0xF && nn == 0x33 {
        Some(Ins::LdBV(x))
    } else if n1 == 0xF && nn == 0x55 {
        Some(Ins::LdIlocV(x))
    } else if n1 == 0xF && nn == 0x65 {
        Some(Ins::LdVIloc(x))
    } else {
        None
    }
}

/// Every field of a decoded instruction is in range: register indices below
/// 16, addresses at most `0xFFF`, sprite heights at most 15.
pub open spec fn ins_wf(i: Ins) -> bool {
    match i {
        Ins::Sys(a) => a <= 0xFFF,
        Ins::Cls => true,
        Ins::Ret => true,
        Ins::Jp(a) => a <= 0xFFF,
        Ins::Call(a) => a <= 0xFFF,
        Ins::SeVB(x, _) => x < 16,
        Ins::SneVB(x, _) => x < 16,
        Ins::SeVV(x, y) => x < 16 && y < 16,
        Ins::LdVB(x, _) => x < 16,
        Ins::AddVB(x, _) => x < 16,
        Ins::LdVV(x, y) => x < 16 && y < 16,
        Ins::Or(x, y) => x < 16 && y < 16,
        Ins::And(x, y) => x < 16 && y < 16,
        Ins::Xor(x, y) => x < 16 && y < 16,
        Ins::AddVV(x, y) => x < 16 && y < 16,
        Ins::Sub(x, y) => x < 16 && y < 16,
        Ins::Shr(x) => x < 16,
        Ins::Subn(x, y) => x < 16 && y < 16,
        Ins::Shl(x) => x < 16,
        Ins::SneVV(x, y) => x < 16 && y < 16,
        Ins::LdI(a) => a <= 0xFFF,
        Ins::JpV0(a) => a <= 0xFFF,
        Ins::Rnd(x, _) => x < 16,
        Ins::Drw(x, y, n) => x < 16 && y < 16 && n <= 15,
        Ins::Skp(x) => x < 16,
        Ins::Sknp(x) => x < 16,
        Ins::LdVDt(x) => x < 16,
        Ins::LdVK(x) => x < 16,
        Ins::LdDtV(x) => x < 16,
        Ins::LdStV(x) => x < 16,
        Ins::AddI(x) => x < 16,
        Ins::LdFV(x) => x < 16,
        Ins::LdBV(x) => x < 16,
        Ins::LdIlocV(x) => x < 16,
        Ins::LdVIloc(x) => x < 16,
    }
}

/// Whatever the decoder accepts is well formed.
pub proof fn lemma_decode_wf(op: u16)
    ensures
        spec_decode(op) matches Some(i) ==> ins_wf(i),
{
}

impl Ins {
    /// Decode one raw word. Pure and deterministic: returns exactly
    /// `spec_decode`'s value, or a decode error carrying the word where the
    /// table has no entry.
    pub fn decode(opcode: u16) -> (r: Result<Self, Error>)
        ensures
            r == (match spec_decode(opcode) {
                Some(i) => Ok::<Ins, Error>(i),
                None => Err::<Ins, Error>(Error::Opcode(opcode)),
            }),
    {
        let n1 = opcode / 0x1000;
        let x = ((opcode / 0x100) % 0x10) as usize;
        let y = ((opcode / 0x10) % 0x10) as usize;
        let n4 = opcode % 0x10;
        let nn = (opcode % 0x100) as u8;
        let nnn = opcode % 0x1000;
        if opcode == 0x00E0 {
            Ok(Self::Cls)
        } else if opcode == 0x00EE {
            Ok(Self::Ret)
        } else if n1 == 0x0 {
            Ok(Self::Sys(nnn))
        } else if n1 == 0x1 {
            Ok(Self::Jp(nnn))
        } else if n1 == 0x2 {
            Ok(Self::Call(nnn))
        } else if n1 == 0x3 {
            Ok(Self::SeVB(x, nn))
        } else if n1 == 0x4 {
            Ok(Self::SneVB(x, nn))
        } else if n1 == 0x5 && n4 == 0x0 {
            Ok(Self::SeVV(x, y))
        } else if n1 == 0x6 {
            Ok(Self::LdVB(x, nn))
        } else if n1 == 0x7 {
            Ok(Self::AddVB(x, nn))
        } else if n1 == 0x8 && n4 == 0x0 {
            Ok(Self::LdVV(x, y))
        } else if n1 == 0x8 && n4 == 0x1 {
            Ok(Self::Or(x, y))
        } else if n1 == 0x8 && n4 == 0x2 {
            Ok(Self::And(x, y))
        } else if n1 == 0x8 && n4 == 0x3 {
            Ok(Self::Xor(x, y))
        } else if n1 == 0x8 && n4 == 0x4 {
            Ok(Self::AddVV(x, y))
        } else if n1 == 0x8 && n4 == 0x5 {
            Ok(Self::Sub(x, y))
        } else if n1 == 0x8 && n4 == 0x6 {
            Ok(Self::Shr(x))
        } else if n1 == 0x8 && n4 == 0x7 {
            Ok(Self::Subn(x, y))
        } else if n1 == 0x8 && n4 == 0xE {
            Ok(Self::Shl(x))
        } else if n1 == 0x9 && n4 == 0x0 {
            Ok(Self::SneVV(x, y))
        } else if n1 == 0xA {
            Ok(Self::LdI(nnn))
        } else if n1 == 0xB {
            Ok(Self::JpV0(nnn))
        } else if n1 == 0xC {
            Ok(Self::Rnd(x, nn))
        } else if n1 == 0xD {
            Ok(Self::Drw(x, y, n4 as u8))
        } else if n1 == 0xE && nn == 0x9E {
            Ok(Self::Skp(x))
        } else if n1 == 0xE && nn == 0xA1 {
            Ok(Self::Sknp(x))
        } else if n1 == 0xF && nn == 0x07 {
            Ok(Self::LdVDt(x))
        } else if n1 == 0xF && nn == 0x0A {
            Ok(Self::LdVK(x))
        } else if n1 == 0xF && nn == 0x15 {
            Ok(Self::LdDtV(x))
        } else if n1 == 0xF && nn == 0x18 {
            Ok(Self::LdStV(x))
        } else if n1 == 0xF && nn == 0x1E {
            Ok(Self::AddI(x))
        } else if n1 == 0xF && nn == 0x29 {
            Ok(Self::LdFV(x))
        } else if n1 == 0xF && nn == 0x33 {
            Ok(Self::LdBV(x))
        } else if n1 == 0xF && nn == 0x55 {
            Ok(Self::LdIlocV(x))
        } else if n1 == 0xF && nn == 0x65 {
            Ok(Self::LdVIloc(x))
        } else {
            Err(Error::Opcode(opcode))
        }
    }
}

} // verus!
