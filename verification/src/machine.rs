//! The virtual machine: registers, memory, stack, timers, framebuffer and
//! input snapshots, with a single-step fetch-decode-execute engine.
//!
//! The step function takes the current set of pressed keypad codes (a 16-bit
//! mask, one bit per key 0x0..0xF) and the current clock reading in
//! microseconds; the caller owns the real keyboard and the real clock, which
//! keeps every transition here deterministic and fully specified, except for
//! the random-byte instruction, whose byte comes from an outside generator.

use vstd::prelude::*;

use crate::error::Error;
use crate::ins::{Ins, Reg, spec_decode, ins_wf, lemma_decode_wf};

verus! {

/// Framebuffer width in pixels.
pub const DISPLAY_WIDTH: usize = 64;

/// Framebuffer height in pixels.
pub const DISPLAY_HEIGHT: usize = 32;

/// Number of framebuffer cells.
pub const DISPLAY_SIZE: usize = 2048;

/// Addressable memory in bytes.
pub const MEMORY_SIZE: usize = 4096;

/// Where loaded programs begin, and the initial program counter.
pub const PROGRAM_START: usize = 0x200;

/// Microseconds per timer tick: the timers decay at 60 Hz.
pub const TICK_MICROS: u64 = 16667;

/// What a step reports on success.
#[derive(Debug, Clone, Copy, PartialEq, Eq, Structural)]
pub struct StepResult {
    /// The instruction changed the framebuffer, so the screen should be
    /// redrawn (only the clear and sprite-draw instructions set this).
    pub redraw: bool,
    /// The sound timer was nonzero this step, so a tone should be audible.
    pub sound: bool,
}

/// The machine state. The fields are plain values so that every transition
/// can be stated exactly; `step` mutates them in place.
pub struct Machine {
    /// Program counter: address of the next instruction word.
    pub pc: u16,
    /// Index register, used as a memory pointer by sprite, BCD and block
    /// transfer instructions.
    pub i: u16,
    /// The sixteen general-purpose byte registers V0..VF.
    pub v: Vec<u8>,
    /// 4096 bytes of memory; the font lives at 0x000..0x050, programs load
    /// at 0x200.
    pub memory: Vec<u8>,
    /// Call stack of return addresses.
    pub stack: Vec<u16>,
    /// 64x32 framebuffer, row-major: cell `y * 64 + x`.
    pub display: Vec<bool>,
    /// Delay timer, decremented at 60 Hz, floored at zero.
    pub dt: u8,
    /// Sound timer, decremented at 60 Hz, floored at zero.
    pub st: u8,
    /// Clock reading (microseconds) of the last whole timer tick, or `None`
    /// before the first step.
    pub last_tick: Option<u64>,
    /// Pressed-key mask of the current step: bit `k` set means key `k` held.
    pub keys: u16,
    /// Pressed-key mask of the previous step, for edge detection.
    pub old_keys: u16,
}

/// The machine as a mathematical value: sequences in place of vectors.
#[verifier::ext_equal]
pub ghost struct State {
    pub pc: u16,
    pub i: u16,
    pub v: Seq<u8>,
    pub mem: Seq<u8>,
    pub stack: Seq<u16>,
    pub disp: Seq<bool>,
    pub dt: u8,
    pub st: u8,
    pub last_tick: Option<u64>,
    pub keys: u16,
    pub old_keys: u16,
}

impl View for Machine {
    type V = State;

    open spec fn view(&self) -> State {
        State {
            pc: self.pc,
            i: self.i,
            v: self.v@,
            mem: self.memory@,
            stack: self.stack@,
            disp: self.display@,
            dt: self.dt,
            st: self.st,
            last_tick: self.last_tick,
            keys: self.keys,
            old_keys: self.old_keys,
        }
    }
}

impl State {
    /// The fixed shapes of the machine: sixteen registers, 4096 bytes of
    /// memory, 2048 framebuffer cells.
    pub open spec fn wf(self) -> bool {
        self.v.len() == 16 && self.mem.len() == 4096 && self.disp.len() == 2048
    }
}

// ---------------------------------------------------------------------------
// Timers
// ---------------------------------------------------------------------------

/// Whole 60 Hz ticks elapsed between two clock readings (zero if the clock
/// moved backwards).
pub open spec fn whole_ticks(last: u64, now: u64) -> int {
    if now >= last {
        (now - last) / (TICK_MICROS as int)
    } else {
        0
    }
}

/// A timer after `k` ticks of decay: decremented by `k`, floored at zero.
pub open spec fn timer_decayed(t: u8, k: int) -> u8 {
    if k >= t {
        0
    } else {
        (t - k) as u8
    }
}

/// Delay timer after the clock advanced to `now`.
pub open spec fn dt_after(pre: State, now: u64) -> u8 {
    match pre.last_tick {
        None => pre.dt,
        Some(l) => timer_decayed(pre.dt, whole_ticks(l, now)),
    }
}

/// Sound timer after the clock advanced to `now`.
pub open spec fn st_after(pre: State, now: u64) -> u8 {
    match pre.last_tick {
        None => pre.st,
        Some(l) => timer_decayed(pre.st, whole_ticks(l, now)),
    }
}

/// The tick timestamp after the clock advanced to `now`: it moves only by
/// whole ticks, so fractional tick time is never dropped.
pub open spec fn last_tick_after(pre: State, now: u64) -> Option<u64> {
    match pre.last_tick {
        None => Some(now),
        Some(l) => {
            let k = whole_ticks(l, now);
            if k > 0 {
                Some((l + k * (TICK_MICROS as int)) as u64)
            } else {
                Some(l)
            }
        },
    }
}

// ---------------------------------------------------------------------------
// Keys
// ---------------------------------------------------------------------------

/// Whether key `k` is held down in the mask `keys`.
pub open spec fn key_down(keys: u16, k: u8) -> bool {
    k < 16 && (keys >> (k as u16)) & 1 == 1
}

/// Whether key `k` was just pressed: down now, up in the previous snapshot.
pub open spec fn is_edge(cur: u16, old_set: u16, k: u8) -> bool {
    key_down(cur, k) && !key_down(old_set, k)
}

/// The lowest newly pressed key code at or above `k`, if any.
pub open spec fn first_edge_from(cur: u16, old_set: u16, k: u8) -> Option<u8>
    decreases 16 - k,
{
    if k >= 16 {
        None
    } else if is_edge(cur, old_set, k) {
        Some(k)
    } else {
        first_edge_from(cur, old_set, (k + 1) as u8)
    }
}

// ---------------------------------------------------------------------------
// Arithmetic
// ---------------------------------------------------------------------------

/// Byte addition, wrapping at 256.
pub open spec fn wrap_add(a: u8, b: u8) -> u8 {
    if a + b > 255 {
        (a + b - 256) as u8
    } else {
        (a + b) as u8
    }
}

/// The carry flag of byte addition: 1 exactly when `a + b` overflows a byte.
pub open spec fn carry_add(a: u8, b: u8) -> u8 {
    if a + b > 255 {
        1
    } else {
        0
    }
}

/// Byte subtraction `a - b`, wrapping at 256.
pub open spec fn wrap_sub(a: u8, b: u8) -> u8 {
    if a >= b {
        (a - b) as u8
    } else {
        (a - b + 256) as u8
    }
}

/// The no-borrow flag of byte subtraction: 1 exactly when `a >= b`.
pub open spec fn no_borrow(a: u8, b: u8) -> u8 {
    if a >= b {
        1
    } else {
        0
    }
}

/// 16-bit addition, wrapping at 65536 (used by the add-to-index
/// instruction; the index register itself may hold any 16-bit value, and
/// only a memory access through it can fault).
pub open spec fn wrap_add16(a: u16, b: u16) -> u16 {
    if a + b > 0xFFFF {
        (a + b - 0x10000) as u16
    } else {
        (a + b) as u16
    }
}

// ---------------------------------------------------------------------------
// Sprite drawing
// ---------------------------------------------------------------------------

/// Row-major framebuffer index of column `cx`, row `cy`.
pub open spec fn px_index(cx: int, cy: int) -> int {
    cy * 64 + cx
}

/// Bit `c` (from the left) of sprite row `r`, read from memory at `base`.
pub open spec fn sprite_bit(mem: Seq<u8>, base: int, r: int, c: int) -> bool {
    (mem[base + r] >> ((7 - c) as u8)) & 1 == 1
}

/// The framebuffer after XOR-blitting an `n`-row, 8-bit-wide sprite from
/// memory at `base` to wrapped coordinates `(vx mod 64, vy mod 32)`. Each
/// cell is toggled by the sprite bit that lands on it; rows and columns wrap
/// toroidally. For a cell `p`, `(p % 64 - vx) % 64` recovers which sprite
/// column lands there (Euclidean remainder, so always in 0..64) and
/// similarly for the row.
pub open spec fn blit(disp: Seq<bool>, mem: Seq<u8>, base: int, vx: int, vy: int, n: int) -> Seq<
    bool,
> {
    Seq::new(
        2048,
        |p: int|
            {
                let c = (p % 64 - vx) % 64;
                let r = (p / 64 - vy) % 32;
                if r < n && c < 8 {
                    disp[p] ^ sprite_bit(mem, base, r, c)
                } else {
                    disp[p]
                }
            },
    )
}

/// Whether the blit turns any lit pixel off: a set sprite bit lands on a
/// cell that is already on.
pub open spec fn draw_collides(
    disp: Seq<bool>,
    mem: Seq<u8>,
    base: int,
    vx: int,
    vy: int,
    n: int,
) -> bool {
    exists|r: int, c: int|
        0 <= r < n && 0 <= c < 8 && sprite_bit(mem, base, r, c) && disp[px_index(
            (vx + c) % 64,
            (vy + r) % 32,
        )]
}

// ---------------------------------------------------------------------------
// Fetch
// ---------------------------------------------------------------------------

/// The big-endian 16-bit word at address `a`.
pub open spec fn word_at(mem: Seq<u8>, a: int) -> u16 {
    (mem[a] * 256 + mem[a + 1]) as u16
}

// ---------------------------------------------------------------------------
// Initial state
// ---------------------------------------------------------------------------

/// The built-in font: sixteen 5-byte glyphs for the hexadecimal digits.
pub open spec fn font_seq() -> Seq<u8> {
    seq![
        0xF0u8, 0x90, 0x90, 0x90, 0xF0,
        0x20, 0x60, 0x20, 0x20, 0x70,
        0xF0, 0x10, 0xF0, 0x80, 0xF0,
        0xF0, 0x10, 0xF0, 0x10, 0xF0,
        0x90, 0x90, 0xF0, 0x10, 0x10,
        0xF0, 0x80, 0xF0, 0x10, 0xF0,
        0xF0, 0x80, 0xF0, 0x90, 0xF0,
        0xF0, 0x10, 0x20, 0x40, 0x40,
        0xF0, 0x90, 0xF0, 0x90, 0xF0,
        0xF0, 0x90, 0xF0, 0x10, 0xF0,
        0xF0, 0x90, 0xF0, 0x90, 0x90,
        0xE0, 0x90, 0xE0, 0x90, 0xE0,
        0xF0, 0x80, 0x80, 0x80, 0xF0,
        0xE0, 0x90, 0x90, 0x90, 0xE0,
        0xF0, 0x80, 0xF0, 0x80, 0xF0,
        0xF0, 0x80, 0xF0, 0x80, 0x80,
    ]
}

/// Memory at construction: the font, then zeroes.
pub open spec fn mem_init() -> Seq<u8> {
    Seq::new(4096, |a: int| if a < 80 { font_seq()[a] } else { 0u8 })
}

/// An all-off framebuffer.
pub open spec fn blank_display() -> Seq<bool> {
    Seq::new(2048, |p: int| false)
}

// ---------------------------------------------------------------------------
// The step relation
// ---------------------------------------------------------------------------

/// `post` is `pre` with the listed components replaced; the tick timestamp
/// and both key snapshots are untouched (no instruction writes them).
pub open spec fn updates(
    pre: State,
    post: State,
    pc: u16,
    i: u16,
    v: Seq<u8>,
    mem: Seq<u8>,
    stack: Seq<u16>,
    disp: Seq<bool>,
    dt: u8,
    st: u8,
) -> bool {
    &&& post.pc == pc
    &&& post.i == i
    &&& post.v == v
    &&& post.mem == mem
    &&& post.stack == stack
    &&& post.disp == disp
    &&& post.dt == dt
    &&& post.st == st
    &&& post.last_tick == pre.last_tick
    &&& post.keys == pre.keys
    &&& post.old_keys == pre.old_keys
}

/// An instruction that failed: the error is reported and the state is left
/// exactly as it was after fetch (the program counter already advanced).
pub open spec fn exec_fault(pre: State, post: State, r: Result<StepResult, Error>, e: Error) -> bool {
    &&& r == Err::<StepResult, Error>(e)
    &&& updates(pre, post, pre.pc, pre.i, pre.v, pre.mem, pre.stack, pre.disp, pre.dt, pre.st)
}

/// How one decoded instruction transforms the state. `pre` is the state
/// after the step prelude: timers decayed, key snapshots shifted, and the
/// program counter already advanced past the instruction word, so jumps and
/// skips overwrite the advanced counter. `sound` is what the step reports
/// for audibility (fixed before execution).
///
/// Conventions this relation pins down:
/// - ALU flag writes go to VF first, the result second, both computed from
///   the operand values before the instruction; if the destination is VF
///   itself the result wins.
/// - Subtraction flags follow the no-borrow convention: `VF = 1` iff the
///   minuend is greater than or equal to the subtrahend.
/// - Memory accesses through the index register that would pass the 4096-
///   byte end fault with `AddressOutOfRange` instead of wrapping.
/// - The wait-for-key instruction rewinds the program counter by 2 when no
///   key was newly pressed, so the same instruction re-executes next step;
///   when several keys were newly pressed, the lowest code wins.
pub open spec fn exec_rel(
    pre: State,
    ins: Ins,
    sound: bool,
    post: State,
    r: Result<StepResult, Error>,
) -> bool {
    let ok = Ok::<StepResult, Error>(StepResult { redraw: false, sound });
    let ok_redraw = Ok::<StepResult, Error>(StepResult { redraw: true, sound });
    match ins {
        Ins::Sys(_) => r == ok && updates(pre, post, pre.pc, pre.i, pre.v, pre.mem, pre.stack, pre.disp, pre.dt, pre.st),
        Ins::Cls => r == ok_redraw && updates(pre, post, pre.pc, pre.i, pre.v, pre.mem, pre.stack, blank_display(), pre.dt, pre.st),
        Ins::Ret => {
            if pre.stack.len() == 0 {
                exec_fault(pre, post, r, Error::StackUnderflow)
            } else {
                r == ok && updates(pre, post, pre.stack.last(), pre.i, pre.v, pre.mem, pre.stack.drop_last(), pre.disp, pre.dt, pre.st)
            }
        },
        Ins::Jp(a) => r == ok && updates(pre, post, a, pre.i, pre.v, pre.mem, pre.stack, pre.disp, pre.dt, pre.st),
        Ins::Call(a) => r == ok && updates(pre, post, a, pre.i, pre.v, pre.mem, pre.stack.push(pre.pc), pre.disp, pre.dt, pre.st),
        Ins::SeVB(x, b) => {
            let pc2 = if pre.v[x as int] == b { (pre.pc + 2) as u16 } else { pre.pc };
            r == ok && updates(pre, post, pc2, pre.i, pre.v, pre.mem, pre.stack, pre.disp, pre.dt, pre.st)
        },
        Ins::SneVB(x, b) => {
            let pc2 = if pre.v[x as int] != b { (pre.pc + 2) as u16 } else { pre.pc };
            r == ok && updates(pre, post, pc2, pre.i, pre.v, pre.mem, pre.stack, pre.disp, pre.dt, pre.st)
        },
        Ins::SeVV(x, y) => {
            let pc2 = if pre.v[x as int] == pre.v[y as int] { (pre.pc + 2) as u16 } else { pre.pc };
            r == ok && updates(pre, post, pc2, pre.i, pre.v, pre.mem, pre.stack, pre.disp, pre.dt, pre.st)
        },
        Ins::SneVV(x, y) => {
            let pc2 = if pre.v[x as int] != pre.v[y as int] { (pre.pc + 2) as u16 } else { pre.pc };
            r == ok && updates(pre, post, pc2, pre.i, pre.v, pre.mem, pre.stack, pre.disp, pre.dt, pre.st)
        },
        Ins::LdVB(x, b) => r == ok && updates(pre, post, pre.pc, pre.i, pre.v.update(x as int, b), pre.mem, pre.stack, pre.disp, pre.dt, pre.st),
        Ins::AddVB(x, b) => r == ok && updates(pre, post, pre.pc, pre.i, pre.v.update(x as int, wrap_add(pre.v[x as int], b)), pre.mem, pre.stack, pre.disp, pre.dt, pre.st),
        Ins::LdVV(x, y) => r == ok && updates(pre, post, pre.pc, pre.i, pre.v.update(x as int, pre.v[y as int]), pre.mem, pre.stack, pre.disp, pre.dt, pre.st),
        Ins::Or(x, y) => r == ok && updates(pre, post, pre.pc, pre.i, pre.v.update(x as int, pre.v[x as int] | pre.v[y as int]), pre.mem, pre.stack, pre.disp, pre.dt, pre.st),
        Ins::And(x, y) => r == ok && updates(pre, post, pre.pc, pre.i, pre.v.update(x as int, pre.v[x as int] & pre.v[y as int]), pre.mem, pre.stack, pre.disp, pre.dt, pre.st),
        Ins::Xor(x, y) => r == ok && updates(pre, post, pre.pc, pre.i, pre.v.update(x as int, pre.v[x as int] ^ pre.v[y as int]), pre.mem, pre.stack, pre.disp, pre.dt, pre.st),
        Ins::AddVV(x, y) => {
            let a = pre.v[x as int];
            let b = pre.v[y as int];
            r == ok && updates(pre, post, pre.pc, pre.i, pre.v.update(15, carry_add(a, b)).update(x as int, wrap_add(a, b)), pre.mem, pre.stack, pre.disp, pre.dt, pre.st)
        },
        Ins::Sub(x, y) => {
            let a = pre.v[x as int];
            let b = pre.v[y as int];
            r == ok && updates(pre, post, pre.pc, pre.i, pre.v.update(15, no_borrow(a, b)).update(x as int, wrap_sub(a, b)), pre.mem, pre.stack, pre.disp, pre.dt, pre.st)
        },
        Ins::Shr(x) => {
            let a = pre.v[x as int];
            r == ok && updates(pre, post, pre.pc, pre.i, pre.v.update(15, (a % 2) as u8).update(x as int, a / 2), pre.mem, pre.stack, pre.disp, pre.dt, pre.st)
        },
        Ins::Subn(x, y) => {
            let a = pre.v[x as int];
            let b = pre.v[y as int];
            r == ok && updates(pre, post, pre.pc, pre.i, pre.v.update(15, no_borrow(b, a)).update(x as int, wrap_sub(b, a)), pre.mem, pre.stack, pre.disp, pre.dt, pre.st)
        },
        Ins::Shl(x) => {
            let a = pre.v[x as int];
            let hi: u8 = if a >= 128 { 1 } else { 0 };
            r == ok && updates(pre, post, pre.pc, pre.i, pre.v.update(15, hi).update(x as int, wrap_add(a, a)), pre.mem, pre.stack, pre.disp, pre.dt, pre.st)
        },
        Ins::LdI(a) => r == ok && updates(pre, post, pre.pc, a, pre.v, pre.mem, pre.stack, pre.disp, pre.dt, pre.st),
        Ins::JpV0(a) => r == ok && updates(pre, post, (pre.v[0] + a) as u16, pre.i, pre.v, pre.mem, pre.stack, pre.disp, pre.dt, pre.st),
        Ins::Rnd(x, mask) => {
            &&& r == ok
            &&& (exists|rb: u8|
                updates(pre, post, pre.pc, pre.i, pre.v.update(x as int, rb & mask), pre.mem, pre.stack, pre.disp, pre.dt, pre.st))
        },
        Ins::Drw(x, y, n) => {
            let vx = pre.v[x as int] as int;
            let vy = pre.v[y as int] as int;
            let base = pre.i as int;
            if base + n > 4096 {
                exec_fault(pre, post, r, Error::AddressOutOfRange(pre.i))
            } else {
                let flag: u8 = if draw_collides(pre.disp, pre.mem, base, vx, vy, n as int) { 1 } else { 0 };
                r == ok_redraw && updates(pre, post, pre.pc, pre.i, pre.v.update(15, flag), pre.mem, pre.stack, blit(pre.disp, pre.mem, base, vx, vy, n as int), pre.dt, pre.st)
            }
        },
        Ins::Skp(x) => {
            let pc2 = if key_down(pre.keys, pre.v[x as int]) { (pre.pc + 2) as u16 } else { pre.pc };
            r == ok && updates(pre, post, pc2, pre.i, pre.v, pre.mem, pre.stack, pre.disp, pre.dt, pre.st)
        },
        Ins::Sknp(x) => {
            let pc2 = if !key_down(pre.keys, pre.v[x as int]) { (pre.pc + 2) as u16 } else { pre.pc };
            r == ok && updates(pre, post, pc2, pre.i, pre.v, pre.mem, pre.stack, pre.disp, pre.dt, pre.st)
        },
        Ins::LdVDt(x) => r == ok && updates(pre, post, pre.pc, pre.i, pre.v.update(x as int, pre.dt), pre.mem, pre.stack, pre.disp, pre.dt, pre.st),
        Ins::LdVK(x) => {
            match first_edge_from(pre.keys, pre.old_keys, 0) {
                Some(k) => r == ok && updates(pre, post, pre.pc, pre.i, pre.v.update(x as int, k), pre.mem, pre.stack, pre.disp, pre.dt, pre.st),
                None => r == ok && updates(pre, post, (pre.pc - 2) as u16, pre.i, pre.v, pre.mem, pre.stack, pre.disp, pre.dt, pre.st),
            }
        },
        Ins::LdDtV(x) => r == ok && updates(pre, post, pre.pc, pre.i, pre.v, pre.mem, pre.stack, pre.disp, pre.v[x as int], pre.st),
        Ins::LdStV(x) => r == ok && updates(pre, post, pre.pc, pre.i, pre.v, pre.mem, pre.stack, pre.disp, pre.dt, pre.v[x as int]),
        Ins::AddI(x) => r == ok && updates(pre, post, pre.pc, wrap_add16(pre.i, pre.v[x as int] as u16), pre.v, pre.mem, pre.stack, pre.disp, pre.dt, pre.st),
        Ins::LdFV(x) => r == ok && updates(pre, post, pre.pc, ((pre.v[x as int] % 10) * 5) as u16, pre.v, pre.mem, pre.stack, pre.disp, pre.dt, pre.st),
        Ins::LdBV(x) => {
            let base = pre.i as int;
            if base + 3 > MEMORY_SIZE {
                exec_fault(pre, post, r, Error::AddressOutOfRange(pre.i))
            } else {
                let a = pre.v[x as int];
                r == ok && updates(pre, post, pre.pc, pre.i, pre.v, pre.mem.update(base, a / 100).update(base + 1, (a % 100) / 10).update(base + 2, a % 10), pre.stack, pre.disp, pre.dt, pre.st)
            }
        },
        Ins::LdIlocV(x) => {
            let base = pre.i as int;
            if base + x + 1 > MEMORY_SIZE {
                exec_fault(pre, post, r, Error::AddressOutOfRange(pre.i))
            } else {
                let mem2 = Seq::new(4096, |a: int| if base <= a <= base + x { pre.v[a - base] } else { pre.mem[a] });
                r == ok && updates(pre, post, pre.pc, pre.i, pre.v, mem2, pre.stack, pre.disp, pre.dt, pre.st)
            }
        },
        Ins::LdVIloc(x) => {
            let base = pre.i as int;
            if base + x + 1 > MEMORY_SIZE {
                exec_fault(pre, post, r, Error::AddressOutOfRange(pre.i))
            } else {
                let v2 = Seq::new(16, |j: int| if j <= x { pre.mem[base + j] } else { pre.v[j] });
                r == ok && updates(pre, post, pre.pc, pre.i, v2, pre.mem, pre.stack, pre.disp, pre.dt, pre.st)
            }
        },
    }
}

/// One whole step, from the caller's state to the next: timers decay by the
/// elapsed whole ticks, the key snapshots shift, the word at the program
/// counter is fetched big-endian and the counter advances by 2, the word is
/// decoded, and the instruction executes. A fetch past the end of memory, a
/// word the decode table refuses, and the faults of `exec_rel` each surface
/// as the error, with the state otherwise intact. The reported `sound` is
/// whether the sound timer was nonzero after the decay, before execution.
pub open spec fn step_rel(
    pre: State,
    keys: u16,
    now: u64,
    post: State,
    r: Result<StepResult, Error>,
) -> bool {
    let dt1 = dt_after(pre, now);
    let st1 = st_after(pre, now);
    let last1 = last_tick_after(pre, now);
    let mid = State {
        dt: dt1,
        st: st1,
        last_tick: last1,
        keys: keys,
        old_keys: pre.keys,
        ..pre
    };
    if pre.pc > 4094 {
        &&& r == Err::<StepResult, Error>(Error::AddressOutOfRange(pre.pc))
        &&& post == mid
    } else {
        let w = word_at(pre.mem, pre.pc as int);
        let mid2 = State { pc: (pre.pc + 2) as u16, ..mid };
        match spec_decode(w) {
            None => r == Err::<StepResult, Error>(Error::Opcode(w)) && post == mid2,
            Some(ins) => exec_rel(mid2, ins, st1 != 0, post, r),
        }
    }
}

// ---------------------------------------------------------------------------
// Construction and loading
// ---------------------------------------------------------------------------

/// Build the initial 4096 bytes: the font glyphs, then zeroes.
fn initial_memory() -> (m: Vec<u8>)
    ensures
        m@ == mem_init(),
{
    let mut m: Vec<u8> = Vec::new();
    m.push(0xF0); m.push(0x90); m.push(0x90); m.push(0x90); m.push(0xF0);
    m.push(0x20); m.push(0x60); m.push(0x20); m.push(0x20); m.push(0x70);
    m.push(0xF0); m.push(0x10); m.push(0xF0); m.push(0x80); m.push(0xF0);
    m.push(0xF0); m.push(0x10); m.push(0xF0); m.push(0x10); m.push(0xF0);
    m.push(0x90); m.push(0x90); m.push(0xF0); m.push(0x10); m.push(0x10);
    m.push(0xF0); m.push(0x80); m.push(0xF0); m.push(0x10); m.push(0xF0);
    m.push(0xF0); m.push(0x80); m.push(0xF0); m.push(0x90); m.push(0xF0);
    m.push(0xF0); m.push(0x10); m.push(0x20); m.push(0x40); m.push(0x40);
    m.push(0xF0); m.push(0x90); m.push(0xF0); m.push(0x90); m.push(0xF0);
    m.push(0xF0); m.push(0x90); m.push(0xF0); m.push(0x10); m.push(0xF0);
    m.push(0xF0); m.push(0x90); m.push(0xF0); m.push(0x90); m.push(0x90);
    m.push(0xE0); m.push(0x90); m.push(0xE0); m.push(0x90); m.push(0xE0);
    m.push(0xF0); m.push(0x80); m.push(0x80); m.push(0x80); m.push(0xF0);
    m.push(0xE0); m.push(0x90); m.push(0x90); m.push(0x90); m.push(0xE0);
    m.push(0xF0); m.push(0x80); m.push(0xF0); m.push(0x80); m.push(0xF0);
    m.push(0xF0); m.push(0x80); m.push(0xF0); m.push(0x80); m.push(0x80);
    proof {
        assert(m@ =~= font_seq());
    }
    while m.len() < MEMORY_SIZE
        invariant
            80 <= m@.len() <= 4096,
            forall|k: int| 0 <= k < 80 ==> m@[k] == font_seq()[k],
            forall|k: int| 80 <= k < m@.len() ==> m@[k] == 0u8,
        decreases 4096 - m@.len(),
    {
        m.push(0);
    }
    proof {
        assert(m@ =~= mem_init());
    }
    m
}

/// Build an all-off framebuffer.
fn cleared_display() -> (d: Vec<bool>)
    ensures
        d@ == blank_display(),
{
    let mut d: Vec<bool> = Vec::new();
    while d.len() < DISPLAY_SIZE
        invariant
            d@.len() <= 2048,
            forall|p: int| 0 <= p < d@.len() ==> !d@[p],
        decreases 2048 - d@.len(),
    {
        d.push(false);
    }
    proof {
        assert(d@ =~= blank_display());
    }
    d
}

/// Build the sixteen zeroed registers.
fn zeroed_regs() -> (v: Vec<u8>)
    ensures
        v@ == Seq::new(16, |j: int| 0u8),
{
    let mut v: Vec<u8> = Vec::new();
    while v.len() < 16
        invariant
            v@.len() <= 16,
            forall|j: int| 0 <= j < v@.len() ==> v@[j] == 0u8,
        decreases 16 - v@.len(),
    {
        v.push(0);
    }
    proof {
        assert(v@ =~= Seq::new(16, |j: int| 0u8));
    }
    v
}

impl Machine {
    /// A fresh machine: font in low memory, program counter at 0x200,
    /// everything else zeroed, no tick observed yet.
    pub fn new() -> (m: Machine)
        ensures
            m@ == (State {
                pc: 0x200,
                i: 0,
                v: Seq::new(16, |j: int| 0u8),
                mem: mem_init(),
                stack: Seq::<u16>::empty(),
                disp: blank_display(),
                dt: 0,
                st: 0,
                last_tick: None::<u64>,
                keys: 0,
                old_keys: 0,
            }),
            m@.wf(),
    {
        let m = Machine {
            pc: 0x200,
            i: 0,
            v: zeroed_regs(),
            memory: initial_memory(),
            stack: Vec::new(),
            display: cleared_display(),
            dt: 0,
            st: 0,
            last_tick: None,
            keys: 0,
            old_keys: 0,
        };
        proof {
            assert(m@.stack =~= Seq::<u16>::empty());
        }
        m
    }

    /// Copy a program into memory starting at 0x200. A program longer than
    /// the 3584 bytes of space is a caller error, excluded here rather than
    /// truncated.
    pub fn load(&mut self, program: &[u8])
        requires
            old(self)@.wf(),
            program@.len() <= 3584,
        ensures
            final(self)@.wf(),
            final(self)@ == (State {
                mem: Seq::new(4096, |a: int|
                    if 0x200 <= a < 0x200 + program@.len() {
                        program@[a - 0x200]
                    } else {
                        old(self)@.mem[a]
                    }),
                ..old(self)@
            }),
    {
        let ghost pre = self@;
        let mut j: usize = 0;
        while j < program.len()
            invariant
                self@.wf(),
                j <= program@.len() <= 3584,
                forall|a: int| 0x200 <= a < 0x200 + j ==> self@.mem[a] == program@[a - 0x200],
                forall|a: int| 0 <= a < 4096 && !(0x200 <= a < 0x200 + j) ==> self@.mem[a]
                    == pre.mem[a],
                self@.pc == pre.pc,
                self@.i == pre.i,
                self@.v == pre.v,
                self@.stack == pre.stack,
                self@.disp == pre.disp,
                self@.dt == pre.dt,
                self@.st == pre.st,
                self@.last_tick == pre.last_tick,
                self@.keys == pre.keys,
                self@.old_keys == pre.old_keys,
            decreases program@.len() - j,
        {
            self.memory.set(PROGRAM_START + j, program[j]);
            j = j + 1;
        }
        proof {
            assert(self@.mem =~= Seq::new(4096, |a: int|
                if 0x200 <= a < 0x200 + program@.len() {
                    program@[a - 0x200]
                } else {
                    pre.mem[a]
                }));
            assert(self@ =~= (State {
                mem: Seq::new(4096, |a: int|
                    if 0x200 <= a < 0x200 + program@.len() {
                        program@[a - 0x200]
                    } else {
                        pre.mem[a]
                    }),
                ..pre
            }));
        }
    }
}

// ---------------------------------------------------------------------------
// Step helpers
// ---------------------------------------------------------------------------

/// Relies on rand::random: one byte from the thread-local generator.
/// Nothing is stated of its value, so callers must hold for every byte.
#[verifier::external_body]
fn random_byte() -> u8 {
    rand::random()
}

/// Scan for the lowest newly pressed key code.
fn first_edge(cur: u16, old_set: u16) -> (r: Option<u8>)
    ensures
        r == first_edge_from(cur, old_set, 0),
{
    let mut k: u8 = 0;
    while k < 16
        invariant
            k <= 16,
            first_edge_from(cur, old_set, 0) == first_edge_from(cur, old_set, k),
        decreases 16 - k,
    {
        if (cur >> (k as u16)) & 1 == 1 && !((old_set >> (k as u16)) & 1 == 1) {
            return Some(k);
        }
        k = k + 1;
    }
    None
}

impl Machine {
    /// Decay both timers by the whole 60 Hz ticks elapsed since the last
    /// observed tick, floored at zero; the tick timestamp advances only by
    /// whole ticks so fractional tick time carries over to the next step.
    fn update_timers(&mut self, now: u64)
        requires
            old(self)@.wf(),
        ensures
            final(self)@.wf(),
            final(self)@ == (State {
                dt: dt_after(old(self)@, now),
                st: st_after(old(self)@, now),
                last_tick: last_tick_after(old(self)@, now),
                ..old(self)@
            }),
    {
        match self.last_tick {
            None => {
                self.last_tick = Some(now);
            },
            Some(l) => {
                if now >= l {
                    let elapsed = now - l;
                    let ticks = elapsed / TICK_MICROS;
                    if ticks > 0 {
                        self.dt = if ticks >= self.dt as u64 {
                            0
                        } else {
                            self.dt - (ticks as u8)
                        };
                        self.st = if ticks >= self.st as u64 {
                            0
                        } else {
                            self.st - (ticks as u8)
                        };
                        proof {
                            vstd::arithmetic::div_mod::lemma_fundamental_div_mod(
                                elapsed as int,
                                TICK_MICROS as int,
                            );
                        }
                        self.last_tick = Some(l + ticks * TICK_MICROS);
                    }
                }
            },
        }
        proof {
            assert(self@ =~= (State {
                dt: dt_after(old(self)@, now),
                st: st_after(old(self)@, now),
                last_tick: last_tick_after(old(self)@, now),
                ..old(self)@
            }));
        }
    }
}

// ---------------------------------------------------------------------------
// Wrapped-coordinate arithmetic
// ---------------------------------------------------------------------------

/// Wrapping a coordinate and then asking which offset landed there gives the
/// offset back: `((v0 + c) % m - v0) % m == c` for offsets below `m`.
proof fn lemma_wrap_round(v0: int, c: int, m: int)
    requires
        0 <= c < m,
        0 <= v0,
        0 < m,
    ensures
        ((v0 + c) % m - v0) % m == c,
{
    let u = (v0 + c) % m;
    let q = v0 / m;
    let rr = v0 % m;
    vstd::arithmetic::div_mod::lemma_fundamental_div_mod(v0, m);
    assert(u - v0 == m * (-q) + (u - rr)) by (nonlinear_arith)
        requires
            v0 == m * q + rr,
    ;
    vstd::arithmetic::div_mod::lemma_mod_multiples_vanish(-q, u - rr, m);
    vstd::arithmetic::div_mod::lemma_sub_mod_noop(v0 + c, v0, m);
    vstd::arithmetic::div_mod::lemma_small_mod(c as nat, m as nat);
}

/// The converse: re-wrapping the recovered offset lands on the same cell:
/// `(v0 + (u - v0) % m) % m == u` for cells below `m`.
proof fn lemma_wrap_unround(v0: int, u: int, m: int)
    requires
        0 <= u < m,
        0 <= v0,
        0 < m,
    ensures
        (v0 + (u - v0) % m) % m == u,
{
    vstd::arithmetic::div_mod::lemma_add_mod_noop_right(v0, u - v0, m);
    vstd::arithmetic::div_mod::lemma_small_mod(u as nat, m as nat);
}

// ---------------------------------------------------------------------------
// Sprite drawing, executable
// ---------------------------------------------------------------------------

/// `blit` restricted to the first `k` sprite bits in row-major visit order:
/// the loop below has processed bit `(r, c)` exactly when `r * 8 + c < k`.
spec fn blit_upto(
    disp: Seq<bool>,
    mem: Seq<u8>,
    base: int,
    vx: int,
    vy: int,
    n: int,
    k: int,
) -> Seq<bool> {
    Seq::new(
        2048,
        |p: int|
            {
                let c = (p % 64 - vx) % 64;
                let r = (p / 64 - vy) % 32;
                if r < n && c < 8 && r * 8 + c < k {
                    disp[p] ^ sprite_bit(mem, base, r, c)
                } else {
                    disp[p]
                }
            },
    )
}

/// `draw_collides` restricted to the first `k` sprite bits.
spec fn collides_upto(
    disp: Seq<bool>,
    mem: Seq<u8>,
    base: int,
    vx: int,
    vy: int,
    n: int,
    k: int,
) -> bool {
    exists|r: int, c: int|
        0 <= r < n && 0 <= c < 8 && r * 8 + c < k && sprite_bit(mem, base, r, c) && disp[px_index(
            (vx + c) % 64,
            (vy + r) % 32,
        )]
}

impl Machine {
    /// XOR-blit the `n`-row sprite at `memory[I..I+n)` to the wrapped
    /// coordinates `(Vx mod 64, Vy mod 32)`, setting VF to 1 exactly when a
    /// lit pixel is toggled off, else to 0. Faults without touching any
    /// state if the sprite bytes would run past the end of memory.
    #[verifier::loop_isolation(false)]
    #[verifier::rlimit(60)]
    fn op_draw(&mut self, x: Reg, y: Reg, n: u8) -> (r: Result<(), Error>)
        requires
            old(self)@.wf(),
            x < 16,
            y < 16,
            n <= 15,
        ensures
            final(self)@.wf(),
            ({
                let pre = old(self)@;
                let vx = pre.v[x as int] as int;
                let vy = pre.v[y as int] as int;
                let base = pre.i as int;
                match r {
                    Err(e) => base + n > 4096 && e == Error::AddressOutOfRange(pre.i)
                        && final(self)@ == pre,
                    Ok(u) => base + n <= 4096 && ({
                        let flag: u8 = if draw_collides(pre.disp, pre.mem, base, vx, vy, n as int) {
                            1
                        } else {
                            0
                        };
                        final(self)@ == (State {
                            v: pre.v.update(15, flag),
                            disp: blit(pre.disp, pre.mem, base, vx, vy, n as int),
                            ..pre
                        })
                    }),
                }
            }),
    {
        let ghost pre = self@;
        let vx = self.v[x];
        let vy = self.v[y];
        let nn = n as usize;
        let base = self.i as usize;
        if base + nn > MEMORY_SIZE {
            return Err(Error::AddressOutOfRange(self.i));
        }
        self.v.set(15, 0);
        proof {
            assert(self@.v =~= pre.v.update(15, 0u8));
        }
        let ghost gvx = vx as int;
        let ghost gvy = vy as int;
        let ghost gbase = base as int;
        let ghost gn = nn as int;
        let mut row: usize = 0;
        while row < nn
            invariant
                row <= nn,
                self@.wf(),
                self@.mem == pre.mem,
                self@.pc == pre.pc,
                self@.i == pre.i,
                self@.stack == pre.stack,
                self@.dt == pre.dt,
                self@.st == pre.st,
                self@.last_tick == pre.last_tick,
                self@.keys == pre.keys,
                self@.old_keys == pre.old_keys,
                self@.disp == blit_upto(pre.disp, pre.mem, gbase, gvx, gvy, gn, row as int * 8),
                self@.v == pre.v.update(
                    15,
                    (if collides_upto(pre.disp, pre.mem, gbase, gvx, gvy, gn, row as int * 8) {
                        1u8
                    } else {
                        0u8
                    }),
                ),
            decreases nn - row,
        {
            let byte = self.memory[base + row];
            let mut col: usize = 0;
            while col < 8
                invariant
                    row < nn,
                    col <= 8,
                    self@.wf(),
                    self@.mem == pre.mem,
                    self@.pc == pre.pc,
                    self@.i == pre.i,
                    self@.stack == pre.stack,
                    self@.dt == pre.dt,
                    self@.st == pre.st,
                    self@.last_tick == pre.last_tick,
                    self@.keys == pre.keys,
                    self@.old_keys == pre.old_keys,
                    byte == pre.mem[gbase + row],
                    self@.disp == blit_upto(
                        pre.disp,
                        pre.mem,
                        gbase,
                        gvx,
                        gvy,
                        gn,
                        row as int * 8 + col,
                    ),
                    self@.v == pre.v.update(
                        15,
                        (if collides_upto(
                            pre.disp,
                            pre.mem,
                            gbase,
                            gvx,
                            gvy,
                            gn,
                            row as int * 8 + col,
                        ) {
                            1u8
                        } else {
                            0u8
                        }),
                    ),
                decreases 8 - col,
            {
                let ghost k = row as int * 8 + col;
                let sh: u8 = (7 - col) as u8;
                let bit = ((byte >> sh) & 1) == 1;
                let cx = (vx as usize + col) % 64;
                let cy = (vy as usize + row) % 32;
                let tgt = cy * 64 + cx;
                let px_old = self.display[tgt];
                proof {
                    lemma_wrap_round(gvx, col as int, 64);
                    lemma_wrap_round(gvy, row as int, 32);
                    vstd::arithmetic::div_mod::lemma_fundamental_div_mod_converse_mod(
                        tgt as int,
                        64,
                        cy as int,
                        cx as int,
                    );
                    vstd::arithmetic::div_mod::lemma_fundamental_div_mod_converse_div(
                        tgt as int,
                        64,
                        cy as int,
                        cx as int,
                    );
                    assert(bit == sprite_bit(pre.mem, gbase, row as int, col as int));
                    // The cell was not yet touched: its own visit index is exactly k.
                    assert(px_old == pre.disp[tgt as int]);
                }
                if bit && px_old {
                    self.v.set(15, 1);
                }
                self.display.set(tgt, px_old ^ bit);
                proof {
                    let d2 = blit_upto(pre.disp, pre.mem, gbase, gvx, gvy, gn, k + 1);
                    assert forall|p: int| 0 <= p < 2048 implies self@.disp[p] == d2[p] by {
                        if p == tgt as int {
                        } else {
                            let cc = (p % 64 - gvx) % 64;
                            let rr = (p / 64 - gvy) % 32;
                            if rr < gn && cc < 8 && rr * 8 + cc == k {
                                lemma_wrap_unround(gvy, p / 64, 32);
                                lemma_wrap_unround(gvx, p % 64, 64);
                                vstd::arithmetic::div_mod::lemma_fundamental_div_mod(p, 64);
                                assert(p == tgt as int);
                            }
                        }
                    }
                    assert(self@.disp =~= d2);
                    // The collision flag after this bit.
                    if bit && px_old {
                        assert(collides_upto(pre.disp, pre.mem, gbase, gvx, gvy, gn, k + 1)) by {
                            let r0 = row as int;
                            let c0 = col as int;
                            assert(0 <= r0 && r0 < gn && 0 <= c0 && c0 < 8 && r0 * 8 + c0 < k + 1
                                && sprite_bit(pre.mem, gbase, r0, c0) && pre.disp[px_index(
                                (gvx + c0) % 64,
                                (gvy + r0) % 32,
                            )]);
                        }
                        assert(self@.v =~= pre.v.update(15, 1u8));
                    } else {
                        assert(collides_upto(pre.disp, pre.mem, gbase, gvx, gvy, gn, k + 1)
                            == collides_upto(pre.disp, pre.mem, gbase, gvx, gvy, gn, k)) by {
                            if collides_upto(pre.disp, pre.mem, gbase, gvx, gvy, gn, k) {
                                let (r0, c0) = choose|r0: int, c0: int|
                                    0 <= r0 < gn && 0 <= c0 < 8 && r0 * 8 + c0 < k && sprite_bit(
                                        pre.mem,
                                        gbase,
                                        r0,
                                        c0,
                                    ) && pre.disp[px_index((gvx + c0) % 64, (gvy + r0) % 32)];
                                assert(r0 * 8 + c0 < k + 1);
                                assert(collides_upto(pre.disp, pre.mem, gbase, gvx, gvy, gn, k + 1));
                            }
                            if collides_upto(pre.disp, pre.mem, gbase, gvx, gvy, gn, k + 1) {
                                let (r0, c0) = choose|r0: int, c0: int|
                                    0 <= r0 < gn && 0 <= c0 < 8 && r0 * 8 + c0 < k + 1
                                        && sprite_bit(pre.mem, gbase, r0, c0) && pre.disp[px_index(
                                        (gvx + c0) % 64,
                                        (gvy + r0) % 32,
                                    )];
                                if r0 * 8 + c0 == k {
                                    assert(r0 == row as int && c0 == col as int);
                                    assert(false);
                                } else {
                                    assert(collides_upto(pre.disp, pre.mem, gbase, gvx, gvy, gn, k));
                                }
                            }
                        }
                    }
                }
                col = col + 1;
            }
            row = row + 1;
        }
        proof {
            assert(blit_upto(pre.disp, pre.mem, gbase, gvx, gvy, gn, gn * 8) =~= blit(
                pre.disp,
                pre.mem,
                gbase,
                gvx,
                gvy,
                gn,
            ));
            assert(collides_upto(pre.disp, pre.mem, gbase, gvx, gvy, gn, gn * 8) == draw_collides(
                pre.disp,
                pre.mem,
                gbase,
                gvx,
                gvy,
                gn,
            )) by {
                if collides_upto(pre.disp, pre.mem, gbase, gvx, gvy, gn, gn * 8) {
                    let (r0, c0) = choose|r0: int, c0: int|
                        0 <= r0 < gn && 0 <= c0 < 8 && r0 * 8 + c0 < gn * 8 && sprite_bit(
                            pre.mem,
                            gbase,
                            r0,
                            c0,
                        ) && pre.disp[px_index((gvx + c0) % 64, (gvy + r0) % 32)];
                    assert(draw_collides(pre.disp, pre.mem, gbase, gvx, gvy, gn));
                }
                if draw_collides(pre.disp, pre.mem, gbase, gvx, gvy, gn) {
                    let (r0, c0) = choose|r0: int, c0: int|
                        0 <= r0 < gn && 0 <= c0 < 8 && sprite_bit(pre.mem, gbase, r0, c0)
                            && pre.disp[px_index((gvx + c0) % 64, (gvy + r0) % 32)];
                    assert(r0 * 8 + c0 < gn * 8);
                    assert(collides_upto(pre.disp, pre.mem, gbase, gvx, gvy, gn, gn * 8));
                }
            }
            assert(self@ =~= (State {
                v: pre.v.update(
                    15,
                    (if draw_collides(pre.disp, pre.mem, gbase, gvx, gvy, gn) {
                        1u8
                    } else {
                        0u8
                    }),
                ),
                disp: blit(pre.disp, pre.mem, gbase, gvx, gvy, gn),
                ..pre
            }));
        }
        Ok(())
    }
}

// ---------------------------------------------------------------------------
// Block transfers, executable
// ---------------------------------------------------------------------------

impl Machine {
    /// Copy `V0..=Vx` into `memory[I..=I+x]`. Faults without touching any
    /// state if the destination would run past the end of memory.
    #[verifier::loop_isolation(false)]
    fn op_reg_dump(&mut self, x: Reg) -> (r: Result<(), Error>)
        requires
            old(self)@.wf(),
            x < 16,
        ensures
            final(self)@.wf(),
            ({
                let pre = old(self)@;
                let base = pre.i as int;
                match r {
                    Err(e) => base + x + 1 > 4096 && e == Error::AddressOutOfRange(pre.i)
                        && final(self)@ == pre,
                    Ok(u) => base + x + 1 <= 4096 && final(self)@ == (State {
                        mem: Seq::new(4096, |a: int|
                            if base <= a <= base + x {
                                pre.v[a - base]
                            } else {
                                pre.mem[a]
                            }),
                        ..pre
                    }),
                }
            }),
    {
        let ghost pre = self@;
        let base = self.i as usize;
        if base + x + 1 > MEMORY_SIZE {
            return Err(Error::AddressOutOfRange(self.i));
        }
        let mut j: usize = 0;
        while j <= x
            invariant
                j <= x + 1,
                self@.wf(),
                forall|a: int| base <= a < base + j ==> self@.mem[a] == pre.v[a - base],
                forall|a: int|
                    0 <= a < 4096 && !(base <= a < base + j) ==> self@.mem[a] == pre.mem[a],
                self@.pc == pre.pc,
                self@.i == pre.i,
                self@.v == pre.v,
                self@.stack == pre.stack,
                self@.disp == pre.disp,
                self@.dt == pre.dt,
                self@.st == pre.st,
                self@.last_tick == pre.last_tick,
                self@.keys == pre.keys,
                self@.old_keys == pre.old_keys,
            decreases x + 1 - j,
        {
            let b = self.v[j];
            self.memory.set(base + j, b);
            j = j + 1;
        }
        proof {
            assert(self@.mem =~= Seq::new(4096, |a: int|
                if base <= a <= base + x {
                    pre.v[a - base as int]
                } else {
                    pre.mem[a]
                }));
            assert(self@ =~= (State { mem: self@.mem, ..pre }));
        }
        Ok(())
    }

    /// Copy `memory[I..=I+x]` into `V0..=Vx`. Faults without touching any
    /// state if the source would run past the end of memory.
    #[verifier::loop_isolation(false)]
    fn op_reg_load(&mut self, x: Reg) -> (r: Result<(), Error>)
        requires
            old(self)@.wf(),
            x < 16,
        ensures
            final(self)@.wf(),
            ({
                let pre = old(self)@;
                let base = pre.i as int;
                match r {
                    Err(e) => base + x + 1 > 4096 && e == Error::AddressOutOfRange(pre.i)
                        && final(self)@ == pre,
                    Ok(u) => base + x + 1 <= 4096 && final(self)@ == (State {
                        v: Seq::new(16, |t: int|
                            if t <= x {
                                pre.mem[base + t]
                            } else {
                                pre.v[t]
                            }),
                        ..pre
                    }),
                }
            }),
    {
        let ghost pre = self@;
        let base = self.i as usize;
        if base + x + 1 > MEMORY_SIZE {
            return Err(Error::AddressOutOfRange(self.i));
        }
        let mut j: usize = 0;
        while j <= x
            invariant
                j <= x + 1,
                self@.wf(),
                forall|t: int| 0 <= t < j ==> self@.v[t] == pre.mem[base + t],
                forall|t: int| j <= t < 16 ==> self@.v[t] == pre.v[t],
                self@.pc == pre.pc,
                self@.i == pre.i,
                self@.mem == pre.mem,
                self@.stack == pre.stack,
                self@.disp == pre.disp,
                self@.dt == pre.dt,
                self@.st == pre.st,
                self@.last_tick == pre.last_tick,
                self@.keys == pre.keys,
                self@.old_keys == pre.old_keys,
            decreases x + 1 - j,
        {
            let b = self.memory[base + j];
            self.v.set(j, b);
            j = j + 1;
        }
        proof {
            assert(self@.v =~= Seq::new(16, |t: int|
                if t <= x {
                    pre.mem[base as int + t]
                } else {
                    pre.v[t]
                }));
            assert(self@ =~= (State { v: self@.v, ..pre }));
        }
        Ok(())
    }
}

// ---------------------------------------------------------------------------
// Execute and step
// ---------------------------------------------------------------------------

impl Machine {
    /// Execute one decoded instruction against the state. Expects the
    /// program counter already advanced past the instruction word.
    #[verifier::rlimit(100)]
    fn exec(&mut self, ins: Ins, sound: bool) -> (r: Result<StepResult, Error>)
        requires
            old(self)@.wf(),
            ins_wf(ins),
            2 <= old(self).pc,
            old(self).pc <= 4096,
        ensures
            final(self)@.wf(),
            exec_rel(old(self)@, ins, sound, final(self)@, r),
    {
        let ok: Result<StepResult, Error> = Ok(StepResult { redraw: false, sound });
        match ins {
            Ins::Sys(_) => ok,
            Ins::Cls => {
                self.display = cleared_display();
                Ok(StepResult { redraw: true, sound })
            },
            Ins::Ret => {
                match self.stack.pop() {
                    Some(a) => {
                        self.pc = a;
                        proof {
                            assert(self@.stack =~= old(self)@.stack.drop_last());
                        }
                        ok
                    },
                    None => Err(Error::StackUnderflow),
                }
            },
            Ins::Jp(a) => {
                self.pc = a;
                ok
            },
            Ins::Call(a) => {
                self.stack.push(self.pc);
                self.pc = a;
                ok
            },
            Ins::SeVB(x, b) => {
                if self.v[x] == b {
                    self.pc = self.pc + 2;
                }
                ok
            },
            Ins::SneVB(x, b) => {
                if self.v[x] != b {
                    self.pc = self.pc + 2;
                }
                ok
            },
            Ins::SeVV(x, y) => {
                if self.v[x] == self.v[y] {
                    self.pc = self.pc + 2;
                }
                ok
            },
            Ins::SneVV(x, y) => {
                if self.v[x] != self.v[y] {
                    self.pc = self.pc + 2;
                }
                ok
            },
            Ins::LdVB(x, b) => {
                self.v.set(x, b);
                ok
            },
            Ins::AddVB(x, b) => {
                let a = self.v[x];
                let res: u8 = if a as u16 + b as u16 > 255 {
                    ((a as u16 + b as u16) - 256) as u8
                } else {
                    a + b
                };
                self.v.set(x, res);
                ok
            },
            Ins::LdVV(x, y) => {
                let b = self.v[y];
                self.v.set(x, b);
                ok
            },
            Ins::Or(x, y) => {
                let res = self.v[x] | self.v[y];
                self.v.set(x, res);
                ok
            },
            Ins::And(x, y) => {
                let res = self.v[x] & self.v[y];
                self.v.set(x, res);
                ok
            },
            Ins::Xor(x, y) => {
                let res = self.v[x] ^ self.v[y];
                self.v.set(x, res);
                ok
            },
            Ins::AddVV(x, y) => {
                let a = self.v[x];
                let b = self.v[y];
                let flag: u8 = if a as u16 + b as u16 > 255 {
                    1
                } else {
                    0
                };
                let res: u8 = if a as u16 + b as u16 > 255 {
                    ((a as u16 + b as u16) - 256) as u8
                } else {
                    a + b
                };
                self.v.set(15, flag);
                self.v.set(x, res);
                ok
            },
            Ins::Sub(x, y) => {
                let a = self.v[x];
                let b = self.v[y];
                let flag: u8 = if a >= b {
                    1
                } else {
                    0
                };
                let res: u8 = if a >= b {
                    a - b
                } else {
                    ((a as u16 + 256) - b as u16) as u8
                };
                self.v.set(15, flag);
                self.v.set(x, res);
                ok
            },
            Ins::Shr(x) => {
                let a = self.v[x];
                self.v.set(15, a % 2);
                self.v.set(x, a / 2);
                ok
            },
            Ins::Subn(x, y) => {
                let a = self.v[x];
                let b = self.v[y];
                let flag: u8 = if b >= a {
                    1
                } else {
                    0
                };
                let res: u8 = if b >= a {
                    b - a
                } else {
                    ((b as u16 + 256) - a as u16) as u8
                };
                self.v.set(15, flag);
                self.v.set(x, res);
                ok
            },
            Ins::Shl(x) => {
                let a = self.v[x];
                let flag: u8 = if a >= 128 {
                    1
                } else {
                    0
                };
                let res: u8 = if a as u16 + a as u16 > 255 {
                    ((a as u16 + a as u16) - 256) as u8
                } else {
                    a + a
                };
                self.v.set(15, flag);
                self.v.set(x, res);
                ok
            },
            Ins::LdI(a) => {
                self.i = a;
                ok
            },
            Ins::JpV0(a) => {
                self.pc = self.v[0] as u16 + a;
                ok
            },
            Ins::Rnd(x, mask) => {
                let rb = random_byte();
                self.v.set(x, rb & mask);
                proof {
                    assert(self@.v == old(self)@.v.update(x as int, rb & mask));
                }
                ok
            },
            Ins::Drw(x, y, n) => {
                match self.op_draw(x, y, n) {
                    Ok(_) => Ok(StepResult { redraw: true, sound }),
                    Err(e) => Err(e),
                }
            },
            Ins::Skp(x) => {
                let a = self.v[x];
                if a < 16 && (self.keys >> (a as u16)) & 1 == 1 {
                    self.pc = self.pc + 2;
                }
                ok
            },
            Ins::Sknp(x) => {
                let a = self.v[x];
                if !(a < 16 && (self.keys >> (a as u16)) & 1 == 1) {
                    self.pc = self.pc + 2;
                }
                ok
            },
            Ins::LdVDt(x) => {
                let d = self.dt;
                self.v.set(x, d);
                ok
            },
            Ins::LdVK(x) => {
                match first_edge(self.keys, self.old_keys) {
                    Some(k) => {
                        self.v.set(x, k);
                    },
                    None => {
                        self.pc = self.pc - 2;
                    },
                }
                ok
            },
            Ins::LdDtV(x) => {
                self.dt = self.v[x];
                ok
            },
            Ins::LdStV(x) => {
                self.st = self.v[x];
                ok
            },
            Ins::AddI(x) => {
                let a = self.v[x] as u16;
                self.i = if self.i as u32 + a as u32 > 0xFFFF {
                    ((self.i as u32 + a as u32) - 0x10000) as u16
                } else {
                    self.i + a
                };
                ok
            },
            Ins::LdFV(x) => {
                let digit = self.v[x] % 10;
                self.i = (digit as u16) * 5;
                ok
            },
            Ins::LdBV(x) => {
                let base = self.i as usize;
                if base + 3 > MEMORY_SIZE {
                    Err(Error::AddressOutOfRange(self.i))
                } else {
                    let a = self.v[x];
                    self.memory.set(base, a / 100);
                    self.memory.set(base + 1, (a % 100) / 10);
                    self.memory.set(base + 2, a % 10);
                    ok
                }
            },
            Ins::LdIlocV(x) => {
                match self.op_reg_dump(x) {
                    Ok(_) => ok,
                    Err(e) => Err(e),
                }
            },
            Ins::LdVIloc(x) => {
                match self.op_reg_load(x) {
                    Ok(_) => ok,
                    Err(e) => Err(e),
                }
            },
        }
    }

    /// Advance the machine by one instruction. `keys` is the mask of keypad
    /// codes held down right now (bit `k` for key `k`); `now_us` is the
    /// caller's clock in microseconds. In order: the timers decay by the
    /// whole 60 Hz ticks elapsed, the key snapshots shift, the word at the
    /// program counter is fetched big-endian and the counter advances by 2,
    /// and the decoded instruction executes. On success the result says
    /// whether the framebuffer changed and whether the sound timer was
    /// running; a fetch past the end of memory, an undecodable word, a
    /// return on an empty stack and an out-of-range memory access each stop
    /// the run with the matching error.
    pub fn step(&mut self, keys: u16, now_us: u64) -> (r: Result<StepResult, Error>)
        requires
            old(self)@.wf(),
        ensures
            final(self)@.wf(),
            step_rel(old(self)@, keys, now_us, final(self)@, r),
    {
        self.update_timers(now_us);
        let sound = self.st != 0;
        self.old_keys = self.keys;
        self.keys = keys;
        let ghost mid = self@;
        if self.pc > 4094 {
            return Err(Error::AddressOutOfRange(self.pc));
        }
        let hi = self.memory[self.pc as usize];
        let lo = self.memory[self.pc as usize + 1];
        let w = (hi as u16) * 256 + (lo as u16);
        self.pc = self.pc + 2;
        let ins = match Ins::decode(w) {
            Ok(ins) => ins,
            Err(e) => {
                return Err(e);
            },
        };
        proof {
            lemma_decode_wf(w);
            assert(self@ =~= (State { pc: (old(self)@.pc + 2) as u16, ..mid }));
        }
        self.exec(ins, sound)
    }
}

} // verus!
