//! The headline guarantees of the instruction semantics, proved once and
//! for all states: flag ordering of the ALU opcodes, the XOR-involution of
//! sprite drawing, clear-screen, timer decay, the blocking behaviour of the
//! wait-for-key opcode, stack underflow, and the first fetch after loading.

use vstd::prelude::*;

use crate::error::Error;
use crate::ins::{Ins, Reg, spec_decode, lemma_decode_wf};
use crate::machine::{
    State, StepResult, exec_rel, step_rel, blit, draw_collides, sprite_bit, px_index, word_at,
    dt_after, st_after, last_tick_after, first_edge_from, carry_add, wrap_add, wrap_sub,
    no_borrow, TICK_MICROS,
};

verus! {

/// ADD (`8xy4`): for every pair of operand bytes, the flag register is set
/// to 1 exactly when the sum overflows 255, and the destination ends with
/// the sum modulo 256 whatever the aliasing, including when the destination
/// is VF itself: the flag is written first, so the result wins there.
pub proof fn lemma_add_flag_and_result(
    pre: State,
    x: Reg,
    y: Reg,
    sound: bool,
    post: State,
    r: Result<StepResult, Error>,
)
    requires
        pre.wf(),
        x < 16,
        y < 16,
        exec_rel(pre, Ins::AddVV(x, y), sound, post, r),
    ensures
        r is Ok,
        post.v[x as int] == (pre.v[x as int] + pre.v[y as int]) % 256,
        x != 15 ==> post.v[15] == (if pre.v[x as int] + pre.v[y as int] > 255 {
            1u8
        } else {
            0u8
        }),
{
    let a = pre.v[x as int];
    let b = pre.v[y as int];
    if a + b > 255 {
        vstd::arithmetic::div_mod::lemma_mod_sub_multiples_vanish(a + b, 256);
        vstd::arithmetic::div_mod::lemma_small_mod((a + b - 256) as nat, 256);
    } else {
        vstd::arithmetic::div_mod::lemma_small_mod((a + b) as nat, 256);
    }
}

/// SUB (`8xy5`): for every pair of operand bytes, the flag register is set
/// to 1 exactly when there is no borrow (`Vx >= Vy`), and the destination
/// ends with the difference modulo 256; flag first, result second.
pub proof fn lemma_sub_flag_and_result(
    pre: State,
    x: Reg,
    y: Reg,
    sound: bool,
    post: State,
    r: Result<StepResult, Error>,
)
    requires
        pre.wf(),
        x < 16,
        y < 16,
        exec_rel(pre, Ins::Sub(x, y), sound, post, r),
    ensures
        r is Ok,
        post.v[x as int] == (pre.v[x as int] - pre.v[y as int]) % 256,
        x != 15 ==> post.v[15] == (if pre.v[x as int] >= pre.v[y as int] {
            1u8
        } else {
            0u8
        }),
{
    let a = pre.v[x as int];
    let b = pre.v[y as int];
    if a >= b {
        vstd::arithmetic::div_mod::lemma_small_mod((a - b) as nat, 256);
    } else {
        vstd::arithmetic::div_mod::lemma_mod_add_multiples_vanish(a - b, 256);
        vstd::arithmetic::div_mod::lemma_small_mod((a - b + 256) as nat, 256);
    }
}

/// SHR (`8xy6`): the flag register receives the low bit of the operand
/// before the shift, and the destination the operand halved.
pub proof fn lemma_shr_flag(
    pre: State,
    x: Reg,
    sound: bool,
    post: State,
    r: Result<StepResult, Error>,
)
    requires
        pre.wf(),
        x < 16,
        exec_rel(pre, Ins::Shr(x), sound, post, r),
    ensures
        r is Ok,
        post.v[x as int] == pre.v[x as int] / 2,
        x != 15 ==> post.v[15] == pre.v[x as int] % 2,
{
}

/// SHL (`8xyE`): the flag register receives the high bit of the operand
/// before the shift, and the destination the operand doubled modulo 256.
pub proof fn lemma_shl_flag(
    pre: State,
    x: Reg,
    sound: bool,
    post: State,
    r: Result<StepResult, Error>,
)
    requires
        pre.wf(),
        x < 16,
        exec_rel(pre, Ins::Shl(x), sound, post, r),
    ensures
        r is Ok,
        post.v[x as int] == (2 * pre.v[x as int]) % 256,
        x != 15 ==> post.v[15] == pre.v[x as int] / 128,
{
    let a = pre.v[x as int];
    if a + a > 255 {
        vstd::arithmetic::div_mod::lemma_mod_sub_multiples_vanish(2 * a, 256);
        vstd::arithmetic::div_mod::lemma_small_mod((2 * a - 256) as nat, 256);
    } else {
        vstd::arithmetic::div_mod::lemma_small_mod((2 * a) as nat, 256);
    }
}

/// Blitting the same sprite twice is the identity: XOR undoes XOR, cell by
/// cell.
pub proof fn lemma_blit_involution(
    disp: Seq<bool>,
    mem: Seq<u8>,
    base: int,
    vx: int,
    vy: int,
    n: int,
)
    requires
        disp.len() == 2048,
    ensures
        blit(blit(disp, mem, base, vx, vy, n), mem, base, vx, vy, n) == disp,
{
    let d1 = blit(disp, mem, base, vx, vy, n);
    let d2 = blit(d1, mem, base, vx, vy, n);
    assert forall|p: int| 0 <= p < 2048 implies d2[p] == disp[p] by {}
    assert(d2 =~= disp);
}

/// Drawing the same sprite twice at the same location restores the
/// framebuffer, and the second draw reports a collision exactly where the
/// sprite has a set bit over a pixel the first draw left on. The
/// destination registers must not be VF itself, whose value the first
/// draw's collision flag overwrites.
pub proof fn lemma_draw_twice_restores(
    pre: State,
    x: Reg,
    y: Reg,
    n: u8,
    s1: bool,
    s2: bool,
    mid: State,
    post: State,
    r1: Result<StepResult, Error>,
    r2: Result<StepResult, Error>,
)
    requires
        pre.wf(),
        x < 16,
        y < 16,
        x != 15,
        y != 15,
        n <= 15,
        pre.i + n <= 4096,
        exec_rel(pre, Ins::Drw(x, y, n), s1, mid, r1),
        exec_rel(mid, Ins::Drw(x, y, n), s2, post, r2),
    ensures
        post.disp == pre.disp,
        post.v[15] == (if draw_collides(
            mid.disp,
            pre.mem,
            pre.i as int,
            pre.v[x as int] as int,
            pre.v[y as int] as int,
            n as int,
        ) {
            1u8
        } else {
            0u8
        }),
{
    lemma_blit_involution(
        pre.disp,
        pre.mem,
        pre.i as int,
        pre.v[x as int] as int,
        pre.v[y as int] as int,
        n as int,
    );
}

/// Clear (`00E0`) turns every framebuffer cell off and requests a redraw.
pub proof fn lemma_clear(pre: State, sound: bool, post: State, r: Result<StepResult, Error>)
    requires
        pre.wf(),
        exec_rel(pre, Ins::Cls, sound, post, r),
    ensures
        r == Ok::<StepResult, Error>(StepResult { redraw: true, sound }),
        forall|p: int| 0 <= p < 2048 ==> !post.disp[p],
        post.disp.len() == 2048,
{
}

/// After exactly one 1/60-second tick of elapsed time, each timer is one
/// lower, floored at zero, and the tick timestamp advances to `now`.
pub proof fn lemma_one_tick(pre: State, l: u64, now: u64)
    requires
        pre.last_tick == Some(l),
        now == l + TICK_MICROS,
    ensures
        dt_after(pre, now) == (if pre.dt == 0 {
            0u8
        } else {
            (pre.dt - 1) as u8
        }),
        st_after(pre, now) == (if pre.st == 0 {
            0u8
        } else {
            (pre.st - 1) as u8
        }),
        last_tick_after(pre, now) == Some(now),
{
    assert((TICK_MICROS as int) / (TICK_MICROS as int) == 1);
}

/// Wait-for-key (`Fx0A`): a step that decodes it leaves the program counter
/// where it was when no key was newly pressed, so the same instruction runs
/// again next step; when keys were newly pressed, the lowest code lands in
/// Vx and the counter advances normally.
pub proof fn lemma_wait_key_blocks(
    pre: State,
    keys: u16,
    now: u64,
    post: State,
    r: Result<StepResult, Error>,
    x: Reg,
)
    requires
        pre.wf(),
        pre.pc <= 4094,
        spec_decode(word_at(pre.mem, pre.pc as int)) == Some(Ins::LdVK(x)),
        step_rel(pre, keys, now, post, r),
    ensures
        r is Ok,
        first_edge_from(keys, pre.keys, 0) is None ==> post.pc == pre.pc && post.v == pre.v,
        (match first_edge_from(keys, pre.keys, 0) {
            Some(k) => post.v == pre.v.update(x as int, k) && post.pc == pre.pc + 2,
            None => true,
        }),
{
    lemma_decode_wf(word_at(pre.mem, pre.pc as int));
}

/// Return (`00EE`) with an empty stack is fatal: the step reports stack
/// underflow and touches nothing but the timers, the key snapshots and the
/// already-advanced program counter. It is never silently a no-op.
pub proof fn lemma_ret_underflow(
    pre: State,
    keys: u16,
    now: u64,
    post: State,
    r: Result<StepResult, Error>,
)
    requires
        pre.wf(),
        pre.pc <= 4094,
        spec_decode(word_at(pre.mem, pre.pc as int)) == Some(Ins::Ret),
        pre.stack.len() == 0,
        step_rel(pre, keys, now, post, r),
    ensures
        r == Err::<StepResult, Error>(Error::StackUnderflow),
        post.pc == pre.pc + 2,
        post.v == pre.v,
        post.mem == pre.mem,
        post.stack == pre.stack,
        post.disp == pre.disp,
{
}

/// The first step after construction and loading: the word is fetched from
/// address 0x200, and the instruction executes against a counter already
/// advanced to 0x202, so jumps overwrite 0x202 and skips land at 0x204.
pub proof fn lemma_first_step(
    pre: State,
    keys: u16,
    now: u64,
    post: State,
    r: Result<StepResult, Error>,
)
    requires
        pre.wf(),
        pre.pc == 0x200,
        step_rel(pre, keys, now, post, r),
    ensures
        ({
            let w = word_at(pre.mem, 0x200);
            match spec_decode(w) {
                None => r == Err::<StepResult, Error>(Error::Opcode(w)),
                Some(ins) => exec_rel(
                    State {
                        pc: 0x202,
                        dt: dt_after(pre, now),
                        st: st_after(pre, now),
                        last_tick: last_tick_after(pre, now),
                        keys: keys,
                        old_keys: pre.keys,
                        ..pre
                    },
                    ins,
                    st_after(pre, now) != 0,
                    post,
                    r,
                ),
            }
        }),
{
}

} // verus!
