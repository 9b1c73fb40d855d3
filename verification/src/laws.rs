//! Laws of the instruction semantics, proved once and for all of the
//! `step` model that `Cpu::execute_op` is verified to realize.

use vstd::prelude::*;
use crate::model::{
    is_return, lemma_coords, lemma_dump_regs_len, lemma_load_regs_len, pixel, sprite_bit, step,
    step_ok, State,
};
use crate::op::Op;

verus! {

/// A successful step of a well-formed machine yields a well-formed
/// machine, provided the program counter has headroom for the advance.
pub proof fn lemma_step_wf(s: State, op: Op, keys: Seq<u8>, rnd: u8)
    requires
        s.wf(),
        op.wf(),
        step_ok(s, op),
        s.pc + 4 <= 32767,
    ensures
        step(s, op, keys, rnd).wf(),
{
    let t = step(s, op, keys, rnd);
    if op.op == 0x2 {
        assert forall|k: int| 0 <= k < t.stack.len() implies t.stack[k] < 32768 by {
            if k < t.stack.len() - 1 {
                assert(t.stack[k] == s.stack[k]);
            }
        }
    } else if is_return(op) {
        assert(s.stack[s.stack.len() - 1] < 32768);
        assert forall|k: int| 0 <= k < t.stack.len() implies t.stack[k] < 32768 by {
            assert(t.stack[k] == s.stack[k]);
        }
    } else if op.op == 0xF && op.nn == 0x55 {
        lemma_dump_regs_len(s.ram, s.v, s.i as int, op.x as int);
    } else if op.op == 0xF && op.nn == 0x65 {
        lemma_load_regs_len(s.v, s.ram, s.i as int, op.x as int);
    }
}

/// Add-immediate wraps modulo 256 and leaves the flag register alone,
/// for any destination other than the flag register itself.
pub proof fn lemma_add_immediate(s: State, op: Op, keys: Seq<u8>, rnd: u8)
    requires
        s.wf(),
        op.wf(),
        op.op == 0x7,
        op.x != 15,
    ensures
        step(s, op, keys, rnd).v[15] == s.v[15],
        step(s, op, keys, rnd).v[op.x as int] == ((s.v[op.x as int] + op.nn) % 256) as u8,
{
}

/// Add-with-carry stores the wrapped sum and sets the flag register to
/// 1 exactly when the unsigned sum of the two operands exceeds 255,
/// else to 0, for any destination other than the flag register itself.
pub proof fn lemma_add_with_carry(s: State, op: Op, keys: Seq<u8>, rnd: u8)
    requires
        s.wf(),
        op.wf(),
        op.op == 0x8,
        op.n == 0x4,
        op.x != 15,
    ensures
        step(s, op, keys, rnd).v[15] == (if s.v[op.x as int] + s.v[op.y as int] > 255 {
            1u8
        } else {
            0u8
        }),
        step(s, op, keys, rnd).v[op.x as int] == ((s.v[op.x as int] + s.v[op.y as int])
            % 256) as u8,
{
}

/// Subtract-with-borrow sets the flag register to 1 exactly when
/// register x strictly exceeds register y on their pre-operation
/// values, and stores the wrapped difference, for any destination
/// other than the flag register itself (which the stored result would
/// overwrite); the subtrahend may be any register, the flag included.
pub proof fn lemma_subtract_with_borrow(s: State, op: Op, keys: Seq<u8>, rnd: u8)
    requires
        s.wf(),
        op.wf(),
        op.op == 0x8,
        op.n == 0x5,
        op.x != 15,
    ensures
        step(s, op, keys, rnd).v[15] == (if s.v[op.x as int] > s.v[op.y as int] {
            1u8
        } else {
            0u8
        }),
        step(s, op, keys, rnd).v[op.x as int] == ((s.v[op.x as int] + 256 - s.v[op.y as int])
            % 256) as u8,
{
}

/// The shifts write only register x and the flag register; every other
/// part of the machine state is untouched.
pub proof fn lemma_shift_writes_only_x(s: State, op: Op, keys: Seq<u8>, rnd: u8)
    requires
        s.wf(),
        op.wf(),
        op.op == 0x8,
        op.n == 0x6 || op.n == 0xE,
    ensures
        forall|j: int|
            0 <= j < 16 && j != op.x && j != 15 ==> step(s, op, keys, rnd).v[j] == s.v[j],
        step(s, op, keys, rnd).ram == s.ram,
        step(s, op, keys, rnd).display == s.display,
        step(s, op, keys, rnd).i == s.i,
        step(s, op, keys, rnd).stack == s.stack,
{
}

/// The shifts never consult register y: changing it beforehand changes
/// nothing in the outcome but that same register (stated for a
/// register y distinct from register x and from the flag register).
pub proof fn lemma_shift_ignores_y(s: State, w: u8, op: Op, keys: Seq<u8>, rnd: u8)
    requires
        s.wf(),
        op.wf(),
        op.op == 0x8,
        op.n == 0x6 || op.n == 0xE,
        op.y != op.x,
        op.y != 15,
    ensures
        step(State { v: s.v.update(op.y as int, w), ..s }, op, keys, rnd) == (State {
            v: step(s, op, keys, rnd).v.update(op.y as int, w),
            ..step(s, op, keys, rnd)
        }),
{
    let t = step(s, op, keys, rnd);
    let s2 = State { v: s.v.update(op.y as int, w), ..s };
    let t2 = step(s2, op, keys, rnd);
    assert(t2.v =~= t.v.update(op.y as int, w));
    assert(t2 =~= (State { v: t.v.update(op.y as int, w), ..t }));
}

/// After clear-screen, reading any pixel of the 64x32 grid gives off.
pub proof fn lemma_clear_screen(s: State, op: Op, keys: Seq<u8>, rnd: u8)
    requires
        op.op == 0x0,
        op.nn == 0xE0,
    ensures
        forall|x: int, y: int|
            0 <= x < 64 && 0 <= y < 32 ==> !pixel(#[trigger] step(s, op, keys, rnd).display, x, y),
        forall|idx: int| 0 <= idx < 2048 ==> !step(s, op, keys, rnd).display[idx],
{
    assert forall|x: int, y: int| 0 <= x < 64 && 0 <= y < 32 implies !pixel(
        step(s, op, keys, rnd).display,
        x,
        y,
    ) by {
        lemma_coords(x, y);
    }
}

/// Drawing the same sprite at the same coordinates twice in succession
/// restores every pixel to its value before the first draw, and the
/// second draw reports a collision exactly when some visible sprite
/// bit fell on a pixel that was off before the first draw: that pixel
/// was turned on by the first draw and turned off again by the second.
pub proof fn lemma_draw_twice(s: State, op: Op, keys: Seq<u8>, rnd: u8)
    requires
        s.wf(),
        op.wf(),
        op.op == 0xD,
        op.x != 15,
        op.y != 15,
    ensures
        ({
            let s1 = step(s, op, keys, rnd);
            let s2 = step(s1, op, keys, rnd);
            let x0 = (s.v[op.x as int] & 63) as int;
            let y0 = (s.v[op.y as int] & 31) as int;
            &&& forall|idx: int| 0 <= idx < 2048 ==> s2.display[idx] == s.display[idx]
            &&& s2.v[15] == (if exists|idx: int|
                0 <= idx < 2048 && !s.display[idx] && sprite_bit(
                    s.ram,
                    s.i as int,
                    x0,
                    y0,
                    op.n as int,
                    idx,
                ) {
                1u8
            } else {
                0u8
            })
        }),
{
    let s1 = step(s, op, keys, rnd);
    let s2 = step(s1, op, keys, rnd);
    let x0 = (s.v[op.x as int] & 63) as int;
    let y0 = (s.v[op.y as int] & 31) as int;
    let ni = op.n as int;
    let ii = s.i as int;
    assert(s1.ram == s.ram);
    assert(s1.i == s.i);
    assert(s1.v[op.x as int] == s.v[op.x as int]);
    assert(s1.v[op.y as int] == s.v[op.y as int]);
    assert forall|idx: int| 0 <= idx < 2048 implies s2.display[idx] == s.display[idx] by {
        assert(s1.display[idx] == (s.display[idx] != sprite_bit(s.ram, ii, x0, y0, ni, idx)));
        assert(s2.display[idx] == (s1.display[idx] != sprite_bit(s.ram, ii, x0, y0, ni, idx)));
    }
    if exists|idx: int|
        0 <= idx < 2048 && s1.display[idx] && sprite_bit(s.ram, ii, x0, y0, ni, idx) {
        let w = choose|idx: int|
            0 <= idx < 2048 && s1.display[idx] && sprite_bit(s.ram, ii, x0, y0, ni, idx);
        assert(!s.display[w] && sprite_bit(s.ram, ii, x0, y0, ni, w));
    }
    if exists|idx: int|
        0 <= idx < 2048 && !s.display[idx] && sprite_bit(s.ram, ii, x0, y0, ni, idx) {
        let w = choose|idx: int|
            0 <= idx < 2048 && !s.display[idx] && sprite_bit(s.ram, ii, x0, y0, ni, idx);
        assert(s1.display[w] && sprite_bit(s.ram, ii, x0, y0, ni, w));
    }
}

/// A drawn sprite only affects pixels inside the box of up to 8 by n
/// positions at its origin; nothing wraps around to the opposite edge.
pub proof fn lemma_draw_clipping(s: State, op: Op, keys: Seq<u8>, rnd: u8)
    requires
        s.wf(),
        op.wf(),
        op.op == 0xD,
    ensures
        ({
            let x0 = (s.v[op.x as int] & 63) as int;
            let y0 = (s.v[op.y as int] & 31) as int;
            forall|px: int, py: int|
                0 <= px < 64 && 0 <= py < 32 && !(x0 <= px < x0 + 8 && y0 <= py < y0 + op.n)
                    ==> pixel(#[trigger] step(s, op, keys, rnd).display, px, py) == pixel(
                    s.display,
                    px,
                    py,
                )
        }),
{
    let x0 = (s.v[op.x as int] & 63) as int;
    let y0 = (s.v[op.y as int] & 31) as int;
    assert forall|px: int, py: int|
        0 <= px < 64 && 0 <= py < 32 && !(x0 <= px < x0 + 8 && y0 <= py < y0
            + op.n) implies pixel(step(s, op, keys, rnd).display, px, py) == pixel(
        s.display,
        px,
        py,
    ) by {
        lemma_coords(px, py);
        assert(0 <= px * 32 + py < 2048);
        assert(!sprite_bit(s.ram, s.i as int, x0, y0, op.n as int, px * 32 + py));
    }
}

/// A call followed by a return resumes exactly after the call: the
/// program counter equals its value immediately following the call
/// instruction, and the call stack is as before the pair.
pub proof fn lemma_call_return(s: State, call: Op, ret: Op, keys: Seq<u8>, rnd: u8)
    requires
        s.wf(),
        call.wf(),
        call.op == 0x2,
        is_return(ret),
        s.pc + 2 < 32768,
    ensures
        step(step(s, call, keys, rnd), ret, keys, rnd).pc == s.pc + 2,
        step(step(s, call, keys, rnd), ret, keys, rnd).stack == s.stack,
{
    let s1 = step(s, call, keys, rnd);
    assert(s1.stack.last() == (s.pc + 2) as u16);
    assert(s1.stack.drop_last() =~= s.stack);
}

} // verus!
