//! The mathematical model of the machine: an abstract state, and a
//! pure `step` function that gives the meaning of every recognized
//! instruction. The executor in `cpu` is proved to realize `step`.

use vstd::prelude::*;
use crate::op::Op;

verus! {

/// Abstract machine state. `ram` has 4096 bytes, `display` holds the
/// 64x32 pixel grid flattened so that pixel (x, y) sits at `x * 32 + y`,
/// `v` the sixteen 8-bit registers (register 15 doubles as the
/// carry/borrow/collision flag), `i` the index register, `stack` the
/// return addresses, and the last four fields the two timers and the
/// wait-for-key latch.
#[verifier::ext_equal]
pub struct State {
    pub pc: int,
    pub i: u16,
    pub ram: Seq<u8>,
    pub display: Seq<bool>,
    pub v: Seq<u8>,
    pub stack: Seq<u16>,
    pub delay: u8,
    pub sound: u8,
    pub waiting: bool,
    pub wait_reg: u8,
}

impl State {
    /// Shape invariant: fixed geometry, a program counter that holds an
    /// address with headroom for the auto-increment, and return
    /// addresses that fit that same field.
    pub open spec fn wf(self) -> bool {
        &&& self.ram.len() == 4096
        &&& self.display.len() == 2048
        &&& self.v.len() == 16
        &&& 0 <= self.pc < 32768
        &&& forall|k: int| 0 <= k < self.stack.len() ==> self.stack[k] < 32768
    }
}

/// The display pixel at column `x`, row `y` of the flattened grid.
pub open spec fn pixel(display: Seq<bool>, x: int, y: int) -> bool {
    display[x * 32 + y]
}

/// Flattened display coordinates decompose back into (x, y).
pub proof fn lemma_coords(px: int, py: int)
    requires
        0 <= px < 64,
        0 <= py < 32,
    ensures
        (px * 32 + py) / 32 == px,
        (px * 32 + py) % 32 == py,
{
    vstd::arithmetic::div_mod::lemma_fundamental_div_mod_converse(px * 32 + py, 32, px, py);
}

/// Bit `k` (0 = least significant) of byte `b`.
pub open spec fn byte_bit(b: u8, k: u8) -> bool {
    b & (1u8 << k) != 0
}

/// Whether the sprite of `n` rows read from `ram` at index `i` and
/// drawn with its origin at (`x0`, `y0`) has a set bit at flattened
/// display position `idx`. Row bytes are read most significant bit
/// first; rows past the bottom edge and columns past the right edge
/// correspond to no position at all, which is the clipping rule.
pub open spec fn sprite_bit(ram: Seq<u8>, i: int, x0: int, y0: int, n: int, idx: int) -> bool {
    let px = idx / 32;
    let py = idx % 32;
    &&& x0 <= px < x0 + 8
    &&& y0 <= py < y0 + n
    &&& byte_bit(ram[(i + (py - y0)) % 4096], (7 - (px - x0)) as u8)
}

/// Whether one sprite row byte, drawn at height `y` with left edge
/// `x0`, has a set bit at flattened display position `idx`.
pub open spec fn row_bit(sprite: u8, x0: int, y: int, idx: int) -> bool {
    let px = idx / 32;
    let py = idx % 32;
    &&& py == y
    &&& x0 <= px < x0 + 8
    &&& byte_bit(sprite, (7 - (px - x0)) as u8)
}

/// `row_bit` restricted to the first `c` columns of the row.
pub open spec fn row_bit_upto(sprite: u8, x0: int, y: int, c: int, idx: int) -> bool {
    row_bit(sprite, x0, y, idx) && idx / 32 - x0 < c
}

/// The display after the draw: each touched pixel is combined with the
/// sprite bit by exclusive or.
pub open spec fn draw_display(
    display: Seq<bool>,
    ram: Seq<u8>,
    i: int,
    x0: int,
    y0: int,
    n: int,
) -> Seq<bool> {
    Seq::new(2048, |idx: int| display[idx] != sprite_bit(ram, i, x0, y0, n, idx))
}

/// Whether the draw turns some lit pixel off, which sets the flag.
pub open spec fn draw_collides(
    display: Seq<bool>,
    ram: Seq<u8>,
    i: int,
    x0: int,
    y0: int,
    n: int,
) -> bool {
    exists|idx: int| 0 <= idx < 2048 && display[idx] && sprite_bit(ram, i, x0, y0, n, idx)
}

/// Memory after the register dump: registers 0 through `upto` copied to
/// consecutive addresses starting at `i`, each taken modulo the memory
/// size.
pub open spec fn dump_regs_spec(ram: Seq<u8>, v: Seq<u8>, i: int, upto: int) -> Seq<u8>
    decreases upto + 1,
{
    if upto < 0 {
        ram
    } else {
        dump_regs_spec(ram, v, i, upto - 1).update((i + upto) % 4096, v[upto])
    }
}

/// Registers after the register load: the mirror image of the dump.
pub open spec fn load_regs_spec(v: Seq<u8>, ram: Seq<u8>, i: int, upto: int) -> Seq<u8>
    decreases upto + 1,
{
    if upto < 0 {
        v
    } else {
        load_regs_spec(v, ram, i, upto - 1).update(upto, ram[(i + upto) % 4096])
    }
}

/// The register dump keeps the memory size.
pub proof fn lemma_dump_regs_len(ram: Seq<u8>, v: Seq<u8>, i: int, upto: int)
    requires
        ram.len() == 4096,
        0 <= i,
    ensures
        dump_regs_spec(ram, v, i, upto).len() == 4096,
    decreases upto + 1,
{
    if upto >= 0 {
        lemma_dump_regs_len(ram, v, i, upto - 1);
    }
}

/// The register load keeps the register count.
pub proof fn lemma_load_regs_len(v: Seq<u8>, ram: Seq<u8>, i: int, upto: int)
    requires
        v.len() == 16,
        upto < 16,
    ensures
        load_regs_spec(v, ram, i, upto).len() == 16,
    decreases upto + 1,
{
    if upto >= 0 {
        lemma_load_regs_len(v, ram, i, upto - 1);
    }
}

/// The register file after an arithmetic/logic instruction of family
/// 0x8 with low nibble `n`. Operands and flags are evaluated on the
/// register file as the instruction found it; the flag write precedes
/// the result store, so when the destination is register 15 the result
/// overwrites the flag.
pub open spec fn alu(v: Seq<u8>, x: int, y: int, n: u8) -> Seq<u8> {
    if n == 0 {
        v.update(x, v[y])
    } else if n == 1 {
        v.update(x, v[x] | v[y])
    } else if n == 2 {
        v.update(x, v[x] & v[y])
    } else if n == 3 {
        v.update(x, v[x] ^ v[y])
    } else if n == 4 {
        let sum = v[x] + v[y];
        v.update(15, if sum > 255 { 1u8 } else { 0u8 }).update(x, (sum % 256) as u8)
    } else if n == 5 {
        let flag: u8 = if v[x] > v[y] { 1u8 } else { 0u8 };
        v.update(15, flag).update(x, ((v[x] + 256 - v[y]) % 256) as u8)
    } else if n == 6 {
        v.update(15, v[x] & 1).update(x, v[x] / 2)
    } else if n == 7 {
        let flag: u8 = if v[y] > v[x] { 1u8 } else { 0u8 };
        v.update(15, flag).update(x, ((v[y] + 256 - v[x]) % 256) as u8)
    } else {
        v.update(15, v[x] / 128).update(x, ((v[x] * 2) % 256) as u8)
    }
}

/// The instruction patterns the interpreter accepts; every other
/// pattern is a fatal decode error.
pub open spec fn recognized(op: Op) -> bool {
    ||| (op.op == 0x0 && (op.nn == 0xE0 || op.nn == 0xEE))
    ||| (0x1 <= op.op && op.op <= 0x7)
    ||| (op.op == 0x8 && (op.n <= 7 || op.n == 0xE))
    ||| (0x9 <= op.op && op.op <= 0xD)
    ||| (op.op == 0xE && (op.nn == 0x9E || op.nn == 0xA1))
    ||| (op.op == 0xF && (op.nn == 0x07 || op.nn == 0x0A || op.nn == 0x15 || op.nn == 0x18
        || op.nn == 0x1E || op.nn == 0x29 || op.nn == 0x33 || op.nn == 0x55 || op.nn == 0x65))
}

/// The subroutine-return instruction, the one that can fail on an
/// empty call stack.
pub open spec fn is_return(op: Op) -> bool {
    op.op == 0x0 && op.nn == 0xEE
}

/// Whether executing `op` in state `s` succeeds.
pub open spec fn step_ok(s: State, op: Op) -> bool {
    recognized(op) && (is_return(op) ==> s.stack.len() > 0)
}

/// The state transition of one recognized instruction. The program
/// counter is first advanced by 2 and control-flow instructions then
/// overwrite it. `keys` is the 16-entry key snapshot (1 = pressed) and
/// `rnd` the byte the random source produced; only family 0xC reads it.
pub open spec fn step(s: State, op: Op, keys: Seq<u8>, rnd: u8) -> State {
    let pc2 = s.pc + 2;
    if op.op == 0x0 {
        if op.nn == 0xE0 {
            State { pc: pc2, display: Seq::new(2048, |j: int| false), ..s }
        } else {
            State { pc: s.stack.last() as int, stack: s.stack.drop_last(), ..s }
        }
    } else if op.op == 0x1 {
        State { pc: op.nnn as int, ..s }
    } else if op.op == 0x2 {
        State { pc: op.nnn as int, stack: s.stack.push(pc2 as u16), ..s }
    } else if op.op == 0x3 {
        State { pc: if s.v[op.x as int] == op.nn { pc2 + 2 } else { pc2 }, ..s }
    } else if op.op == 0x4 {
        State { pc: if s.v[op.x as int] != op.nn { pc2 + 2 } else { pc2 }, ..s }
    } else if op.op == 0x5 {
        State { pc: if s.v[op.x as int] == s.v[op.y as int] { pc2 + 2 } else { pc2 }, ..s }
    } else if op.op == 0x6 {
        State { pc: pc2, v: s.v.update(op.x as int, op.nn), ..s }
    } else if op.op == 0x7 {
        State {
            pc: pc2,
            v: s.v.update(op.x as int, ((s.v[op.x as int] + op.nn) % 256) as u8),
            ..s
        }
    } else if op.op == 0x8 {
        State { pc: pc2, v: alu(s.v, op.x as int, op.y as int, op.n), ..s }
    } else if op.op == 0x9 {
        State { pc: if s.v[op.x as int] != s.v[op.y as int] { pc2 + 2 } else { pc2 }, ..s }
    } else if op.op == 0xA {
        State { pc: pc2, i: op.nnn, ..s }
    } else if op.op == 0xB {
        State { pc: op.nnn + s.v[0] as int, ..s }
    } else if op.op == 0xC {
        State { pc: pc2, v: s.v.update(op.x as int, rnd & op.n), ..s }
    } else if op.op == 0xD {
        let x0 = (s.v[op.x as int] & 63) as int;
        let y0 = (s.v[op.y as int] & 31) as int;
        let coll = draw_collides(s.display, s.ram, s.i as int, x0, y0, op.n as int);
        State {
            pc: pc2,
            v: s.v.update(15, if coll { 1u8 } else { 0u8 }),
            display: draw_display(s.display, s.ram, s.i as int, x0, y0, op.n as int),
            ..s
        }
    } else if op.op == 0xE {
        let pressed = keys[s.v[op.x as int] as int] == 1;
        State { pc: if (op.nn == 0x9E) == pressed { pc2 + 2 } else { pc2 }, ..s }
    } else {
        if op.nn == 0x07 {
            State { pc: pc2, v: s.v.update(op.x as int, s.delay), ..s }
        } else if op.nn == 0x0A {
            State { pc: pc2, waiting: true, wait_reg: op.x, ..s }
        } else if op.nn == 0x15 {
            State { pc: pc2, delay: s.v[op.x as int], ..s }
        } else if op.nn == 0x18 {
            State { pc: pc2, sound: s.v[op.x as int], ..s }
        } else if op.nn == 0x1E {
            State { pc: pc2, i: ((s.i + s.v[op.x as int]) % 65536) as u16, ..s }
        } else if op.nn == 0x29 {
            State { pc: pc2, i: (s.v[op.x as int] * 5) as u16, ..s }
        } else if op.nn == 0x33 {
            let val = s.v[op.x as int];
            let i = s.i as int;
            State {
                pc: pc2,
                ram: s.ram.update((i + 2) % 4096, (val % 10) as u8).update(
                    (i + 1) % 4096,
                    ((val / 10) % 10) as u8,
                ).update(i % 4096, (val / 100) as u8),
                ..s
            }
        } else if op.nn == 0x55 {
            State { pc: pc2, ram: dump_regs_spec(s.ram, s.v, s.i as int, op.x as int), ..s }
        } else {
            State { pc: pc2, v: load_regs_spec(s.v, s.ram, s.i as int, op.x as int), ..s }
        }
    }
}

} // verus!
