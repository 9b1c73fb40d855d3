//! The machine state and the instruction executor.

use vstd::prelude::*;
use crate::model::{
    alu, draw_collides, draw_display, dump_regs_spec, is_return, lemma_coords,
    lemma_dump_regs_len, lemma_load_regs_len, load_regs_spec, pixel, recognized, row_bit,
    row_bit_upto, sprite_bit, step, step_ok, State,
};
use crate::op::Op;

verus! {

/// A fatal condition: the run cannot continue past either of these.
#[derive(Clone, Copy, Debug, PartialEq, Eq, Structural)]
pub enum ExecError {
    /// The instruction pattern is not part of the instruction set; the
    /// fields identify the offending word.
    Unrecognized { op: u8, nn: u8 },
    /// A subroutine return was executed with nothing on the call stack.
    StackUnderflow,
}

/// The machine: 4096 bytes of memory, the 64x32 display flattened so
/// that pixel (x, y) sits at index `x * 32 + y`, sixteen 8-bit
/// registers, the 16-bit index register, the call stack, the two
/// countdown timers and the wait-for-key latch.
#[derive(Clone)]
pub struct Cpu {
    pub pc: i16,
    pub ram: Vec<u8>,
    pub display: Vec<bool>,
    pub v: Vec<u8>,
    i: u16,
    stack: Vec<u16>,
    pub delay_timer: u8,
    pub sound_timer: u8,
    pub is_waiting_for_input: bool,
    pub save_into_this_vx: u8,
}

impl View for Cpu {
    type V = State;

    closed spec fn view(&self) -> State {
        State {
            pc: self.pc as int,
            i: self.i,
            ram: self.ram@,
            display: self.display@,
            v: self.v@,
            stack: self.stack@,
            delay: self.delay_timer,
            sound: self.sound_timer,
            waiting: self.is_waiting_for_input,
            wait_reg: self.save_into_this_vx,
        }
    }
}

/// The fixed 80-byte font table: one 5-byte bitmap glyph per
/// hexadecimal digit, preloaded at the bottom of memory.
pub open spec fn font() -> Seq<u8> {
    seq![
        0xF0u8, 0x90, 0x90, 0x90, 0xF0,
        0x20, 0x60, 0x20, 0x20, 0x70,
        0xF0, 0x10, 0xF0, 0x80, 0xF0,
        0xF0, 0x10, 0xF0, 0x10, 0xF0,
        0x90, 0x90, 0xF0, 0x10, 0x10,
        0xF0, 0x80, 0xF0, 0x10, 0xF0,
        0xF0, 0x80, 0xF0, 0x90, 0xF0,
        0xF0, 0x10, 0x20, 0x40, 0x40,
        0xF0, 0x90, 0xF0, 0x90, 0xF0,
        0xF0, 0x90, 0xF0, 0x10, 0xF0,
        0xF0, 0x90, 0xF0, 0x90, 0x90,
        0xE0, 0x90, 0xE0, 0x90, 0xE0,
        0xF0, 0x80, 0x80, 0x80, 0xF0,
        0xE0, 0x90, 0x90, 0x90, 0xE0,
        0xF0, 0x80, 0xF0, 0x80, 0xF0,
        0xF0, 0x80, 0xF0, 0x80, 0x80,
    ]
}

/// Memory as it stands before the first instruction: the font table in
/// bytes 0 to 79, the program image from byte 512 on, zero elsewhere.
pub open spec fn initial_ram(program: Seq<u8>) -> Seq<u8> {
    Seq::new(
        4096,
        |a: int|
            if a < 80 {
                font()[a]
            } else if 512 <= a < 512 + program.len() {
                program[a - 512]
            } else {
                0u8
            },
    )
}

/// The state of a freshly constructed machine for a given program.
pub open spec fn initial_state(program: Seq<u8>) -> State {
    State {
        pc: 512,
        i: 0,
        ram: initial_ram(program),
        display: Seq::new(2048, |j: int| false),
        v: Seq::new(16, |j: int| 0u8),
        stack: Seq::empty(),
        delay: 0,
        sound: 0,
        waiting: false,
        wait_reg: 0,
    }
}

impl Cpu {
    /// The machine's shape invariant; see `State::wf`.
    pub open spec fn wf(&self) -> bool {
        self@.wf()
    }

    /// Build a machine for a program image. The image must fit between
    /// the program entry point and the end of memory.
    pub fn new(contents: Vec<u8>) -> (r: Cpu)
        requires
            contents@.len() <= 3584,
        ensures
            r.wf(),
            r@ == initial_state(contents@),
    {
        let mut display: Vec<bool> = Vec::new();
        let mut j: usize = 0;
        while j < 2048
            invariant
                j <= 2048,
                display@.len() == j,
                forall|k: int| 0 <= k < j ==> !display@[k],
            decreases 2048 - j,
        {
            display.push(false);
            j = j + 1;
        }
        let mut v: Vec<u8> = Vec::new();
        let mut j: usize = 0;
        while j < 16
            invariant
                j <= 16,
                v@.len() == j,
                forall|k: int| 0 <= k < j ==> v@[k] == 0u8,
            decreases 16 - j,
        {
            v.push(0);
            j = j + 1;
        }
        let r = Cpu {
            pc: 512,
            ram: Cpu::init_ram(&contents),
            display,
            stack: Vec::new(),
            v,
            i: 0,
            delay_timer: 0,
            sound_timer: 0,
            is_waiting_for_input: false,
            save_into_this_vx: 0,
        };
        proof {
            assert(r@.display =~= initial_state(contents@).display);
            assert(r@.v =~= initial_state(contents@).v);
            assert(r@ =~= initial_state(contents@));
        }
        r
    }

    /// Build a machine only when the program image fits; the oversized
    /// image is the one load-time error.
    pub fn try_new(contents: Vec<u8>) -> (r: Option<Cpu>)
        ensures
            contents@.len() <= 3584 ==> (r matches Some(c) && c.wf() && c@ == initial_state(
                contents@,
            )),
            contents@.len() > 3584 ==> r is None,
    {
        if contents.len() <= 3584 {
            Some(Cpu::new(contents))
        } else {
            None
        }
    }

    /// Memory at reset: zero it, copy the font table in, copy the
    /// program image in from byte 512 on.
    fn init_ram(items: &Vec<u8>) -> (r: Vec<u8>)
        requires
            items@.len() <= 3584,
        ensures
            r@ == initial_ram(items@),
    {
        let mut ram: Vec<u8> = Vec::new();
        let mut j: usize = 0;
        while j < 4096
            invariant
                j <= 4096,
                ram@.len() == j,
                forall|k: int| 0 <= k < j ==> ram@[k] == 0u8,
            decreases 4096 - j,
        {
            ram.push(0);
            j = j + 1;
        }
        let sprites = Cpu::get_sprites();
        let mut j: usize = 0;
        while j < 80
            invariant
                j <= 80,
                ram@.len() == 4096,
                sprites@ == font(),
                forall|k: int| 0 <= k < j ==> ram@[k] == font()[k],
                forall|k: int| j <= k < 4096 ==> ram@[k] == 0u8,
            decreases 80 - j,
        {
            ram[j] = sprites[j];
            j = j + 1;
        }
        let mut j: usize = 0;
        while j < items.len()
            invariant
                j <= items@.len() <= 3584,
                ram@.len() == 4096,
                forall|k: int| 0 <= k < 80 ==> ram@[k] == font()[k],
                forall|k: int| 512 <= k < 512 + j ==> ram@[k] == items@[k - 512],
                forall|k: int| 80 <= k < 4096 && !(512 <= k < 512 + j) ==> ram@[k] == 0u8,
            decreases items@.len() - j,
        {
            ram[512 + j] = items[j];
            j = j + 1;
        }
        proof {
            assert(ram@ =~= initial_ram(items@));
        }
        ram
    }

    /// The font table as bytes, in glyph order 0 through F.
    fn get_sprites() -> (r: Vec<u8>)
        ensures
            r@ == font(),
    {
        let sprites: Vec<u8> = vec![
            0xF0u8, 0x90, 0x90, 0x90, 0xF0,
            0x20, 0x60, 0x20, 0x20, 0x70,
            0xF0, 0x10, 0xF0, 0x80, 0xF0,
            0xF0, 0x10, 0xF0, 0x10, 0xF0,
            0x90, 0x90, 0xF0, 0x10, 0x10,
            0xF0, 0x80, 0xF0, 0x10, 0xF0,
            0xF0, 0x80, 0xF0, 0x90, 0xF0,
            0xF0, 0x10, 0x20, 0x40, 0x40,
            0xF0, 0x90, 0xF0, 0x90, 0xF0,
            0xF0, 0x90, 0xF0, 0x10, 0xF0,
            0xF0, 0x90, 0xF0, 0x90, 0x90,
            0xE0, 0x90, 0xE0, 0x90, 0xE0,
            0xF0, 0x80, 0x80, 0x80, 0xF0,
            0xE0, 0x90, 0x90, 0x90, 0xE0,
            0xF0, 0x80, 0xF0, 0x80, 0xF0,
            0xF0, 0x80, 0xF0, 0x80, 0x80,
        ];
        sprites
    }

    /// Draw one 8-pixel sprite row at height `y`, clipped at the right
    /// edge. Returns whether some lit pixel was turned off.
    fn draw_row(display: &mut Vec<bool>, sprite: u8, x0: u8, y: u8) -> (collided: bool)
        requires
            old(display)@.len() == 2048,
            x0 < 64,
            y < 32,
        ensures
            final(display)@.len() == 2048,
            forall|idx: int|
                0 <= idx < 2048 ==> final(display)@[idx] == (old(display)@[idx] != row_bit(
                    sprite,
                    x0 as int,
                    y as int,
                    idx,
                )),
            collided == exists|idx: int|
                0 <= idx < 2048 && old(display)@[idx] && row_bit(sprite, x0 as int, y as int, idx),
    {
        let mut collided = false;
        let mut col: u8 = 0;
        while col < 8 && x0 + col < 64
            invariant
                old(display)@.len() == 2048,
                display@.len() == 2048,
                x0 < 64,
                y < 32,
                col <= 8,
                forall|idx: int|
                    0 <= idx < 2048 ==> display@[idx] == (old(display)@[idx] != row_bit_upto(
                        sprite,
                        x0 as int,
                        y as int,
                        col as int,
                        idx,
                    )),
                collided == exists|idx: int|
                    0 <= idx < 2048 && old(display)@[idx] && row_bit_upto(
                        sprite,
                        x0 as int,
                        y as int,
                        col as int,
                        idx,
                    ),
            decreases 8 - col,
        {
            let px = (x0 + col) as usize;
            let pos = px * 32 + (y as usize);
            proof {
                lemma_coords(px as int, y as int);
            }
            let sh: u8 = 7 - col;
            let bit = sprite & (1u8 << sh) != 0;
            let old_pixel = display[pos];
            if bit && old_pixel {
                display[pos] = false;
                collided = true;
            } else if bit {
                display[pos] = true;
            }
            proof {
                let c1 = col as int + 1;
                assert forall|idx: int| 0 <= idx < 2048 implies display@[idx] == (old(display)@[idx]
                    != row_bit_upto(sprite, x0 as int, y as int, c1, idx)) by {
                    vstd::arithmetic::div_mod::lemma_fundamental_div_mod(idx, 32);
                    if idx != pos as int {
                        // a position in the new column would be exactly `pos`
                        assert(row_bit_upto(sprite, x0 as int, y as int, c1, idx) == row_bit_upto(
                            sprite,
                            x0 as int,
                            y as int,
                            col as int,
                            idx,
                        ));
                    }
                }
                let oldd = old(display)@;
                let x0i = x0 as int;
                let yi = y as int;
                if collided {
                    if bit && old_pixel {
                        assert(oldd[pos as int] && row_bit_upto(sprite, x0i, yi, c1, pos as int));
                    } else {
                        let w = choose|idx: int|
                            0 <= idx < 2048 && oldd[idx] && row_bit_upto(
                                sprite,
                                x0i,
                                yi,
                                col as int,
                                idx,
                            );
                        assert(oldd[w] && row_bit_upto(sprite, x0i, yi, c1, w));
                    }
                    assert(exists|idx: int|
                        0 <= idx < 2048 && oldd[idx] && row_bit_upto(sprite, x0i, yi, c1, idx));
                } else {
                    assert forall|idx: int|
                        0 <= idx < 2048 && oldd[idx] implies !row_bit_upto(
                        sprite,
                        x0i,
                        yi,
                        c1,
                        idx,
                    ) by {
                        vstd::arithmetic::div_mod::lemma_fundamental_div_mod(idx, 32);
                        if idx == pos as int {
                            assert(old_pixel == oldd[idx]);
                        }
                    }
                }
            }
            col = col + 1;
        }
        proof {
            let x0i = x0 as int;
            let yi = y as int;
            assert forall|idx: int| 0 <= idx < 2048 implies row_bit_upto(
                sprite,
                x0i,
                yi,
                col as int,
                idx,
            ) == row_bit(sprite, x0i, yi, idx) by {
                if row_bit(sprite, x0i, yi, idx) {
                    assert(idx / 32 < 64) by {
                        vstd::arithmetic::div_mod::lemma_fundamental_div_mod(idx, 32);
                    };
                }
            }
            if collided {
                let w = choose|idx: int|
                    0 <= idx < 2048 && old(display)@[idx] && row_bit_upto(
                        sprite,
                        x0i,
                        yi,
                        col as int,
                        idx,
                    );
                assert(old(display)@[w] && row_bit(sprite, x0i, yi, w));
            } else if exists|idx: int|
                0 <= idx < 2048 && old(display)@[idx] && row_bit(sprite, x0i, yi, idx) {
                let w = choose|idx: int|
                    0 <= idx < 2048 && old(display)@[idx] && row_bit(sprite, x0i, yi, idx);
                assert(row_bit_upto(sprite, x0i, yi, col as int, w));
            }
        }
        collided
    }

    /// Draw a sprite of `n` rows read from memory at `i`, with origin
    /// (`x0`, `y0`), clipped at the bottom and right edges. Returns
    /// whether some lit pixel was turned off.
    fn draw_sprite(display: &mut Vec<bool>, ram: &Vec<u8>, i: u16, x0: u8, y0: u8, n: u8) -> (collided:
        bool)
        requires
            old(display)@.len() == 2048,
            ram@.len() == 4096,
            x0 < 64,
            y0 < 32,
            n <= 15,
        ensures
            final(display)@ == draw_display(
                old(display)@,
                ram@,
                i as int,
                x0 as int,
                y0 as int,
                n as int,
            ),
            collided == draw_collides(
                old(display)@,
                ram@,
                i as int,
                x0 as int,
                y0 as int,
                n as int,
            ),
    {
        let mut collided = false;
        let mut row: u8 = 0;
        while row < n && y0 + row < 32
            invariant
                old(display)@.len() == 2048,
                display@.len() == 2048,
                ram@.len() == 4096,
                x0 < 64,
                y0 < 32,
                n <= 15,
                row <= n,
                forall|idx: int|
                    0 <= idx < 2048 ==> display@[idx] == (old(display)@[idx] != sprite_bit(
                        ram@,
                        i as int,
                        x0 as int,
                        y0 as int,
                        row as int,
                        idx,
                    )),
                collided == draw_collides(
                    old(display)@,
                    ram@,
                    i as int,
                    x0 as int,
                    y0 as int,
                    row as int,
                ),
            decreases n - row,
        {
            let ghost ii = i as int;
            let ghost x0i = x0 as int;
            let ghost y0i = y0 as int;
            let ghost ri = row as int;
            let ghost oldd = old(display)@;
            let y = y0 + row;
            let sprite = ram[((i as usize) + (row as usize)) % 4096];
            let ghost pre_row = display@;
            let c = Cpu::draw_row(display, sprite, x0, y);
            proof {
                assert(sprite == ram@[(ii + ri) % 4096]);
                // one more row extends the drawn region by exactly that row
                assert forall|idx: int| 0 <= idx < 2048 implies {
                    &&& sprite_bit(ram@, ii, x0i, y0i, ri + 1, idx) == (sprite_bit(
                        ram@,
                        ii,
                        x0i,
                        y0i,
                        ri,
                        idx,
                    ) || row_bit(sprite, x0i, y0i + ri, idx))
                    &&& !(sprite_bit(ram@, ii, x0i, y0i, ri, idx) && row_bit(
                        sprite,
                        x0i,
                        y0i + ri,
                        idx,
                    ))
                } by {
                    vstd::arithmetic::div_mod::lemma_fundamental_div_mod(idx, 32);
                }
                assert forall|idx: int| 0 <= idx < 2048 implies display@[idx] == (oldd[idx]
                    != sprite_bit(ram@, ii, x0i, y0i, ri + 1, idx)) by {
                    assert(display@[idx] == (pre_row[idx] != row_bit(sprite, x0i, y0i + ri, idx)));
                }
                // a collision in the new row is a collision against the
                // pixels of that row as they were before the whole draw,
                // since earlier rows never touch them
                if collided || c {
                    if collided {
                        let w = choose|idx: int|
                            0 <= idx < 2048 && oldd[idx] && sprite_bit(ram@, ii, x0i, y0i, ri, idx);
                        assert(oldd[w] && sprite_bit(ram@, ii, x0i, y0i, ri + 1, w));
                    } else {
                        let w = choose|idx: int|
                            0 <= idx < 2048 && pre_row[idx] && row_bit(sprite, x0i, y0i + ri, idx);
                        assert(pre_row[w] == (oldd[w] != sprite_bit(ram@, ii, x0i, y0i, ri, w)));
                        assert(oldd[w] && sprite_bit(ram@, ii, x0i, y0i, ri + 1, w));
                    }
                    assert(draw_collides(oldd, ram@, ii, x0i, y0i, ri + 1));
                } else {
                    assert forall|idx: int| 0 <= idx < 2048 && oldd[idx] implies !sprite_bit(
                        ram@,
                        ii,
                        x0i,
                        y0i,
                        ri + 1,
                        idx,
                    ) by {
                        if row_bit(sprite, x0i, y0i + ri, idx) {
                            assert(pre_row[idx] == oldd[idx]);
                        }
                    }
                }
            }
            collided = collided || c;
            row = row + 1;
        }
        proof {
            let ii = i as int;
            let x0i = x0 as int;
            let y0i = y0 as int;
            let ri = row as int;
            let ni = n as int;
            let oldd = old(display)@;
            // rows past the bottom edge touch no position: the drawn
            // region is the same whether or not they are counted
            assert forall|idx: int| 0 <= idx < 2048 implies sprite_bit(ram@, ii, x0i, y0i, ri, idx)
                == sprite_bit(ram@, ii, x0i, y0i, ni, idx) by {
                vstd::arithmetic::div_mod::lemma_fundamental_div_mod(idx, 32);
            }
            assert(display@ =~= draw_display(oldd, ram@, ii, x0i, y0i, ni));
            if collided {
                let w = choose|idx: int|
                    0 <= idx < 2048 && oldd[idx] && sprite_bit(ram@, ii, x0i, y0i, ri, idx);
                assert(oldd[w] && sprite_bit(ram@, ii, x0i, y0i, ni, w));
            } else if draw_collides(oldd, ram@, ii, x0i, y0i, ni) {
                let w = choose|idx: int|
                    0 <= idx < 2048 && oldd[idx] && sprite_bit(ram@, ii, x0i, y0i, ni, idx);
                assert(oldd[w] && sprite_bit(ram@, ii, x0i, y0i, ri, w));
            }
        }
        collided
    }

    /// Turn every display pixel off.
    fn clear_display(display: &mut Vec<bool>)
        requires
            old(display)@.len() == 2048,
        ensures
            final(display)@ == Seq::new(2048, |j: int| false),
    {
        let mut j: usize = 0;
        while j < 2048
            invariant
                display@.len() == 2048,
                j <= 2048,
                forall|k: int| 0 <= k < j ==> !display@[k],
            decreases 2048 - j,
        {
            display[j] = false;
            j = j + 1;
        }
        proof {
            assert(display@ =~= Seq::new(2048, |j: int| false));
        }
    }

    /// Copy registers 0 through `x` into memory starting at the index
    /// register, each address taken modulo the memory size.
    fn dump_regs(ram: &mut Vec<u8>, v: &Vec<u8>, i: u16, x: u8)
        requires
            old(ram)@.len() == 4096,
            v@.len() == 16,
            x <= 15,
        ensures
            final(ram)@ == dump_regs_spec(old(ram)@, v@, i as int, x as int),
    {
        let mut k: usize = 0;
        while k <= x as usize
            invariant
                ram@.len() == 4096,
                v@.len() == 16,
                x <= 15,
                k <= x as usize + 1,
                ram@ == dump_regs_spec(old(ram)@, v@, i as int, k as int - 1),
            decreases x as int + 1 - k,
        {
            ram[((i as usize) + k) % 4096] = v[k];
            k = k + 1;
        }
    }

    /// Copy memory starting at the index register into registers 0
    /// through `x`, each address taken modulo the memory size.
    fn load_regs(v: &mut Vec<u8>, ram: &Vec<u8>, i: u16, x: u8)
        requires
            old(v)@.len() == 16,
            ram@.len() == 4096,
            x <= 15,
        ensures
            final(v)@ == load_regs_spec(old(v)@, ram@, i as int, x as int),
    {
        let mut k: usize = 0;
        while k <= x as usize
            invariant
                v@.len() == 16,
                ram@.len() == 4096,
                x <= 15,
                k <= x as usize + 1,
                v@ == load_regs_spec(old(v)@, ram@, i as int, k as int - 1),
            decreases x as int + 1 - k,
        {
            v[k] = ram[((i as usize) + k) % 4096];
            k = k + 1;
        }
    }

    /// Whether the instruction pattern is part of the instruction set.
    fn recognized_exec(op: Op) -> (r: bool)
        ensures
            r == recognized(op),
    {
        (op.op == 0x0 && (op.nn == 0xE0 || op.nn == 0xEE)) || (0x1 <= op.op && op.op <= 0x7) || (
        op.op == 0x8 && (op.n <= 7 || op.n == 0xE)) || (0x9 <= op.op && op.op <= 0xD) || (op.op
            == 0xE && (op.nn == 0x9E || op.nn == 0xA1)) || (op.op == 0xF && (op.nn == 0x07 || op.nn
            == 0x0A || op.nn == 0x15 || op.nn == 0x18 || op.nn == 0x1E || op.nn == 0x29 || op.nn
            == 0x33 || op.nn == 0x55 || op.nn == 0x65))
    }

    /// The arithmetic/logic family 0x8: operands and flags evaluated on
    /// the pre-operation register values, the flag written before the
    /// result is stored.
    fn alu_op(&mut self, op: Op)
        requires
            old(self).wf(),
            op.wf(),
            op.op == 0x8,
            op.n <= 7 || op.n == 0xE,
        ensures
            final(self)@ == (State {
                v: alu(old(self)@.v, op.x as int, op.y as int, op.n),
                ..old(self)@
            }),
    {
        let x = op.x as usize;
        let y = op.y as usize;
        match op.n {
            0 => {
                self.v[x] = self.v[y];
            }
            1 => {
                self.v[x] = self.v[x] | self.v[y];
            }
            2 => {
                self.v[x] = self.v[x] & self.v[y];
            }
            3 => {
                self.v[x] = self.v[x] ^ self.v[y];
            }
            4 => {
                let sum: u16 = self.v[x] as u16 + self.v[y] as u16;
                self.v[15] = if sum > 255 {
                    1
                } else {
                    0
                };
                self.v[x] = (sum % 256) as u8;
            }
            5 => {
                let a = self.v[x];
                let b = self.v[y];
                self.v[15] = if a > b {
                    1
                } else {
                    0
                };
                let d: u16 = a as u16 + 256 - b as u16;
                self.v[x] = (d % 256) as u8;
            }
            6 => {
                let a = self.v[x];
                self.v[15] = a & 1;
                self.v[x] = a / 2;
            }
            7 => {
                let a = self.v[x];
                let b = self.v[y];
                self.v[15] = if b > a {
                    1
                } else {
                    0
                };
                let d: u16 = b as u16 + 256 - a as u16;
                self.v[x] = (d % 256) as u8;
            }
            _ => {
                let a = self.v[x];
                self.v[15] = a / 128;
                let d: u16 = a as u16 * 2;
                self.v[x] = (d % 256) as u8;
            }
        }
    }

    /// Execute one decoded instruction, drawing the byte for the
    /// random instruction from the process-wide generator; see
    /// `execute_op_seeded` for the semantics. Only family 0xC consumes
    /// randomness, so for every other instruction the outcome is the
    /// step on any byte at all.
    pub fn execute_op(&mut self, op: Op, pressed_keys: &[u8; 16]) -> (r: Result<(), ExecError>)
        requires
            old(self).wf(),
            op.wf(),
            old(self)@.pc + 4 <= 32767,
            (op.op == 0xE && (op.nn == 0x9E || op.nn == 0xA1)) ==> old(self)@.v[op.x as int] < 16,
        ensures
            final(self).wf(),
            r is Ok <==> step_ok(old(self)@, op),
            r is Ok ==> exists|rnd: u8| final(self)@ == step(old(self)@, op, pressed_keys@, rnd),
            (r is Ok && op.op != 0xC) ==> final(self)@ == step(old(self)@, op, pressed_keys@, 0),
            !recognized(op) ==> r == Err::<(), ExecError>(
                ExecError::Unrecognized { op: op.op, nn: op.nn },
            ),
            (recognized(op) && is_return(op) && old(self)@.stack.len() == 0) ==> r == Err::<(
            ), ExecError>(ExecError::StackUnderflow),
            r is Err ==> final(self)@ == old(self)@,
    {
        let rb = random_byte();
        let r = self.execute_op_seeded(op, pressed_keys, rb);
        proof {
            if r is Ok && op.op != 0xC {
                assert(step(old(self)@, op, pressed_keys@, rb) =~= step(
                    old(self)@,
                    op,
                    pressed_keys@,
                    0,
                ));
            }
        }
        r
    }

    /// Execute one decoded instruction against the current state, the
    /// caller's key snapshot (one entry per key, 1 = pressed) and an
    /// explicit random source: `rnd` is the byte the random instruction
    /// masks, so a caller that fixes it gets a fully deterministic
    /// machine.
    ///
    /// The program counter is advanced by 2 before dispatch; control
    /// flow instructions then overwrite it. The machine afterwards is
    /// exactly `step` of the machine before; an unrecognized pattern or
    /// a return on an empty call stack reports the fatal condition and
    /// leaves the machine unchanged.
    pub fn execute_op_seeded(&mut self, op: Op, pressed_keys: &[u8; 16], rnd: u8) -> (r: Result<
        (),
        ExecError,
    >)
        requires
            old(self).wf(),
            op.wf(),
            old(self)@.pc + 4 <= 32767,
            (op.op == 0xE && (op.nn == 0x9E || op.nn == 0xA1)) ==> old(self)@.v[op.x as int] < 16,
        ensures
            final(self).wf(),
            r is Ok <==> step_ok(old(self)@, op),
            r is Ok ==> final(self)@ == step(old(self)@, op, pressed_keys@, rnd),
            !recognized(op) ==> r == Err::<(), ExecError>(
                ExecError::Unrecognized { op: op.op, nn: op.nn },
            ),
            (recognized(op) && is_return(op) && old(self)@.stack.len() == 0) ==> r == Err::<(
            ), ExecError>(ExecError::StackUnderflow),
            r is Err ==> final(self)@ == old(self)@,
    {
        if !Cpu::recognized_exec(op) {
            return Err(ExecError::Unrecognized { op: op.op, nn: op.nn });
        }
        if op.op == 0x0 && op.nn == 0xEE && self.stack.len() == 0 {
            return Err(ExecError::StackUnderflow);
        }
        self.pc = self.pc + 2;
        match op.op {
            0x0 => {
                if op.nn == 0xE0 {
                    Cpu::clear_display(&mut self.display);
                } else {
                    proof {
                        assert(old(self)@.stack[old(self)@.stack.len() - 1] < 32768);
                    }
                    match self.stack.pop() {
                        Some(a) => {
                            self.pc = a as i16;
                        }
                        None => {}
                    }
                    proof {
                        assert forall|k: int| 0 <= k < self@.stack.len() implies self@.stack[k]
                            < 32768 by {
                            assert(self@.stack[k] == old(self)@.stack[k]);
                        }
                    }
                }
            }
            0x1 => {
                self.pc = op.nnn as i16;
            }
            0x2 => {
                self.stack.push(self.pc as u16);
                self.pc = op.nnn as i16;
                proof {
                    assert forall|k: int| 0 <= k < self@.stack.len() implies self@.stack[k]
                        < 32768 by {
                        if k < self@.stack.len() - 1 {
                            assert(self@.stack[k] == old(self)@.stack[k]);
                        }
                    }
                }
            }
            0x3 => {
                if self.v[op.x as usize] == op.nn {
                    self.pc = self.pc + 2;
                }
            }
            0x4 => {
                if self.v[op.x as usize] != op.nn {
                    self.pc = self.pc + 2;
                }
            }
            0x5 => {
                if self.v[op.x as usize] == self.v[op.y as usize] {
                    self.pc = self.pc + 2;
                }
            }
            0x6 => {
                self.v[op.x as usize] = op.nn;
            }
            0x7 => {
                let sum: u16 = self.v[op.x as usize] as u16 + op.nn as u16;
                self.v[op.x as usize] = (sum % 256) as u8;
            }
            0x8 => {
                self.alu_op(op);
            }
            0x9 => {
                if self.v[op.x as usize] != self.v[op.y as usize] {
                    self.pc = self.pc + 2;
                }
            }
            0xA => {
                self.i = op.nnn;
            }
            0xB => {
                self.pc = (op.nnn + self.v[0] as u16) as i16;
            }
            0xC => {
                self.v[op.x as usize] = rnd & op.n;
            }
            0xD => {
                let xv = self.v[op.x as usize];
                let yv = self.v[op.y as usize];
                let x0 = xv & 63;
                let y0 = yv & 31;
                proof {
                    assert(xv & 63 < 64) by (bit_vector);
                    assert(yv & 31 < 32) by (bit_vector);
                }
                let collided = Cpu::draw_sprite(&mut self.display, &self.ram, self.i, x0, y0, op.n);
                self.v[15] = if collided {
                    1
                } else {
                    0
                };
            }
            0xE => {
                let key = self.v[op.x as usize];
                let pressed = pressed_keys[key as usize] == 1;
                if (op.nn == 0x9E) == pressed {
                    self.pc = self.pc + 2;
                }
            }
            _ => {
                if op.nn == 0x07 {
                    self.v[op.x as usize] = self.delay_timer;
                } else if op.nn == 0x0A {
                    self.is_waiting_for_input = true;
                    self.save_into_this_vx = op.x;
                } else if op.nn == 0x15 {
                    self.delay_timer = self.v[op.x as usize];
                } else if op.nn == 0x18 {
                    self.sound_timer = self.v[op.x as usize];
                } else if op.nn == 0x1E {
                    let ni: u32 = self.i as u32 + self.v[op.x as usize] as u32;
                    self.i = (ni % 65536) as u16;
                } else if op.nn == 0x29 {
                    self.i = self.v[op.x as usize] as u16 * 5;
                } else if op.nn == 0x33 {
                    let val = self.v[op.x as usize];
                    self.ram[((self.i as usize) + 2) % 4096] = val % 10;
                    self.ram[((self.i as usize) + 1) % 4096] = (val / 10) % 10;
                    self.ram[(self.i as usize) % 4096] = val / 100;
                } else if op.nn == 0x55 {
                    Cpu::dump_regs(&mut self.ram, &self.v, self.i, op.x);
                    proof {
                        lemma_dump_regs_len(old(self)@.ram, old(self)@.v, self.i as int, op.x as int);
                    }
                } else {
                    Cpu::load_regs(&mut self.v, &self.ram, self.i, op.x);
                    proof {
                        lemma_load_regs_len(old(self)@.v, old(self)@.ram, self.i as int, op.x as int);
                    }
                }
            }
        }
        Ok(())
    }

    /// The index register's current value.
    pub fn index(&self) -> (r: u16)
        ensures
            r == self@.i,
    {
        self.i
    }

    /// The call stack's current depth.
    pub fn stack_depth(&self) -> (r: usize)
        ensures
            r == self@.stack.len(),
    {
        self.stack.len()
    }

    /// Read one display pixel.
    pub fn pixel_at(&self, x: usize, y: usize) -> (r: bool)
        requires
            self.wf(),
            x < 64,
            y < 32,
        ensures
            r == pixel(self@.display, x as int, y as int),
    {
        self.display[x * 32 + y]
    }
}

/// Relies on rand::random: a byte from the process-wide generator.
/// Nothing is promised of its value; callers state what holds of every
/// outcome.
#[verifier::external_body]
fn random_byte() -> u8 {
    rand::random::<u8>()
}

} // verus!
