//! The decoded instruction record: redundant views of one 16-bit
//! big-endian instruction word, as the executor consumes it.

use vstd::prelude::*;

verus! {

/// One decoded instruction word. `op` is the top nibble (the
/// instruction family), `x` and `y` are register indices (second and
/// third nibble), `n` is the low nibble, `nn` the low byte and `nnn`
/// the low 12 bits of the same word.
#[derive(Clone, Copy, Debug)]
pub struct Op {
    pub op: u8,
    pub x: u8,
    pub y: u8,
    pub n: u8,
    pub nn: u8,
    pub nnn: u16,
}

impl Op {
    /// The fields are in the ranges that decoding a 16-bit word produces.
    pub open spec fn wf(self) -> bool {
        &&& self.op <= 0xF
        &&& self.x <= 0xF
        &&& self.y <= 0xF
        &&& self.n <= 0xF
        &&& self.nnn <= 0xFFF
    }

    /// Decompose a 16-bit big-endian instruction word, given as its
    /// high and low byte, into its redundant field views.
    pub fn decode(hi: u8, lo: u8) -> (r: Op)
        ensures
            r.wf(),
            r.op == hi / 16,
            r.x == hi % 16,
            r.y == lo / 16,
            r.n == lo % 16,
            r.nn == lo,
            r.nnn == (hi % 16) as u16 * 256 + lo,
    {
        Op {
            op: hi / 16,
            x: hi % 16,
            y: lo / 16,
            n: lo % 16,
            nn: lo,
            nnn: (hi % 16) as u16 * 256 + lo as u16,
        }
    }
}

} // verus!
