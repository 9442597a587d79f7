//! Instruction word of the multi-instruction slice.

use vstd::prelude::*;
use crate::vm32::isa::{i_word, OP_OPIMM};

verus! {

pub const PC_INC: u64 = 4;
pub const N: usize = 4;
pub const START_PC: u64 = 0x10;
pub const START_X5: u64 = 0xA5;
/// Immediates of the straight-line `xori` program.
pub const IMMS: [u64; 4] = [0x2A, 0x0F, 0x53, 0x80];

/// `xori x5, x5, imm`.
pub fn enc_xori(imm: u64) -> (w: u64)
    ensures
        w == i_word(OP_OPIMM, 0x4, 5, 5, imm),
{
    proof {
        assert(((imm & 0xfff) << 20) | (5u64 << 15) | (0x4u64 << 12) | (5u64 << 7) | 0x13u64
            == 0x13u64 | (5u64 << 7) | (0x4u64 << 12) | (5u64 << 15) | ((imm & 0xfff) << 20))
            by (bit_vector);
    }
    ((imm & 0xfff) << 20) | (5u64 << 15) | (0x4 << 12) | (5u64 << 7) | 0x13
}

} // verus!
