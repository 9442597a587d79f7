//! One `addi x5, x5, 1` step at `pc = 0` checked twice: as a state
//! transition `(pc, x5) -> (pc + 4, x5 + 1)` and as a lookup of the
//! instruction word in the program table.

use vstd::prelude::*;
use crate::vm32::isa::{i_word, OP_OPIMM};
use crate::slices::multi_combined::enc_addi;

verus! {

pub const PC_INC: u64 = 4;
pub const INIT_PC: u64 = 0x00;
pub const INIT_X5: u64 = 0xA5;

/// The concrete step: `(instruction word, pc, x5, pc', x5')`.
pub fn addi_step() -> (r: (u64, u64, u64, u64, u64))
    ensures
        r.0 == i_word(OP_OPIMM, 0, 5, 5, 1),
        r.1 == INIT_PC,
        r.2 == INIT_X5,
        r.3 == INIT_PC + PC_INC,
        r.4 == INIT_X5 + 1,
{
    let inst_word = enc_addi(1);
    let init_pc: u64 = INIT_PC;
    let init_x5: u64 = INIT_X5;
    let final_x5 = init_x5.wrapping_add(1);
    let final_pc = init_pc + PC_INC;
    (inst_word, init_pc, init_x5, final_pc, final_x5)
}

/// The program table over `2^m` addresses: `word` at slot `pc mod 2^m`, zero
/// elsewhere.
pub fn program_table(m: usize, pc: u64, word: u64) -> (t: Vec<u64>)
    requires
        m < 32,
    ensures
        t@.len() == vstd::arithmetic::power2::pow2(m as nat),
        forall|k: int|
            0 <= k < t@.len() ==> #[trigger] t@[k] == (if k == pc % (t@.len() as u64) { word } else { 0 }),
{
    proof {
        vstd::bits::lemma_u64_pow2_no_overflow(m as nat);
        vstd::arithmetic::power2::lemma_pow2_strictly_increases(m as nat, 32);
        vstd::arithmetic::power2::lemma2_to64();
        vstd::arithmetic::power2::lemma_pow2_pos(m as nat);
        vstd::bits::lemma_u64_shl_is_mul(1, m as u64);
    }
    let size64: u64 = 1u64 << (m as u64);
    let size: usize = size64 as usize;
    let mut t: Vec<u64> = Vec::new();
    let mut k: usize = 0;
    while k < size
        invariant
            k <= size,
            t@.len() == k,
            forall|q: int| 0 <= q < k ==> #[trigger] t@[q] == 0,
        decreases size - k,
    {
        t.push(0);
        k = k + 1;
    }
    let slot64 = pc & (size64 - 1);
    proof {
        vstd::bits::lemma_u64_low_bits_mask_is_mod(pc, m as nat);
        assert(slot64 == pc % size64);
    }
    t.set(slot64 as usize, word);
    proof {
        assert forall|q: int| 0 <= q < t@.len() implies #[trigger] t@[q] == (if q == pc % (t@.len() as u64) { word } else { 0 }) by {
        }
    }
    t
}

} // verus!
