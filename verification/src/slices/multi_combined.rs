//! Instruction word of the combined multi-instruction slice.

use vstd::prelude::*;
use crate::vm32::isa::{i_word, OP_OPIMM};

verus! {

pub const PC_INC: u64 = 4;
pub const N: usize = 2;
pub const START_PC: u64 = 0x00;
pub const START_X5: u64 = 0xA5;
/// Immediates of the two `addi` instructions.
pub const IMMS: [u64; 2] = [1, 2];

/// `addi x5, x5, imm`.
pub fn enc_addi(imm: u64) -> (w: u64)
    ensures
        w == i_word(OP_OPIMM, 0, 5, 5, imm),
{
    proof {
        assert(((imm & 0xfff) << 20) | (5u64 << 15) | (0u64 << 12) | (5u64 << 7) | 0x13u64
            == 0x13u64 | (5u64 << 7) | (0u64 << 12) | (5u64 << 15) | ((imm & 0xfff) << 20))
            by (bit_vector);
    }
    ((imm & 0xfff) << 20) | (5u64 << 15) | (0u64 << 12) | (5u64 << 7) | 0x13
}

/// x5 after the first `k` of the `addi x5, x5, imm` steps (wrapping).
pub open spec fn addi_prefix(x0: u64, imms: Seq<u64>, k: nat) -> u64
    decreases k,
{
    if k == 0 {
        x0
    } else {
        addi_prefix(x0, imms, (k - 1) as nat).wrapping_add(imms[k - 1])
    }
}

/// The x5 trace: the start value, then the value after each step.
pub fn addi_chain(x0: u64, imms: &[u64]) -> (t: Vec<u64>)
    requires
        imms@.len() < usize::MAX,
    ensures
        t@.len() == imms@.len() + 1,
        forall|k: int| 0 <= k <= imms@.len() ==> #[trigger] t@[k] == addi_prefix(x0, imms@, k as nat),
{
    let mut t: Vec<u64> = Vec::new();
    t.push(x0);
    let mut i: usize = 0;
    while i < imms.len()
        invariant
            i <= imms@.len() < usize::MAX,
            t@.len() == i + 1,
            forall|k: int| 0 <= k <= i ==> #[trigger] t@[k] == addi_prefix(x0, imms@, k as nat),
        decreases imms@.len() - i,
    {
        let last = t[t.len() - 1];
        t.push(last.wrapping_add(imms[i]));
        i = i + 1;
    }
    t
}

} // verus!
