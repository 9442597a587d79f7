//! Native helpers shared by the ALU slices.

use vstd::prelude::*;

verus! {

/// Native `x ^ y` for the XORI instruction (char-2 linear).
pub fn native_xor(rs1: u64, imm: u64) -> (r: u64)
    ensures
        r == rs1 ^ imm,
{
    rs1 ^ imm
}

} // verus!
