//! Native reference of the single-instruction step slice.

use vstd::prelude::*;

verus! {

/// `xori`: the register value xor the immediate.
pub fn native_xori(rs1: u64, imm: u64) -> (r: u64)
    ensures
        r == rs1 ^ imm,
{
    rs1 ^ imm
}

} // verus!
