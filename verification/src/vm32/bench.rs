//! Micro-programs of the per-instruction cost benchmark: a setup prefix
//! (x1 = 0x80000000, x2 = 0x7fffffff), `N` copies of one instruction, and a
//! jump to the halt row.

use vstd::prelude::*;
use crate::vm32::isa::{lhs_lui, addi, jal, u_word, i_word, j_word, OP_LUI, OP_OPIMM, OP_JAL, HALT_ADDR};

verus! {

/// Instruction copies per micro-program.
pub const N: usize = 16;
/// First address after the setup prefix.
pub const SETUP_SLOTS: u64 = 0x14;

pub open spec fn setup_words() -> Seq<(u64, u64)> {
    seq![
        (0x00u64, u_word(OP_LUI, 1, 0x80000)),
        (0x04u64, i_word(OP_OPIMM, 0, 1, 1, 0)),
        (0x08u64, u_word(OP_LUI, 2, 0x7ffff)),
        (0x0cu64, i_word(OP_OPIMM, 0, 2, 2, 0x0ff)),
        (0x10u64, i_word(OP_OPIMM, 0, 2, 2, 0xf00)),
    ]
}

/// The setup prefix.
pub fn setup() -> (p: Vec<(u64, u64)>)
    ensures
        p@ == setup_words(),
{
    let mut p: Vec<(u64, u64)> = Vec::new();
    p.push((0x00, lhs_lui(1, 0x80000)));
    p.push((0x04, addi(1, 1, 0)));
    p.push((0x08, lhs_lui(2, 0x7ffff)));
    p.push((0x0c, addi(2, 2, 0x0ff)));
    p.push((0x10, addi(2, 2, 0xf00)));
    assert(p@ =~= setup_words());
    p
}

/// Close a program with a jump from the next address to the halt row.
pub fn micro(p: Vec<(u64, u64)>) -> (q: Vec<(u64, u64)>)
    requires
        p@.len() > 0,
        p@.last().0 + 4 <= HALT_ADDR,
    ensures
        q@ == p@.push(
            ((p@.last().0 + 4) as u64, j_word(OP_JAL, 0, (HALT_ADDR - (p@.last().0 + 4)) as u64)),
        ),
{
    let mut p = p;
    let next = p[p.len() - 1].0 + 4;
    p.push((next, jal(0, 0xc4 - next)));
    p
}

/// The micro-program repeating the instruction `inst_gen(addr)` at each of
/// the `N` addresses after the setup prefix.
pub fn same_inst<F: Fn(u64) -> u64>(inst_gen: F) -> (p: Vec<(u64, u64)>)
    requires
        forall|a: u64| #[trigger] inst_gen.requires((a,)),
    ensures
        p@.len() == 5 + N + 1,
        p@.take(5) == setup_words(),
        forall|i: int|
            0 <= i < N ==> (#[trigger] p@[5 + i]).0 == SETUP_SLOTS + 4 * i && inst_gen.ensures(
                (p@[5 + i].0,),
                p@[5 + i].1,
            ),
        p@[5 + N as int] == (0x54u64, j_word(OP_JAL, 0, 0x70)),
{
    let mut p = setup();
    let mut i: u64 = 0;
    while i < N as u64
        invariant
            i <= N,
            forall|a: u64| #[trigger] inst_gen.requires((a,)),
            p@.len() == 5 + i,
            p@.take(5) == setup_words(),
            p@.last().0 == (if i == 0 { 0x10 } else { SETUP_SLOTS + 4 * (i - 1) }),
            forall|k: int|
                0 <= k < i ==> (#[trigger] p@[5 + k]).0 == SETUP_SLOTS + 4 * k && inst_gen.ensures(
                    (p@[5 + k].0,),
                    p@[5 + k].1,
                ),
        decreases N - i,
    {
        let a = SETUP_SLOTS + i * 4;
        let w = inst_gen(a);
        let ghost before = p@;
        p.push((a, w));
        assert(p@.take(5) =~= before.take(5));
        proof {
            assert forall|k: int| 0 <= k < i + 1 implies (#[trigger] p@[5 + k]).0 == SETUP_SLOTS + 4
                * k && inst_gen.ensures((p@[5 + k].0,), p@[5 + k].1) by {
                if k < i {
                    assert(p@[5 + k] == before[5 + k]);
                }
            }
        }
        i = i + 1;
    }
    micro(p)
}

} // verus!
