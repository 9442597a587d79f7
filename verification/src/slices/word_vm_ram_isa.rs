//! What single instructions of the word VM with RAM do, stated in terms of
//! the state before the cycle.

use vstd::prelude::*;
use crate::slices::word_vm_ram::{VmState, NREG, NRAM, step};
use crate::slices::word_vm::sgn7_val;
use crate::bits::{bv_add_low32, bv_fields, bv_signed7};

verus! {

/// Law (instructions of the word VM with RAM): with `x = rs1`, `y = rs2`,
/// `off` the 7-bit immediate `inst[31:25]` read as two's complement and
/// `a = (x + off) mod 64` the RAM word it addresses, a cycle executing
/// `addi` (0x13) writes `(x + off) mod 2^32` to `rd`; `add` (0x33)
/// `(x + y) mod 2^32`; `lw` (0x03, funct3 2) the RAM word `a` (or the load
/// override); `sw` (0x23, funct3 2) sets RAM word `a` to `y` and changes no
/// other word; `beq` (0x63) goes, from pc `p` below `2^62`, to
/// `(p + off) mod 2^64` when `x == y` and to `p + 4` otherwise.
pub proof fn lemma_ram_vm_instructions(s: VmState, inst: u64, lov: Option<u64>)
    requires
        s.regs.len() == NREG,
        s.mem.len() == NRAM,
        (inst >> 7) & 0x1f < NREG,
        (inst >> 15) & 0x1f < NREG,
        (inst >> 20) & 0x1f < NREG,
        s.pc < 0x4000_0000_0000_0000,
    ensures
        ({
            let op = inst & 0x7f;
            let f3 = (inst >> 12) & 0x7;
            let rd = ((inst >> 7) & 0x1f) as int;
            let x = s.regs[((inst >> 15) & 0x1f) as int];
            let y = s.regs[((inst >> 20) & 0x1f) as int];
            let imm7 = ((inst >> 25) & 0x7f) as int;
            let off = if imm7 >= 64 {
                imm7 - 128
            } else {
                imm7
            };
            let a = (x as int + off) % 64;
            let s2 = step(s, inst, lov).1;
            &&& op == 0x13 ==> s2.regs[rd] as int == (x as int + off) % 0x1_0000_0000
            &&& op == 0x33 ==> s2.regs[rd] as int == (x as int + y as int) % 0x1_0000_0000
            &&& op == 0x03 && f3 == 2 && lov is None ==> s2.regs[rd] == s.mem[a]
            &&& op == 0x03 && f3 == 2 && lov is Some ==> s2.regs[rd] == lov.unwrap()
            &&& op == 0x23 && f3 == 2 ==> s2.mem == s.mem.update(a, y)
            &&& op == 0x63 ==> s2.pc as int == (if x == y {
                (s.pc as int + off) % 0x1_0000_0000_0000_0000
            } else {
                s.pc as int + 4
            })
        }),
{
    let imm = (inst >> 25) & 0x7f;
    bv_fields(inst);
    assert(imm < 128 && (imm & 0x40 != 0) == (imm >= 64));
    let x = s.regs[((inst >> 15) & 0x1f) as int];
    let y = s.regs[((inst >> 20) & 0x1f) as int];
    let d = sgn7_val(imm);
    bv_signed7(imm, s.pc, d);
    let b = d as u64;
    let off = d as int;
    if imm >= 64 {
        assert((((imm as i64) - 128) as i64) as u64 == imm + 0xffff_ffff_ffff_ff80);
        assert(b as int == off + 0x1_0000_0000_0000_0000);
    } else {
        assert(b as int == off);
    }
    let sb = ((x as u32).wrapping_add(b as u32)) as u64;
    bv_add_low32(x, b);
    assert(sb as int == (x as int + b as int) % 0x1_0000_0000);
    let sy = ((x as u32).wrapping_add(y as u32)) as u64;
    bv_add_low32(x, y);
    assert(sy as int == (x as int + y as int) % 0x1_0000_0000);
    vstd::arithmetic::div_mod::lemma_mod_multiples_vanish(
        0x1_0000_0000,
        x as int + off,
        0x1_0000_0000,
    );
    assert((sb as int) % 64 == (x as int + off) % 64) by {
        vstd::arithmetic::div_mod::lemma_mod_mod(x as int + b as int, 64, 0x400_0000);
        vstd::arithmetic::div_mod::lemma_mod_multiples_vanish(0x400_0000_0000_0000, x as int + off, 64);
    }
    let p = s.pc;
    let t = ((p as i64) + d) as u64;
    assert(-64 <= d < 64);
    bv_signed7(imm, p, d);
    assert(t as int == (p as int + d as int) % 0x1_0000_0000_0000_0000);
    assert(p.wrapping_add(4) as int == p as int + 4);
}

} // verus!
