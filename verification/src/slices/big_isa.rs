//! What single instructions of the big-RAM machine do, stated in terms of
//! the state before the cycle: loads and stores into its `K`-word RAM,
//! branches and jumps, and register arithmetic.

use vstd::prelude::*;
use vstd::arithmetic::power2::{pow2, lemma2_to64};
use crate::vm32::interp::{MachineState, imm_i, imm_s, imm_b, imm_j};
use crate::vm32::isa::{NREG, imm_i_raw, imm_s_raw, imm_b_raw, imm_j_raw};
use crate::vm32::alu32::signed32;
use crate::vm32::isa_laws::{
    as_signed, signed12, branch_offset, lemma_sign_extend_value, lemma_add_imm_mod, lemma_shl32,
    lemma_srl32, lemma_sra32, lemma_imm_i_word,
};
use crate::slices::vm_ram_sort::{K, big_step};
use crate::bits::{bv_add32, bv_add64, bv_fields, bv_sub32, bv_u32, bv_u64};

verus! {

/// The S-type immediate field: bits 31:25 and 11:7 of `inst`.
pub open spec fn store_field(inst: u64) -> int {
    ((inst / 0x200_0000) % 0x80) as int * 0x20 + ((inst / 0x80) % 0x20) as int
}

/// The J-type offset: bits 31, 19:12, 20 and 30:21 of `inst` placed at
/// offset bits 20, 19:12, 11 and 10:1, read as 21-bit two's complement.
pub open spec fn jump_offset(inst: u64) -> int {
    let raw = ((inst / 0x8000_0000) % 2) as int * 0x10_0000 + ((inst / 0x1000) % 0x100) as int
        * 0x1000 + ((inst / 0x10_0000) % 2) as int * 0x800 + ((inst / 0x20_0000) % 0x400) as int * 2;
    if raw >= 0x10_0000 {
        raw - 0x20_0000
    } else {
        raw
    }
}

proof fn lemma_fields(inst: u64)
    ensures
        imm_i_raw(inst) as int == ((inst / 0x10_0000) % 0x1000) as int,
        imm_i_raw(inst) < 0x1000,
        imm_s_raw(inst) as int == store_field(inst),
        imm_s_raw(inst) < 0x1000,
        imm_b_raw(inst) < 0x2000,
        imm_j_raw(inst) < 0x20_0000,
        imm_i(inst) as int == signed12(imm_i_raw(inst) as int) || imm_i(inst) as int == signed12(
            imm_i_raw(inst) as int,
        ) + 0x1_0000_0000_0000_0000,
        imm_s(inst) as int == signed12(store_field(inst)) || imm_s(inst) as int == signed12(
            store_field(inst),
        ) + 0x1_0000_0000_0000_0000,
        imm_b(inst) as int == branch_offset(inst) || imm_b(inst) as int == branch_offset(inst)
            + 0x1_0000_0000_0000_0000,
        imm_j(inst) as int == jump_offset(inst) || imm_j(inst) as int == jump_offset(inst)
            + 0x1_0000_0000_0000_0000,
{
    lemma2_to64();
    let ri = imm_i_raw(inst);
    let rs = imm_s_raw(inst);
    let rb = imm_b_raw(inst);
    let rj = imm_j_raw(inst);
    bv_fields(inst);
    assert(ri == (inst / 0x10_0000) % 0x1000 && ri < 0x1000);
    assert(rs == ((inst / 0x200_0000) % 0x80) * 0x20 + (inst / 0x80) % 0x20 && rs < 0x1000);
    assert(rb == ((inst / 0x8000_0000) % 2) * 0x1000 + ((inst / 0x80) % 2) * 0x800 + ((inst
        / 0x200_0000) % 0x40) * 0x20 + ((inst / 0x100) % 0x10) * 2 && rb < 0x2000);
    assert(rj == ((inst / 0x8000_0000) % 2) * 0x10_0000 + ((inst / 0x1000) % 0x100) * 0x1000 + ((
    inst / 0x10_0000) % 2) * 0x800 + ((inst / 0x20_0000) % 0x400) * 2 && rj < 0x20_0000);
    lemma_sign_extend_value(ri, 12);
    lemma_sign_extend_value(rs, 12);
    lemma_sign_extend_value(rb, 13);
    lemma_sign_extend_value(rj, 21);
}

/// Law (memory, branches and jumps of the big-RAM machine): for a cycle at
/// pc `p` with `x = rs1`, `y = rs2` (`sx`, `sy` their two's-complement
/// values), `iv` the I-immediate `inst[31:20]` and `sv` the S-immediate
/// `inst[31:25] : inst[11:7]` read as 12-bit two's complement:
/// `lw` (0x03, funct3 2, `rd != 0`) writes RAM word `(x + iv) mod K` to `rd`;
/// `sw` (0x23, funct3 2) sets RAM word `(x + sv) mod K` to `y`; a branch
/// (0x63) taken as its funct3 says (`beq` `x == y`, `bne` `x != y`, `blt`
/// `sx < sy`, `bge` `sx >= sy`, `bltu` `x < y`, `bgeu` `x >= y`) goes to
/// `(p + branch_offset) mod 2^32`, an untaken one to `(p + 4) mod 2^64`;
/// `jal` (0x6f) goes to `(p + jump_offset) mod 2^32`; `jalr` (0x67) to
/// `t - t mod 2` for `t = (x + iv) mod 2^32`.
pub proof fn lemma_big_memory_and_control(s: MachineState, inst: u64)
    requires
        s.regs.len() == NREG,
        s.mem.len() == K,
    ensures
        ({
            let op = inst & 0x7f;
            let f3 = (inst >> 12) & 0x7;
            let rd = ((inst >> 7) & 0x1f) as int;
            let x = s.regs[((inst >> 15) & 0x1f) as int] as int;
            let yw = s.regs[((inst >> 20) & 0x1f) as int];
            let y = yw as int;
            let iv = signed12(((inst / 0x10_0000) % 0x1000) as int);
            let sv = signed12(store_field(inst));
            let taken = (f3 == 0 && x == y) || (f3 == 1 && x != y) || (f3 == 4 && as_signed(x)
                < as_signed(y)) || (f3 == 5 && as_signed(x) >= as_signed(y)) || (f3 == 6 && x < y)
                || (f3 == 7 && x >= y);
            let t = (x + iv) % 0x1_0000_0000;
            let s2 = big_step(s, inst).1;
            &&& op == 0x03 && f3 == 2 && rd != 0 ==> s2.regs[rd] == s.mem[(x + iv) % 0x1_0000]
            &&& op == 0x23 && f3 == 2 ==> s2.mem == s.mem.update((x + sv) % 0x1_0000, yw)
            &&& op == 0x63 ==> s2.pc as int == (if taken {
                (s.pc as int + branch_offset(inst)) % 0x1_0000_0000
            } else {
                (s.pc as int + 4) % 0x1_0000_0000_0000_0000
            })
            &&& op == 0x6f ==> s2.pc as int == (s.pc as int + jump_offset(inst)) % 0x1_0000_0000
            &&& op == 0x67 ==> s2.pc as int == t - t % 2
        }),
{
    crate::vm32::interp::lemma_field_bounds(inst);
    lemma_fields(inst);
    let xw = s.regs[((inst >> 15) & 0x1f) as int];
    let yw = s.regs[((inst >> 20) & 0x1f) as int];
    let x = xw as int;
    let p = s.pc;
    let ii = imm_i(inst);
    let is = imm_s(inst);
    let ib = imm_b(inst);
    let ij = imm_j(inst);
    let la = (xw as u64).wrapping_add(ii);
    let sa = (xw as u64).wrapping_add(is);
    let pb = p.wrapping_add(ib);
    let pj = p.wrapping_add(ij);
    bv_add64(xw as u64, ii);
    bv_add64(xw as u64, is);
    bv_add64(p, ib);
    bv_add64(p, ij);
    bv_add64(p, 4);
    bv_u64(la);
    bv_u64(sa);
    bv_u64(pb);
    bv_u64(pj);
    assert(la as int == (xw as int + ii as int) % 0x1_0000_0000_0000_0000 && (la & 0xffff) as int
        == la as int % 0x1_0000 && (la & 0xffff_fffe) as int == la as int % 0x1_0000_0000 - (la
        as int % 0x1_0000_0000) % 2);
    assert(sa as int == (xw as int + is as int) % 0x1_0000_0000_0000_0000 && (sa & 0xffff) as int
        == sa as int % 0x1_0000);
    assert(pb as int == (p as int + ib as int) % 0x1_0000_0000_0000_0000 && (pb & 0xffff_ffff) as int
        == pb as int % 0x1_0000_0000);
    assert(pj as int == (p as int + ij as int) % 0x1_0000_0000_0000_0000 && (pj & 0xffff_ffff) as int
        == pj as int % 0x1_0000_0000);
    assert(p.wrapping_add(4) as int == (p as int + 4) % 0x1_0000_0000_0000_0000);
    let iv = signed12(imm_i_raw(inst) as int);
    lemma_add_imm_mod(x, ii as int, iv, 0x1_0000, 0x1_0000_0000_0000);
    lemma_add_imm_mod(x, ii as int, iv, 0x1_0000_0000, 0x1_0000_0000);
    lemma_add_imm_mod(x, is as int, signed12(store_field(inst)), 0x1_0000, 0x1_0000_0000_0000);
    lemma_add_imm_mod(p as int, ib as int, branch_offset(inst), 0x1_0000_0000, 0x1_0000_0000);
    lemma_add_imm_mod(p as int, ij as int, jump_offset(inst), 0x1_0000_0000, 0x1_0000_0000);
    vstd::arithmetic::div_mod::lemma_mod_mod(la as int, 0x1_0000_0000, 0x1_0000_0000);
    assert(signed32(xw) == as_signed(x) && signed32(yw) == as_signed(yw as int));
}

/// Law (register-register arithmetic of the big-RAM machine): a cycle
/// executing an `OP` word (0x33) with `rd != 0`, `x = rs1`, `y = rs2`,
/// `sh = y mod 32`, writes to `rd`: `add` `(x + y) mod 2^32`, `sub` (funct7
/// 0x20) `(x - y) mod 2^32`, `sll` `x * 2^sh mod 2^32`, `slt` `sx < sy`,
/// `sltu` `x < y`, `srl` `x / 2^sh`, `sra` (funct7 0x20)
/// `floor(sx / 2^sh) mod 2^32`.
#[verifier::rlimit(40)]
pub proof fn lemma_big_register_ops(s: MachineState, inst: u64)
    requires
        s.regs.len() == NREG,
        inst & 0x7f == 0x33,
        (inst >> 7) & 0x1f != 0,
    ensures
        ({
            let f3 = (inst >> 12) & 0x7;
            let f7 = (inst >> 25) & 0x7f;
            let rd = ((inst >> 7) & 0x1f) as int;
            let x = s.regs[((inst >> 15) & 0x1f) as int] as int;
            let y = s.regs[((inst >> 20) & 0x1f) as int] as int;
            let sh = (y % 32) as nat;
            let v = big_step(s, inst).1.regs[rd] as int;
            &&& f3 == 0 && f7 != 0x20 ==> v == (x + y) % 0x1_0000_0000
            &&& f3 == 0 && f7 == 0x20 ==> v == (x - y) % 0x1_0000_0000
            &&& f3 == 1 ==> v == (x * pow2(sh)) % 0x1_0000_0000
            &&& f3 == 2 ==> v == (if as_signed(x) < as_signed(y) {
                1int
            } else {
                0
            })
            &&& f3 == 3 ==> v == (if x < y {
                1int
            } else {
                0
            })
            &&& f3 == 5 && f7 != 0x20 ==> v == x / (pow2(sh) as int)
            &&& f3 == 5 && f7 == 0x20 ==> v == (as_signed(x) / (pow2(sh) as int)) % 0x1_0000_0000
        }),
{
    crate::vm32::interp::lemma_field_bounds(inst);
    let xw = s.regs[((inst >> 15) & 0x1f) as int];
    let yw = s.regs[((inst >> 20) & 0x1f) as int];
    let sh = yw & 0x1f;
    bv_u32(xw, yw);
    bv_add32(xw, yw);
    bv_sub32(xw, yw);
    assert(sh as int == yw as int % 32 && sh < 32);
    lemma_shl32(xw, sh);
    lemma_srl32(xw, sh);
    lemma_sra32(xw, sh);
    assert(signed32(xw) == as_signed(xw as int) && signed32(yw) == as_signed(yw as int));
}

/// Law (register-immediate arithmetic of the big-RAM machine): a cycle
/// executing an `OP-IMM` word (0x13) with `rd != 0`, `x = rs1`, `iv` the
/// I-immediate `inst[31:20]` read as 12-bit two's complement and
/// `sa = inst[24:20]`, writes to `rd`: `addi` `(x + iv) mod 2^32`, `slti`
/// `sx < iv`, `sltiu` `x < iv mod 2^32`, `slli` `x * 2^sa mod 2^32`, `srli`
/// `x / 2^sa`, `srai` (funct7 0x20) `floor(sx / 2^sa) mod 2^32`.
#[verifier::rlimit(40)]
pub proof fn lemma_big_immediate_ops(s: MachineState, inst: u64)
    requires
        s.regs.len() == NREG,
        inst & 0x7f == 0x13,
        (inst >> 7) & 0x1f != 0,
    ensures
        ({
            let f3 = (inst >> 12) & 0x7;
            let f7 = (inst >> 25) & 0x7f;
            let rd = ((inst >> 7) & 0x1f) as int;
            let x = s.regs[((inst >> 15) & 0x1f) as int] as int;
            let iv = signed12(((inst / 0x10_0000) % 0x1000) as int);
            let sa = ((inst >> 20) & 0x1f) as nat;
            let v = big_step(s, inst).1.regs[rd] as int;
            &&& f3 == 0 ==> v == (x + iv) % 0x1_0000_0000
            &&& f3 == 2 ==> v == (if as_signed(x) < iv {
                1int
            } else {
                0
            })
            &&& f3 == 3 ==> v == (if x < iv % 0x1_0000_0000 {
                1int
            } else {
                0
            })
            &&& f3 == 1 ==> v == (x * pow2(sa)) % 0x1_0000_0000
            &&& f3 == 5 && f7 != 0x20 ==> v == x / (pow2(sa) as int)
            &&& f3 == 5 && f7 == 0x20 ==> v == (as_signed(x) / (pow2(sa) as int)) % 0x1_0000_0000
        }),
{
    crate::vm32::interp::lemma_field_bounds(inst);
    lemma_imm_i_word(inst);
    lemma_shamt(inst);
    let xw = s.regs[((inst >> 15) & 0x1f) as int];
    let iw = imm_i(inst) as u32;
    let raw = (inst >> 20) & 0xfff;
    bv_fields(inst);
    assert(raw as int == ((inst / 0x10_0000) % 0x1000) as int && raw < 0x1000);
    let sa = ((inst >> 20) & 0x1f) as u32;
    assert(sa < 32);
    lemma_shl32(xw, sa);
    lemma_srl32(xw, sa);
    lemma_sra32(xw, sa);
    bv_add32(xw, iw);
    let iv = signed12(raw as int);
    assert((xw as int + iw as int) % 0x1_0000_0000 == (xw as int + iv) % 0x1_0000_0000) by {
        if raw >= 0x800 {
            assert(iw as int == iv + 0x1_0000_0000);
            vstd::arithmetic::div_mod::lemma_mod_multiples_vanish(1, xw as int + iv, 0x1_0000_0000);
        } else {
            assert(iw as int == iv);
        }
    }
    assert(signed32(xw) == as_signed(xw as int));
    assert(signed32(iw) == iv) by {
        if raw >= 0x800 {
            assert(iw as int == iv + 0x1_0000_0000);
        }
    }
}

/// The shift amount the big machine takes from the sign-extended
/// I-immediate is the raw field `inst[24:20]`.
proof fn lemma_shamt(inst: u64)
    ensures
        (imm_i(inst) & 0x1f) as u32 == ((inst >> 20) & 0x1f) as u32,
{
    lemma2_to64();
    let ii = imm_i(inst);
    let raw = imm_i_raw(inst);
    bv_fields(inst);
    assert(raw % 32 == (inst >> 20) & 0x1f && raw < 0x1000);
    lemma_sign_extend_value(raw, 12);
    bv_u64(ii);
    if raw >= 0x800 {
        assert(ii as int == raw as int + 32 * (0x800_0000_0000_0000 - 0x80));
        vstd::arithmetic::div_mod::lemma_mod_multiples_vanish(
            0x800_0000_0000_0000 - 0x80,
            raw as int,
            32,
        );
    }
}

} // verus!
