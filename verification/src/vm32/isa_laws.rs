//! What single instructions of the 32-register machine do, stated in terms
//! of the state before the cycle: sub-word loads and the upper-immediate and
//! link instructions.

use vstd::prelude::*;
use crate::vm32::isa::{NREG, sign_extend};
use crate::vm32::interp::{MachineState, step, state_ok, load_address, store_address, imm_i, imm_b};
use crate::vm32::alu32::{
    load_extract, sext8, sext16, sra32, signed32, alu_reg, to_u32, abs, quot_trunc, rem_trunc,
    lemma_quot_rem_trunc, store_merge,
};
use vstd::arithmetic::power2::{pow2, lemma2_to64, lemma_pow2_pos, lemma_pow2_strictly_increases};
use vstd::arithmetic::div_mod::lemma_fundamental_div_mod_converse;
use crate::bits::{
    bv_add32, bv_add64, bv_add_low32, bv_fields, bv_mul32, bv_shift32, bv_sub32, bv_subwords,
    bv_u32, bv_u64,
};

verus! {

/// Byte `j` (`0..4`, little-endian) of the 32-bit value `w`.
pub open spec fn byte_at(w: int, j: int) -> int {
    if j == 0 {
        w % 0x100
    } else if j == 1 {
        (w / 0x100) % 0x100
    } else if j == 2 {
        (w / 0x1_0000) % 0x100
    } else {
        (w / 0x100_0000) % 0x100
    }
}

/// Half-word `j` (`0..2`, little-endian) of the 32-bit value `w`.
pub open spec fn half_at(w: int, j: int) -> int {
    if j == 0 {
        w % 0x1_0000
    } else {
        (w / 0x1_0000) % 0x1_0000
    }
}

proof fn lemma_extract_bytes(w: u32, off: u32)
    requires
        off < 4,
    ensures
        ((w >> (8 * off) as u32) & 0xff) as int == byte_at(w as int, off as int),
        ((w >> (16 * (off >> 1)) as u32) & 0xffff) as int == half_at(w as int, (off / 2) as int),
{
    bv_subwords(w, off);
    if off == 0 {
        assert((8 * off) as u32 == 0u32 && (16 * (off >> 1)) as u32 == 0u32);
    } else if off == 1 {
        assert((8 * off) as u32 == 8u32 && (16 * (off >> 1)) as u32 == 0u32);
    } else if off == 2 {
        assert((8 * off) as u32 == 16u32 && (16 * (off >> 1)) as u32 == 16u32);
    } else {
        assert((8 * off) as u32 == 24u32 && (16 * (off >> 1)) as u32 == 16u32);
    }
}

/// Law (sub-word loads): a cycle executing a load (`opcode 0x03`) with
/// `rd != 0` reads the RAM word `w` that holds its byte address `a`
/// (`rs1 + imm`, modulo `2^32`; word `(a / 4) mod 64`) and writes to `rd`:
/// for `lb` (funct3 0) byte `a mod 4` of `w` sign-extended from bit 7; for
/// `lbu` (4) that byte zero-extended; for `lh` (1) the half-word
/// `(a mod 4) / 2` of `w` sign-extended from bit 15; for `lhu` (5) that
/// half-word zero-extended.
pub proof fn lemma_subword_loads(s: MachineState, inst: u64, lov: Option<u32>, k: nat)
    requires
        state_ok(s, k),
        inst & 0x7f == 0x03,
        (inst >> 7) & 0x1f != 0,
    ensures
        ({
            let rd = ((inst >> 7) & 0x1f) as int;
            let f3 = (inst >> 12) & 0x7;
            let a = load_address(s, inst) as int;
            let w = s.mem[(a / 4) % 64] as int;
            let b = byte_at(w, a % 4);
            let h = half_at(w, (a % 4) / 2);
            let v = step(s, inst, lov).1.regs[rd] as int;
            &&& f3 == 0 ==> v == (if b < 0x80 {
                b
            } else {
                b + 0xffff_ff00
            })
            &&& f3 == 4 ==> v == b
            &&& f3 == 1 ==> v == (if h < 0x8000 {
                h
            } else {
                h + 0xffff_0000
            })
            &&& f3 == 5 ==> v == h
        }),
{
    crate::vm32::interp::lemma_field_bounds(inst);
    let addr = load_address(s, inst);
    let off = (addr & 3) as u32;
    bv_u64(addr);
    assert(off < 4);
    let w = s.mem[((addr >> 2) % 64) as int];
    lemma_extract_bytes(w, off);
    let b = (w >> (8 * off) as u32) & 0xff;
    let h = (w >> (16 * (off >> 1)) as u32) & 0xffff;
    bv_subwords(w, (8 * off) as u32);
    bv_subwords(w, (16 * (off >> 1)) as u32);
    assert(b < 0x100 && h < 0x1_0000);
    assert(sext8(b) as int == (if b < 0x80 {
        b as int
    } else {
        b + 0xffff_ff00
    }));
    assert(sext16(h) as int == (if h < 0x8000 {
        h as int
    } else {
        h + 0xffff_0000
    }));
}

/// Law (upper immediates and links): a cycle at pc `p` with `rd != 0`
/// writes to `rd`, with `u = inst[31:12] << 12`: for `lui` (opcode 0x37)
/// `u`; for `auipc` (0x17) `(p + u) mod 2^32`; for `jal` (0x6f) and `jalr`
/// (0x67) the return address `(p + 4) mod 2^32`.
pub proof fn lemma_upper_and_link(s: MachineState, inst: u64, lov: Option<u32>, k: nat)
    requires
        state_ok(s, k),
        (inst >> 7) & 0x1f != 0,
    ensures
        ({
            let rd = ((inst >> 7) & 0x1f) as int;
            let op = inst & 0x7f;
            let u = ((inst / 0x1000) % 0x10_0000) * 0x1000;
            let v = step(s, inst, lov).1.regs[rd] as int;
            &&& op == 0x37 ==> v == u
            &&& op == 0x17 ==> v == (s.pc as int + u) % 0x1_0000_0000
            &&& (op == 0x6f || op == 0x67) ==> v == (s.pc as int + 4) % 0x1_0000_0000
        }),
{
    crate::vm32::interp::lemma_field_bounds(inst);
    let iu = crate::vm32::interp::imm_u(inst);
    bv_fields(inst);
    assert(iu == ((inst / 0x1000) % 0x10_0000) * 0x1000 && iu < 0x1_0000_0000);
    let p = s.pc;
    bv_add_low32(p, iu);
    bv_add_low32(p, 4);
    assert(4u64 as u32 == 4u32);
}

/// The two's-complement value of a 32-bit word, written out.
pub open spec fn as_signed(x: int) -> int {
    if x >= 0x8000_0000 {
        x - 0x1_0000_0000
    } else {
        x
    }
}

pub(crate) proof fn lemma_shl32(x: u32, sh: u32)
    requires
        sh < 32,
    ensures
        (x << sh) as int == (x as int * pow2(sh as nat)) % 0x1_0000_0000,
{
    lemma2_to64();
    lemma_pow2_strictly_increases(sh as nat, 32);
    lemma_pow2_pos(sh as nat);
    let xx = x as u64;
    assert(xx * pow2(sh as nat) <= u64::MAX) by (nonlinear_arith)
        requires
            xx < 0x1_0000_0000,
            pow2(sh as nat) < 0x1_0000_0000,
    ;
    vstd::bits::lemma_u64_shl_is_mul(xx, sh as u64);
    let z = xx << (sh as u64);
    bv_shift32(x, sh);
}

pub(crate) proof fn lemma_srl32(x: u32, sh: u32)
    requires
        sh < 32,
    ensures
        (x >> sh) as int == x as int / (pow2(sh as nat) as int),
{
    vstd::bits::lemma_u32_shr_is_div(x, sh);
}

pub(crate) proof fn lemma_sra32(x: u32, sh: u32)
    requires
        sh < 32,
    ensures
        sra32(x, sh) as int == (as_signed(x as int) / (pow2(sh as nat) as int)) % 0x1_0000_0000,
{
    lemma2_to64();
    lemma_pow2_pos(sh as nat);
    lemma_pow2_strictly_increases(sh as nat, 32);
    let p = pow2(sh as nat) as int;
    bv_shift32(x, sh);
    bv_u32(x, x);
    if x < 0x8000_0000 {
        vstd::bits::lemma_u32_shr_is_div(x, sh);
        assert(x as int / p <= x as int) by (nonlinear_arith)
            requires
                p >= 1,
                x >= 0,
        ;
    } else {
        let nx = !x;
        assert(nx as int == 0xffff_ffff - x as int && nx < 0x8000_0000);
        vstd::bits::lemma_u32_shr_is_div(nx, sh);
        let q = nx as int / p;
        let r = nx as int % p;
        vstd::arithmetic::div_mod::lemma_fundamental_div_mod(nx as int, p);
        vstd::arithmetic::div_mod::lemma_mod_bound(nx as int, p);
        assert(0 <= q <= nx) by (nonlinear_arith)
            requires
                p >= 1,
                nx >= 0,
                q == nx as int / p,
        ;
        let sx = as_signed(x as int);
        assert(sx == -(nx as int + 1));
        assert(sx == (-(q + 1)) * p + (p - r - 1)) by (nonlinear_arith)
            requires
                nx == q * p + r,
                sx == -(nx as int + 1),
        ;
        lemma_fundamental_div_mod_converse(sx, p, -(q + 1), p - r - 1);
        lemma_fundamental_div_mod_converse(-(q + 1), 0x1_0000_0000, -1, 0x1_0000_0000 - q - 1);
        let m = (nx >> sh);
        bv_u32(m, m);
    }
}

/// Law (register-register operations): a cycle executing an `OP` word
/// (opcode 0x33, funct7 other than 1) with `rd != 0` writes to `rd`, for
/// `x = rs1`, `y = rs2`, `sh = y mod 32` and `sx`, `sy` their
/// two's-complement values: `add` `(x + y) mod 2^32`; `sub` (funct7 0x20)
/// `(x - y) mod 2^32`; `sll` `x * 2^sh mod 2^32`; `slt` `sx < sy`; `sltu`
/// `x < y`; `srl` `x / 2^sh`; `sra` (funct7 0x20) `floor(sx / 2^sh) mod
/// 2^32`; `xor` `(x | y) - (x & y)`; `or` `x + y - (x & y)`; `and`
/// `x + y - (x | y)`.
pub proof fn lemma_register_ops(s: MachineState, inst: u64, lov: Option<u32>, k: nat)
    requires
        state_ok(s, k),
        inst & 0x7f == 0x33,
        (inst >> 25) & 0x7f != 1,
        (inst >> 7) & 0x1f != 0,
    ensures
        ({
            let rd = ((inst >> 7) & 0x1f) as int;
            let f3 = (inst >> 12) & 0x7;
            let f7 = (inst >> 25) & 0x7f;
            let xw = s.regs[((inst >> 15) & 0x1f) as int];
            let yw = s.regs[((inst >> 20) & 0x1f) as int];
            let x = xw as int;
            let y = yw as int;
            let sh = (y % 32) as nat;
            let v = step(s, inst, lov).1.regs[rd] as int;
            &&& f3 == 0 && f7 != 0x20 ==> v == (x + y) % 0x1_0000_0000
            &&& f3 == 0 && f7 == 0x20 ==> v == (x - y) % 0x1_0000_0000
            &&& f3 == 1 ==> v == (x * pow2(sh)) % 0x1_0000_0000
            &&& f3 == 2 ==> v == (if as_signed(x) < as_signed(y) {
                1int
            } else {
                0
            })
            &&& f3 == 3 ==> v == (if x < y {
                1int
            } else {
                0
            })
            &&& f3 == 5 && f7 != 0x20 ==> v == x / (pow2(sh) as int)
            &&& f3 == 5 && f7 == 0x20 ==> v == (as_signed(x) / (pow2(sh) as int)) % 0x1_0000_0000
            &&& f3 == 4 ==> v == (xw | yw) as int - (xw & yw) as int
            &&& f3 == 6 ==> v == x + y - (xw & yw) as int
            &&& f3 == 7 ==> v == x + y - (xw | yw) as int
        }),
{
    crate::vm32::interp::lemma_field_bounds(inst);
    let xw = s.regs[((inst >> 15) & 0x1f) as int];
    let yw = s.regs[((inst >> 20) & 0x1f) as int];
    let sh = yw & 0x1f;
    bv_u32(xw, yw);
    bv_add32(xw, yw);
    bv_sub32(xw, yw);
    lemma_shl32(xw, sh);
    lemma_srl32(xw, sh);
    lemma_sra32(xw, sh);
    assert(signed32(xw) == as_signed(xw as int) && signed32(yw) == as_signed(yw as int));
}

/// The 12-bit field `i` read as two's complement.
pub open spec fn signed12(i: int) -> int {
    if i >= 0x800 {
        i - 0x1000
    } else {
        i
    }
}

pub(crate) proof fn lemma_imm_i_word(inst: u64)
    ensures
        (imm_i(inst) as u32) as int == signed12(((inst >> 20) & 0xfff) as int) % 0x1_0000_0000,
{
    lemma2_to64();
    let i = (inst >> 20) & 0xfff;
    bv_fields(inst);
    let z = imm_i(inst);
    bv_u64(z);
    if i >= 0x800 {
        assert(z as int == i as int + 0x1_0000_0000_0000_0000 - 0x1000);
        vstd::arithmetic::div_mod::lemma_mod_multiples_vanish(
            0x1_0000_0000int,
            i as int - 0x1000,
            0x1_0000_0000int,
        );
    } else {
        assert(z as int == i as int);
    }
}

/// Law (register-immediate operations): a cycle executing an `OP-IMM` word
/// (opcode 0x13) with `rd != 0` writes to `rd`, for `x = rs1`, the
/// immediate `iv = inst[31:20]` read as 12-bit two's complement, its 32-bit
/// form `iw = iv mod 2^32` and `sh = inst[24:20]`: `addi` `(x + iv) mod 2^32`;
/// `slti` `sx < iv`; `sltiu` `x < iw`; `slli` `x * 2^sh mod 2^32`; `srli`
/// `x / 2^sh`; `srai` (bit 30 set) `floor(sx / 2^sh) mod 2^32`; `xori`
/// `x + iw - 2 (x & iw)`; `ori` `x + iw - (x & iw)`; `andi` `x + iw - (x | iw)`.
pub proof fn lemma_immediate_ops(s: MachineState, inst: u64, lov: Option<u32>, k: nat)
    requires
        state_ok(s, k),
        inst & 0x7f == 0x13,
        (inst >> 7) & 0x1f != 0,
    ensures
        ({
            let rd = ((inst >> 7) & 0x1f) as int;
            let f3 = (inst >> 12) & 0x7;
            let arith = (inst >> 30) & 1 == 1;
            let xw = s.regs[((inst >> 15) & 0x1f) as int];
            let x = xw as int;
            let iv = signed12(((inst >> 20) & 0xfff) as int);
            let iw = iv % 0x1_0000_0000;
            let sh = ((inst >> 20) & 0x1f) as nat;
            let v = step(s, inst, lov).1.regs[rd] as int;
            &&& f3 == 0 ==> v == (x + iv) % 0x1_0000_0000
            &&& f3 == 2 ==> v == (if as_signed(x) < iv {
                1int
            } else {
                0
            })
            &&& f3 == 3 ==> v == (if x < iw {
                1int
            } else {
                0
            })
            &&& f3 == 1 ==> v == (x * pow2(sh)) % 0x1_0000_0000
            &&& f3 == 5 && !arith ==> v == x / (pow2(sh) as int)
            &&& f3 == 5 && arith ==> v == (as_signed(x) / (pow2(sh) as int)) % 0x1_0000_0000
            &&& f3 == 4 ==> v == x + iw - 2 * (xw & (imm_i(inst) as u32)) as int
            &&& f3 == 6 ==> v == x + iw - (xw & (imm_i(inst) as u32)) as int
            &&& f3 == 7 ==> v == x + iw - (xw | (imm_i(inst) as u32)) as int
        }),
{
    crate::vm32::interp::lemma_field_bounds(inst);
    lemma_imm_i_word(inst);
    let xw = s.regs[((inst >> 15) & 0x1f) as int];
    let yw = imm_i(inst) as u32;
    let sh = ((inst >> 20) & 0x1f) as u32;
    bv_fields(inst);
    let iu = (inst >> 20) & 0xfff;
    let i = iu as int;
    assert(yw as int == signed12(i) % 0x1_0000_0000);
    if i >= 0x800 {
        assert(yw as int == i + 0x1_0000_0000 - 0x1000);
    } else {
        assert(yw as int == i);
    }
    bv_add32(xw, yw);
    vstd::arithmetic::div_mod::lemma_mod_multiples_vanish(1, xw as int + signed12(i), 0x1_0000_0000);
    bv_u32(xw, yw);
    lemma_shl32(xw, sh);
    lemma_srl32(xw, sh);
    lemma_sra32(xw, sh);
    assert(signed32(xw) == as_signed(xw as int));
    assert(signed32(yw) == signed12(i));
}

/// The branch offset of a B-type word: bits 31, 7, 30:25 and 11:8 of
/// `inst` placed at offset bits 12, 11, 10:5 and 4:1, read as 13-bit two's
/// complement.
pub open spec fn branch_offset(inst: u64) -> int {
    let raw = ((inst / 0x8000_0000) % 2) * 0x1000 + ((inst / 0x80) % 2) * 0x800 + ((inst
        / 0x200_0000) % 0x40) * 0x20 + ((inst / 0x100) % 0x10) * 2;
    if raw >= 0x1000 {
        raw - 0x2000
    } else {
        raw
    }
}

/// Law (conditional branches): a cycle at pc `p` executing a branch word
/// (opcode 0x63) on `x = rs1`, `y = rs2` (`sx`, `sy` their two's-complement
/// values) is taken for `beq` when `x == y`, `bne` when `x != y`, `blt`
/// when `sx < sy`, `bge` when `sx >= sy`, `bltu` when `x < y`, `bgeu` when
/// `x >= y` (never for funct3 2 and 3); a taken branch goes to
/// `(p + branch_offset) mod 2^64`, any other to `(p + 4) mod 2^64`. A branch
/// writes no register.
pub proof fn lemma_branches(s: MachineState, inst: u64, lov: Option<u32>, k: nat)
    requires
        state_ok(s, k),
        inst & 0x7f == 0x63,
    ensures
        ({
            let f3 = (inst >> 12) & 0x7;
            let x = s.regs[((inst >> 15) & 0x1f) as int] as int;
            let y = s.regs[((inst >> 20) & 0x1f) as int] as int;
            let taken = (f3 == 0 && x == y) || (f3 == 1 && x != y) || (f3 == 4 && as_signed(x)
                < as_signed(y)) || (f3 == 5 && as_signed(x) >= as_signed(y)) || (f3 == 6 && x < y)
                || (f3 == 7 && x >= y);
            let s2 = step(s, inst, lov).1;
            &&& s2.pc as int == (if taken {
                (s.pc as int + branch_offset(inst)) % 0x1_0000_0000_0000_0000
            } else {
                (s.pc as int + 4) % 0x1_0000_0000_0000_0000
            })
            &&& s2.regs == s.regs
        }),
{
    lemma2_to64();
    crate::vm32::interp::lemma_field_bounds(inst);
    let raw = crate::vm32::isa::imm_b_raw(inst);
    bv_fields(inst);
    assert(raw == ((inst / 0x8000_0000) % 2) * 0x1000 + ((inst / 0x80) % 2) * 0x800 + ((inst
        / 0x200_0000) % 0x40) * 0x20 + ((inst / 0x100) % 0x10) * 2 && raw < 0x2000);
    let z = imm_b(inst);
    let p = s.pc;
    bv_add64(p, z);
    bv_add64(p, 4);
    if raw >= 0x1000 {
        assert(z as int == raw as int + 0x1_0000_0000_0000_0000 - 0x2000);
        vstd::arithmetic::div_mod::lemma_mod_multiples_vanish(
            1,
            p as int + raw as int - 0x2000,
            0x1_0000_0000_0000_0000,
        );
    } else {
        assert(z as int == raw as int);
    }
    let xw = s.regs[((inst >> 15) & 0x1f) as int];
    let yw = s.regs[((inst >> 20) & 0x1f) as int];
    assert(signed32(xw) == as_signed(xw as int) && signed32(yw) == as_signed(yw as int));
}

proof fn lemma_signed_roundtrip(q: int)
    requires
        -0x8000_0000 <= q < 0x8000_0000,
    ensures
        as_signed(to_u32(q) as int) == q,
{
    if q < 0 {
        vstd::arithmetic::div_mod::lemma_mod_multiples_vanish(1, q, 0x1_0000_0000);
        assert(q % 0x1_0000_0000 == q + 0x1_0000_0000) by {
            lemma_fundamental_div_mod_converse(q, 0x1_0000_0000, -1, q + 0x1_0000_0000);
        }
    } else {
        lemma_fundamental_div_mod_converse(q, 0x1_0000_0000, 0, q);
    }
}

proof fn lemma_quot_bound(a: int, b: int)
    requires
        b != 0,
    ensures
        abs(quot_trunc(a, b)) <= abs(a),
{
    assert(abs(a) / abs(b) <= abs(a)) by (nonlinear_arith)
        requires
            abs(b) >= 1,
            abs(a) >= 0,
    ;
    assert(abs(a) / abs(b) >= 0) by (nonlinear_arith)
        requires
            abs(b) >= 1,
            abs(a) >= 0,
    ;
}

/// Law (RV32M): a cycle executing an `OP` word with funct7 1 and `rd != 0`
/// writes to `rd`, for `x = rs1`, `y = rs2` and `sx`, `sy` their
/// two's-complement values: `mul` `x * y mod 2^32`; `divu` all ones when
/// `y == 0`, else the `v` with `v * y <= x < (v + 1) * y`; `remu` `x` when
/// `y == 0`, else the `v < y` with `y` dividing `x - v`; `div` all ones when
/// `y == 0`, `0x8000_0000` for `MIN / -1`, else the `v` whose signed value
/// `q` leaves `r = sx - q * sy` with `|r| < |sy|` and `r` zero or of the
/// sign of `sx` (rounding toward zero); `rem` `x` when `y == 0`, 0 for
/// `MIN % -1`, else the `v` whose signed value `r` has `|r| < |sy|`, is zero
/// or of the sign of `sx`, and makes `sx - r` a multiple of `sy`.
pub proof fn lemma_muldiv_ops(s: MachineState, inst: u64, lov: Option<u32>, k: nat)
    requires
        state_ok(s, k),
        inst & 0x7f == 0x33,
        (inst >> 25) & 0x7f == 1,
        (inst >> 7) & 0x1f != 0,
    ensures
        ({
            let rd = ((inst >> 7) & 0x1f) as int;
            let f3 = (inst >> 12) & 0x7;
            let x = s.regs[((inst >> 15) & 0x1f) as int] as int;
            let y = s.regs[((inst >> 20) & 0x1f) as int] as int;
            let sx = as_signed(x);
            let sy = as_signed(y);
            let v = step(s, inst, lov).1.regs[rd] as int;
            let ovf = sx == -0x8000_0000 && sy == -1;
            &&& f3 == 0 ==> v == (x * y) % 0x1_0000_0000
            &&& f3 == 5 ==> (if y == 0 {
                v == 0xffff_ffff
            } else {
                v * y <= x < (v + 1) * y
            })
            &&& f3 == 7 ==> (if y == 0 {
                v == x
            } else {
                v < y && (x - v) % y == 0
            })
            &&& f3 == 4 ==> (if y == 0 {
                v == 0xffff_ffff
            } else if ovf {
                v == 0x8000_0000
            } else {
                let q = as_signed(v);
                let r = sx - q * sy;
                abs(r) < abs(sy) && (r == 0 || (r < 0) == (sx < 0))
            })
            &&& f3 == 6 ==> (if y == 0 {
                v == x
            } else if ovf {
                v == 0
            } else {
                let r = as_signed(v);
                abs(r) < abs(sy) && (r == 0 || (r < 0) == (sx < 0)) && (sx - r) % abs(sy) == 0
            })
        }),
{
    crate::vm32::interp::lemma_field_bounds(inst);
    let xw = s.regs[((inst >> 15) & 0x1f) as int];
    let yw = s.regs[((inst >> 20) & 0x1f) as int];
    let x = xw as int;
    let y = yw as int;
    bv_mul32(xw, yw);
    assert(signed32(xw) == as_signed(x) && signed32(yw) == as_signed(y));
    let sx = as_signed(x);
    let sy = as_signed(y);
    if y != 0 {
        vstd::arithmetic::div_mod::lemma_fundamental_div_mod(x, y);
        vstd::arithmetic::div_mod::lemma_mod_bound(x, y);
        let dq = x / y;
        assert(dq * y <= x < (dq + 1) * y) by (nonlinear_arith)
            requires
                x == y * dq + x % y,
                0 <= x % y < y,
        ;
        vstd::arithmetic::div_mod::lemma_mod_multiples_basic(dq, y);
        assert(x - x % y == dq * y) by (nonlinear_arith)
            requires
                x == y * dq + x % y,
        ;
        assert(sy != 0);
        lemma_quot_rem_trunc(sx, sy);
        lemma_quot_bound(sx, sy);
        let q = quot_trunc(sx, sy);
        let r = rem_trunc(sx, sy);
        assert(-0x8000_0000 <= sx < 0x8000_0000 && -0x8000_0000 <= sy < 0x8000_0000);
        assert(r == 0 || (r < 0) == (sx < 0)) by {
            vstd::arithmetic::div_mod::lemma_mod_bound(abs(sx), abs(sy));
        }
        assert(abs(r) < 0x8000_0000);
        lemma_signed_roundtrip(r);
        if !(sx == -0x8000_0000 && sy == -1) {
            assert(-0x8000_0000 <= q < 0x8000_0000) by {
                if q == 0x8000_0000 {
                    assert(abs(sx) == 0x8000_0000);
                    assert(abs(sx) / abs(sy) == 0x8000_0000);
                    assert(abs(sy) == 1) by (nonlinear_arith)
                        requires
                            abs(sx) / abs(sy) == 0x8000_0000,
                            abs(sx) == 0x8000_0000,
                            abs(sy) >= 1,
                    ;
                }
            }
            lemma_signed_roundtrip(q);
            assert(sx - q * sy == r) by (nonlinear_arith)
                requires
                    sx == sy * q + r,
            ;
            assert((sx - r) % abs(sy) == 0) by {
                if sy < 0 {
                    assert(sx - r == (-q) * abs(sy)) by (nonlinear_arith)
                        requires
                            sx == sy * q + r,
                            abs(sy) == -sy,
                    ;
                    vstd::arithmetic::div_mod::lemma_mod_multiples_basic(-q, abs(sy));
                } else {
                    assert(sx - r == q * abs(sy)) by (nonlinear_arith)
                        requires
                            sx == sy * q + r,
                            abs(sy) == sy,
                    ;
                    vstd::arithmetic::div_mod::lemma_mod_multiples_basic(q, abs(sy));
                }
            }
        } else {
            assert(abs(sx) == 0x8000_0000 && abs(sy) == 1);
            assert(0x8000_0000int / 1int == 0x8000_0000int && 0x8000_0000int % 1int == 0) by (nonlinear_arith);
            assert(q == 0x8000_0000);
            assert(r == 0);
            lemma_fundamental_div_mod_converse(0x8000_0000, 0x1_0000_0000, 0, 0x8000_0000);
            lemma_fundamental_div_mod_converse(0, 0x1_0000_0000, 0, 0);
        }
    }
}

proof fn lemma_merge_byte(old: u32, v: u32, off: u32)
    requires
        off < 4,
    ensures
        forall|t: int|
            0 <= t < 4 ==> #[trigger] byte_at(store_merge(old, v, off, 0) as int, t) == (if t
                == off as int {
                v as int % 0x100
            } else {
                byte_at(old as int, t)
            }),
{
    let m = store_merge(old, v, off, 0);
    bv_subwords(old, v);
    if off == 0 {
        assert(m == (old & !(0xffu32 << 0u32)) | ((v & 0xff) << 0u32));
    } else if off == 1 {
        assert(m == (old & !(0xffu32 << 8u32)) | ((v & 0xff) << 8u32));
    } else if off == 2 {
        assert(m == (old & !(0xffu32 << 16u32)) | ((v & 0xff) << 16u32));
    } else {
        assert(m == (old & !(0xffu32 << 24u32)) | ((v & 0xff) << 24u32));
    }
}

proof fn lemma_merge_half(old: u32, v: u32, off: u32)
    requires
        off < 4,
    ensures
        forall|t: int|
            0 <= t < 2 ==> #[trigger] half_at(store_merge(old, v, off, 1) as int, t) == (if t
                == off as int / 2 {
                v as int % 0x1_0000
            } else {
                half_at(old as int, t)
            }),
{
    let m = store_merge(old, v, off, 1);
    bv_subwords(old, v);
    bv_subwords(off, off);
    if off < 2 {
        assert(m == (old & !(0xffffu32 << 0u32)) | ((v & 0xffff) << 0u32));
    } else {
        assert(m == (old & !(0xffffu32 << 16u32)) | ((v & 0xffff) << 16u32));
    }
}

/// Law (stores): a cycle executing a store word (opcode 0x23) at byte
/// address `a` (`rs1 + imm`, modulo `2^32`) of `y = rs2`: `sw` (funct3 2)
/// sets RAM word `a mod 64` to `y`; `sb` (0) sets byte `a mod 4` of RAM word
/// `(a / 4) mod 64` to `y mod 2^8`, and `sh` (1) its half-word `(a mod 4) / 2`
/// to `y mod 2^16`, leaving the rest of that word as it was; every other
/// word keeps its value, and funct3 3 to 7 store nothing. A store writes no
/// register.
pub proof fn lemma_stores(s: MachineState, inst: u64, lov: Option<u32>, k: nat)
    requires
        state_ok(s, k),
        inst & 0x7f == 0x23,
    ensures
        ({
            let f3 = (inst >> 12) & 0x7;
            let a = store_address(s, inst) as int;
            let yw = s.regs[((inst >> 20) & 0x1f) as int];
            let y = yw as int;
            let j = (a / 4) % 64;
            let s2 = step(s, inst, lov).1;
            &&& s2.regs == s.regs
            &&& s2.mem.len() == s.mem.len()
            &&& f3 == 2 ==> s2.mem == s.mem.update(a % 64, yw)
            &&& (f3 == 0 || f3 == 1) ==> forall|i: int|
                0 <= i < 64 && i != j ==> #[trigger] s2.mem[i] == s.mem[i]
            &&& f3 == 0 ==> forall|t: int|
                0 <= t < 4 ==> #[trigger] byte_at(s2.mem[j] as int, t) == (if t == a % 4 {
                    y % 0x100
                } else {
                    byte_at(s.mem[j] as int, t)
                })
            &&& f3 == 1 ==> forall|t: int|
                0 <= t < 2 ==> #[trigger] half_at(s2.mem[j] as int, t) == (if t == (a % 4) / 2 {
                    y % 0x1_0000
                } else {
                    half_at(s.mem[j] as int, t)
                })
            &&& f3 > 2 ==> s2.mem == s.mem
        }),
{
    crate::vm32::interp::lemma_field_bounds(inst);
    let addr = store_address(s, inst);
    bv_u64(addr);
    let off = (addr & 3) as u32;
    let j = ((addr >> 2) % 64) as int;
    let old = s.mem[j];
    let yw = s.regs[((inst >> 20) & 0x1f) as int];
    lemma_merge_byte(old, yw, off);
    lemma_merge_half(old, yw, off);
}

/// Law (word loads): a cycle executing `lw` (opcode 0x03, funct3 2) with
/// `rd != 0` at byte address `a` writes to `rd` the RAM word `a mod 64`, or
/// the value the load override gives this cycle.
pub proof fn lemma_word_load(s: MachineState, inst: u64, lov: Option<u32>, k: nat)
    requires
        state_ok(s, k),
        inst & 0x7f == 0x03,
        (inst >> 12) & 0x7 == 2,
        (inst >> 7) & 0x1f != 0,
    ensures
        ({
            let rd = ((inst >> 7) & 0x1f) as int;
            let a = load_address(s, inst) as int;
            let v = step(s, inst, lov).1.regs[rd];
            &&& lov is None ==> v == s.mem[a % 64]
            &&& lov matches Some(o) ==> v == o
        }),
{
    crate::vm32::interp::lemma_field_bounds(inst);
}

/// The value of a sign-extended immediate field: `v` when its top bit is
/// clear, `v - 2^bits` (taken modulo `2^64`) when set.
pub(crate) proof fn lemma_sign_extend_value(v: u64, bits: nat)
    requires
        1 <= bits <= 21,
        v < pow2(bits),
    ensures
        sign_extend(v, bits) as int == (if v >= pow2((bits - 1) as nat) {
            v as int - pow2(bits) as int + 0x1_0000_0000_0000_0000
        } else {
            v as int
        }),
{
    lemma2_to64();
    lemma_pow2_strictly_increases(bits, 64);
    lemma_pow2_strictly_increases((bits - 1) as nat, bits);
    vstd::arithmetic::div_mod::lemma_small_mod(v as nat, pow2(bits));
}

/// Adding a sign-extended immediate modulo `2^64` and reducing modulo a
/// divisor `m` of `2^64` is adding its signed value modulo `m`.
pub(crate) proof fn lemma_add_imm_mod(x: int, imm: int, iv: int, m: int, k: int)
    requires
        imm == iv || imm == iv + 0x1_0000_0000_0000_0000,
        m > 0,
        k > 0,
        m * k == 0x1_0000_0000_0000_0000,
    ensures
        ((x + imm) % 0x1_0000_0000_0000_0000) % m == (x + iv) % m,
{
    vstd::arithmetic::div_mod::lemma_mod_mod(x + imm, m, k);
    if imm != iv {
        vstd::arithmetic::div_mod::lemma_mod_multiples_vanish(k, x + iv, m);
        assert(m * k + (x + iv) == x + imm);
    }
}

} // verus!
