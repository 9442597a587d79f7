//! RISC-V-style instruction-word encoding helpers of the early slices and the
//! field extractors that read them back.
//!
//! Real RV32I slots: [31:25] imm | [24:20] rs2 | [19:15] rs1 | [14:12] funct3 |
//! [11:7] rd | [6:0] opcode; the branch immediate of `beq` sits in [31:25].

use vstd::prelude::*;

verus! {

/// Opcodes (low 7 bits, real RISC-V).
pub const OP_ADDI: u64 = 0x13;
pub const OP_ADD: u64 = 0x33;
pub const OP_LW: u64 = 0x03;
pub const OP_SW: u64 = 0x23;
pub const OP_BEQ: u64 = 0x63;

/// funct3 constants.
pub const F3_ADD: u64 = 0x0;
pub const F3_LW: u64 = 0x2;
pub const F3_SW: u64 = 0x2;
pub const F3_BEQ: u64 = 0x0;

/// Register numbers (x0 is the zero register).
pub const REG_X0: u64 = 0;
pub const REG_X1: u64 = 1;
pub const REG_X2: u64 = 2;
pub const REG_X3: u64 = 3;
pub const REG_X5: u64 = 5;
pub const REG_X6: u64 = 6;

pub fn word_opcode(w: u64) -> (r: u64)
    ensures
        r == w & 0x7f,
{
    w & 0x7f
}

pub fn word_rd(w: u64) -> (r: u64)
    ensures
        r == (w >> 7) & 0x1f,
{
    (w >> 7) & 0x1f
}

pub fn word_funct3(w: u64) -> (r: u64)
    ensures
        r == (w >> 12) & 0x7,
{
    (w >> 12) & 0x7
}

pub fn word_rs1(w: u64) -> (r: u64)
    ensures
        r == (w >> 15) & 0x1f,
{
    (w >> 15) & 0x1f
}

pub fn word_rs2(w: u64) -> (r: u64)
    ensures
        r == (w >> 20) & 0x1f,
{
    (w >> 20) & 0x1f
}

pub fn word_imm(w: u64) -> (r: u64)
    ensures
        r == (w >> 25) & 0x7f,
{
    (w >> 25) & 0x7f
}

pub fn word_bimm(w: u64) -> (r: u64)
    ensures
        r == (w >> 25) & 0x7f,
{
    (w >> 25) & 0x7f
}

pub open spec fn addi_word(imm: u64, rd: u64, rs1: u64) -> u64 {
    OP_ADDI | ((rd & 0x1f) << 7) | (F3_ADD << 12) | ((rs1 & 0x1f) << 15) | ((imm & 0x7f) << 25)
}

pub open spec fn add_word(rd: u64, rs1: u64, rs2: u64) -> u64 {
    OP_ADD | ((rd & 0x1f) << 7) | (F3_ADD << 12) | ((rs1 & 0x1f) << 15) | ((rs2 & 0x1f) << 20)
}

pub open spec fn lw_word(rd: u64, rs1: u64) -> u64 {
    OP_LW | ((rd & 0x1f) << 7) | (F3_LW << 12) | ((rs1 & 0x1f) << 15)
}

pub open spec fn sw_word(rs1: u64, rs2: u64) -> u64 {
    OP_SW | (F3_SW << 12) | ((rs1 & 0x1f) << 15) | ((rs2 & 0x1f) << 20)
}

pub open spec fn beq_word(rs1: u64, rs2: u64, bimm: u64) -> u64 {
    OP_BEQ | (F3_BEQ << 12) | ((rs1 & 0x1f) << 15) | ((rs2 & 0x1f) << 20) | ((bimm & 0x7f) << 25)
}

pub fn enc_addi(imm: u64, rd: u64, rs1: u64) -> (r: u64)
    ensures
        r == addi_word(imm, rd, rs1),
{
    proof {
        assert((OP_ADDI & 0x7f) | ((rd & 0x1f) << 7) | ((F3_ADD & 0x7) << 12) | ((rs1 & 0x1f) << 15)
            | ((imm & 0x7f) << 25) == OP_ADDI | ((rd & 0x1f) << 7) | (F3_ADD << 12) | ((rs1 & 0x1f)
            << 15) | ((imm & 0x7f) << 25)) by (bit_vector);
    }
    (OP_ADDI & 0x7f) | ((rd & 0x1f) << 7) | ((F3_ADD & 0x7) << 12) | ((rs1 & 0x1f) << 15) | ((imm
        & 0x7f) << 25)
}

pub fn enc_add(rd: u64, rs1: u64, rs2: u64) -> (r: u64)
    ensures
        r == add_word(rd, rs1, rs2),
{
    proof {
        assert((OP_ADD & 0x7f) | ((rd & 0x1f) << 7) | ((F3_ADD & 0x7) << 12) | ((rs1 & 0x1f) << 15)
            | ((rs2 & 0x1f) << 20) == OP_ADD | ((rd & 0x1f) << 7) | (F3_ADD << 12) | ((rs1 & 0x1f)
            << 15) | ((rs2 & 0x1f) << 20)) by (bit_vector);
    }
    (OP_ADD & 0x7f) | ((rd & 0x1f) << 7) | ((F3_ADD & 0x7) << 12) | ((rs1 & 0x1f) << 15) | ((rs2
        & 0x1f) << 20)
}

pub fn enc_lw(rd: u64, rs1: u64) -> (r: u64)
    ensures
        r == lw_word(rd, rs1),
{
    proof {
        assert((OP_LW & 0x7f) | ((rd & 0x1f) << 7) | ((F3_LW & 0x7) << 12) | ((rs1 & 0x1f) << 15)
            == OP_LW | ((rd & 0x1f) << 7) | (F3_LW << 12) | ((rs1 & 0x1f) << 15)) by (bit_vector);
    }
    (OP_LW & 0x7f) | ((rd & 0x1f) << 7) | ((F3_LW & 0x7) << 12) | ((rs1 & 0x1f) << 15)
}

pub fn enc_sw(rs1: u64, rs2: u64) -> (r: u64)
    ensures
        r == sw_word(rs1, rs2),
{
    proof {
        assert((OP_SW & 0x7f) | ((F3_SW & 0x7) << 12) | ((rs1 & 0x1f) << 15) | ((rs2 & 0x1f) << 20)
            == OP_SW | (F3_SW << 12) | ((rs1 & 0x1f) << 15) | ((rs2 & 0x1f) << 20)) by (bit_vector);
    }
    (OP_SW & 0x7f) | ((F3_SW & 0x7) << 12) | ((rs1 & 0x1f) << 15) | ((rs2 & 0x1f) << 20)
}

pub fn enc_beq(rs1: u64, rs2: u64, bimm: u64) -> (r: u64)
    ensures
        r == beq_word(rs1, rs2, bimm),
{
    proof {
        assert((OP_BEQ & 0x7f) | ((F3_BEQ & 0x7) << 12) | ((rs1 & 0x1f) << 15) | ((rs2 & 0x1f) << 20)
            | ((bimm & 0x7f) << 25) == OP_BEQ | (F3_BEQ << 12) | ((rs1 & 0x1f) << 15) | ((rs2 & 0x1f)
            << 20) | ((bimm & 0x7f) << 25)) by (bit_vector);
    }
    (OP_BEQ & 0x7f) | ((F3_BEQ & 0x7) << 12) | ((rs1 & 0x1f) << 15) | ((rs2 & 0x1f) << 20) | ((bimm
        & 0x7f) << 25)
}

/// The field extractors read back what the encoders wrote: opcode, register
/// fields (to 5 bits), funct3 and the 7-bit immediate.
pub proof fn lemma_extract_encoded(imm: u64, rd: u64, rs1: u64, rs2: u64)
    ensures
        ({
            let a = addi_word(imm, rd, rs1);
            let d = add_word(rd, rs1, rs2);
            let l = lw_word(rd, rs1);
            let s = sw_word(rs1, rs2);
            let b = beq_word(rs1, rs2, imm);
            &&& a & 0x7f == OP_ADDI && (a >> 7) & 0x1f == rd & 0x1f && (a >> 12) & 0x7 == F3_ADD
            &&& (a >> 15) & 0x1f == rs1 & 0x1f && (a >> 25) & 0x7f == imm & 0x7f
            &&& d & 0x7f == OP_ADD && (d >> 7) & 0x1f == rd & 0x1f && (d >> 12) & 0x7 == F3_ADD
            &&& (d >> 15) & 0x1f == rs1 & 0x1f && (d >> 20) & 0x1f == rs2 & 0x1f
            &&& l & 0x7f == OP_LW && (l >> 7) & 0x1f == rd & 0x1f && (l >> 12) & 0x7 == F3_LW
            &&& (l >> 15) & 0x1f == rs1 & 0x1f
            &&& s & 0x7f == OP_SW && (s >> 12) & 0x7 == F3_SW && (s >> 15) & 0x1f == rs1 & 0x1f
            &&& (s >> 20) & 0x1f == rs2 & 0x1f
            &&& b & 0x7f == OP_BEQ && (b >> 12) & 0x7 == F3_BEQ && (b >> 15) & 0x1f == rs1 & 0x1f
            &&& (b >> 20) & 0x1f == rs2 & 0x1f && (b >> 25) & 0x7f == imm & 0x7f
        }),
{
    let a = addi_word(imm, rd, rs1);
    let d = add_word(rd, rs1, rs2);
    let l = lw_word(rd, rs1);
    let s = sw_word(rs1, rs2);
    let b = beq_word(rs1, rs2, imm);
    assert(a & 0x7f == 0x13 && (a >> 7) & 0x1f == rd & 0x1f && (a >> 12) & 0x7 == 0 && (a >> 15)
        & 0x1f == rs1 & 0x1f && (a >> 25) & 0x7f == imm & 0x7f) by (bit_vector)
        requires
            a == 0x13u64 | ((rd & 0x1f) << 7) | (0u64 << 12) | ((rs1 & 0x1f) << 15) | ((imm & 0x7f)
                << 25),
    ;
    assert(d & 0x7f == 0x33 && (d >> 7) & 0x1f == rd & 0x1f && (d >> 12) & 0x7 == 0 && (d >> 15)
        & 0x1f == rs1 & 0x1f && (d >> 20) & 0x1f == rs2 & 0x1f) by (bit_vector)
        requires
            d == 0x33u64 | ((rd & 0x1f) << 7) | (0u64 << 12) | ((rs1 & 0x1f) << 15) | ((rs2 & 0x1f)
                << 20),
    ;
    assert(l & 0x7f == 0x03 && (l >> 7) & 0x1f == rd & 0x1f && (l >> 12) & 0x7 == 2 && (l >> 15)
        & 0x1f == rs1 & 0x1f) by (bit_vector)
        requires
            l == 0x03u64 | ((rd & 0x1f) << 7) | (2u64 << 12) | ((rs1 & 0x1f) << 15),
    ;
    assert(s & 0x7f == 0x23 && (s >> 12) & 0x7 == 2 && (s >> 15) & 0x1f == rs1 & 0x1f && (s >> 20)
        & 0x1f == rs2 & 0x1f) by (bit_vector)
        requires
            s == 0x23u64 | (2u64 << 12) | ((rs1 & 0x1f) << 15) | ((rs2 & 0x1f) << 20),
    ;
    assert(b & 0x7f == 0x63 && (b >> 12) & 0x7 == 0 && (b >> 15) & 0x1f == rs1 & 0x1f && (b >> 20)
        & 0x1f == rs2 & 0x1f && (b >> 25) & 0x7f == imm & 0x7f) by (bit_vector)
        requires
            b == 0x63u64 | (0u64 << 12) | ((rs1 & 0x1f) << 15) | ((rs2 & 0x1f) << 20) | ((imm & 0x7f)
                << 25),
    ;
}

} // verus!
