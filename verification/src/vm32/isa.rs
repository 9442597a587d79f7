//! RV32I (subset) + RV32M instruction-word encoders, the field decoder
//! `fn_rv32`, sign extension, and the machine constants shared by the
//! interpreter and the proof pipeline.

use vstd::prelude::*;
use vstd::arithmetic::power2::*;
use vstd::bits::*;

verus! {

pub const NREG: usize = 32;
pub const NRAM: usize = 64;
pub const PC_START: u64 = 0x00;
/// Address of the halt row: the run ends after executing the word at this pc.
pub const HALT_ADDR: u64 = 0xc4;
pub const OP_LUI: u64 = 0x37;
pub const OP_AUIPC: u64 = 0x17;
pub const OP_JAL: u64 = 0x6f;
pub const OP_JALR: u64 = 0x67;
pub const OP_BRANCH: u64 = 0x63;
pub const OP_LOAD: u64 = 0x03;
pub const OP_STORE: u64 = 0x23;
pub const OP_OPIMM: u64 = 0x13;
pub const OP_OP: u64 = 0x33;
pub const M_FETCH: usize = 8;
/// Version slots per register / RAM word in the write logs.
pub const VER_MAX: usize = 128;
pub const M_W_REG: usize = 12;
pub const M_W_RAM: usize = 13;

pub const F3_LB: u64 = 0x0;
pub const F3_LH: u64 = 0x1;
pub const F3_LW: u64 = 0x2;
pub const F3_LBU: u64 = 0x4;
pub const F3_LHU: u64 = 0x5;
pub const F3_SB: u64 = 0x0;
pub const F3_SH: u64 = 0x1;
pub const F3_SW: u64 = 0x2;

// ---------------------------------------------------------------------------
// Instruction formats
// ---------------------------------------------------------------------------

/// R-type layout: funct7 | rs2 | rs1 | funct3 | rd | opcode.
pub open spec fn r_word(funct7: u64, rs2: u64, rs1: u64, funct3: u64, rd: u64, opcode: u64) -> u64 {
    opcode | (rd << 7) | (funct3 << 12) | (rs1 << 15) | (rs2 << 20) | (funct7 << 25)
}

/// I-type layout: imm[11:0] | rs1 | funct3 | rd | opcode.
pub open spec fn i_word(opcode: u64, funct3: u64, rd: u64, rs1: u64, imm12: u64) -> u64 {
    opcode | (rd << 7) | (funct3 << 12) | (rs1 << 15) | ((imm12 & 0xfff) << 20)
}

/// S-type layout: imm[11:5] | rs2 | rs1 | funct3 | imm[4:0] | opcode.
pub open spec fn s_word(opcode: u64, funct3: u64, rs1: u64, rs2: u64, imm12: u64) -> u64 {
    let imm = imm12 & 0xfff;
    opcode | ((imm & 0x1f) << 7) | (funct3 << 12) | (rs1 << 15) | (rs2 << 20) | ((imm >> 5) << 25)
}

/// B-type layout: imm[12] | imm[10:5] | rs2 | rs1 | funct3 | imm[4:1] | imm[11] | opcode.
pub open spec fn b_word(opcode: u64, funct3: u64, rs1: u64, rs2: u64, imm13: u64) -> u64 {
    let imm = imm13 & 0x1fff;
    opcode | ((imm >> 1 & 0x0f) << 8) | ((imm >> 5 & 0x3f) << 25) | ((imm >> 11 & 1) << 7) | ((imm
        >> 12 & 1) << 31) | (funct3 << 12) | (rs1 << 15) | (rs2 << 20)
}

/// U-type layout: imm[31:12] | rd | opcode.
pub open spec fn u_word(opcode: u64, rd: u64, imm20: u64) -> u64 {
    opcode | (rd << 7) | ((imm20 & 0xfffff) << 12)
}

/// J-type layout: imm[20] | imm[10:1] | imm[11] | imm[19:12] | rd | opcode.
pub open spec fn j_word(opcode: u64, rd: u64, imm21: u64) -> u64 {
    let imm = imm21 & 0x1fffff;
    opcode | (rd << 7) | ((imm >> 12 & 0xff) << 12) | ((imm >> 11 & 1) << 20) | ((imm >> 1 & 0x3ff)
        << 21) | ((imm >> 20 & 1) << 31)
}

/// The decoded fields (opcode, rd, rs1, rs2, funct3, funct7) of an instruction word.
pub open spec fn fields(inst: u64) -> (u64, u64, u64, u64, u64, u64) {
    (inst & 0x7f, inst >> 7 & 0x1f, inst >> 15 & 0x1f, inst >> 20 & 0x1f, inst >> 12 & 0x7, inst
        >> 25 & 0x7f)
}

/// Raw 12-bit I-immediate field.
pub open spec fn imm_i_raw(inst: u64) -> u64 {
    inst >> 20 & 0xfff
}

/// Raw 12-bit S-immediate, reassembled from its two pieces.
pub open spec fn imm_s_raw(inst: u64) -> u64 {
    ((inst >> 25 & 0x7f) << 5) | (inst >> 7 & 0x1f)
}

/// Raw 13-bit B-immediate (bit 0 always clear), reassembled from its four pieces.
pub open spec fn imm_b_raw(inst: u64) -> u64 {
    ((inst >> 31 & 1) << 12) | ((inst >> 7 & 1) << 11) | ((inst >> 25 & 0x3f) << 5) | ((inst >> 8
        & 0x0f) << 1)
}

/// Raw 21-bit J-immediate (bit 0 always clear), reassembled from its four pieces.
pub open spec fn imm_j_raw(inst: u64) -> u64 {
    ((inst >> 31 & 1) << 20) | ((inst >> 12 & 0xff) << 12) | ((inst >> 20 & 1) << 11) | ((inst
        >> 21 & 0x3ff) << 1)
}

/// Two's-complement sign extension of the low `bits` bits of `v` to 64 bits:
/// the low part read as a number in `[-2^(bits-1), 2^(bits-1))`, taken modulo 2^64.
pub open spec fn sign_extend(v: u64, bits: nat) -> u64 {
    let low = v as nat % pow2(bits);
    if low < pow2((bits - 1) as nat) {
        low as u64
    } else {
        (low + pow2(64) - pow2(bits)) as u64
    }
}

pub fn enc_r(funct7: u64, rs2: u64, rs1: u64, funct3: u64, rd: u64, opcode: u64) -> (r: u64)
    ensures
        r == r_word(funct7, rs2, rs1, funct3, rd, opcode),
{
    opcode | (rd << 7) | (funct3 << 12) | (rs1 << 15) | (rs2 << 20) | (funct7 << 25)
}

pub fn enc_i(opcode: u64, funct3: u64, rd: u64, rs1: u64, imm12: u64) -> (r: u64)
    ensures
        r == i_word(opcode, funct3, rd, rs1, imm12),
{
    opcode | (rd << 7) | (funct3 << 12) | (rs1 << 15) | ((imm12 & 0xfff) << 20)
}

pub fn enc_s(opcode: u64, funct3: u64, rs1: u64, rs2: u64, imm12: u64) -> (r: u64)
    ensures
        r == s_word(opcode, funct3, rs1, rs2, imm12),
{
    let imm = imm12 & 0xfff;
    opcode | ((imm & 0x1f) << 7) | (funct3 << 12) | (rs1 << 15) | (rs2 << 20) | ((imm >> 5) << 25)
}

pub fn enc_b(opcode: u64, funct3: u64, rs1: u64, rs2: u64, imm13: u64) -> (r: u64)
    ensures
        r == b_word(opcode, funct3, rs1, rs2, imm13),
{
    let imm = imm13 & 0x1fff;
    opcode | ((imm >> 1 & 0x0f) << 8) | ((imm >> 5 & 0x3f) << 25) | ((imm >> 11 & 1) << 7) | ((imm
        >> 12 & 1) << 31) | (funct3 << 12) | (rs1 << 15) | (rs2 << 20)
}

pub fn enc_u(opcode: u64, rd: u64, imm20: u64) -> (r: u64)
    ensures
        r == u_word(opcode, rd, imm20),
{
    opcode | (rd << 7) | ((imm20 & 0xfffff) << 12)
}

pub fn enc_j(opcode: u64, rd: u64, imm21: u64) -> (r: u64)
    ensures
        r == j_word(opcode, rd, imm21),
{
    let imm = imm21 & 0x1fffff;
    opcode | (rd << 7) | ((imm >> 12 & 0xff) << 12) | ((imm >> 11 & 1) << 20) | ((imm >> 1 & 0x3ff)
        << 21) | ((imm >> 20 & 1) << 31)
}

// U/J
pub fn lhs_lui(rd: u64, imm20: u64) -> (r: u64)
    ensures
        r == u_word(OP_LUI, rd, imm20),
{
    enc_u(OP_LUI, rd, imm20)
}

pub fn auipc(rd: u64, imm20: u64) -> (r: u64)
    ensures
        r == u_word(OP_AUIPC, rd, imm20),
{
    enc_u(OP_AUIPC, rd, imm20)
}

pub fn jal(rd: u64, imm21: u64) -> (r: u64)
    ensures
        r == j_word(OP_JAL, rd, imm21),
{
    enc_j(OP_JAL, rd, imm21)
}

pub fn jalr(rd: u64, rs1: u64, imm12: u64) -> (r: u64)
    ensures
        r == i_word(OP_JALR, 0, rd, rs1, imm12),
{
    enc_i(OP_JALR, 0, rd, rs1, imm12)
}

// B
pub fn beq(rs1: u64, rs2: u64, imm13: u64) -> (r: u64)
    ensures
        r == b_word(OP_BRANCH, 0x0, rs1, rs2, imm13),
{
    enc_b(OP_BRANCH, 0x0, rs1, rs2, imm13)
}

pub fn bne(rs1: u64, rs2: u64, imm13: u64) -> (r: u64)
    ensures
        r == b_word(OP_BRANCH, 0x1, rs1, rs2, imm13),
{
    enc_b(OP_BRANCH, 0x1, rs1, rs2, imm13)
}

pub fn blt(rs1: u64, rs2: u64, imm13: u64) -> (r: u64)
    ensures
        r == b_word(OP_BRANCH, 0x4, rs1, rs2, imm13),
{
    enc_b(OP_BRANCH, 0x4, rs1, rs2, imm13)
}

pub fn bge(rs1: u64, rs2: u64, imm13: u64) -> (r: u64)
    ensures
        r == b_word(OP_BRANCH, 0x5, rs1, rs2, imm13),
{
    enc_b(OP_BRANCH, 0x5, rs1, rs2, imm13)
}

pub fn bltu(rs1: u64, rs2: u64, imm13: u64) -> (r: u64)
    ensures
        r == b_word(OP_BRANCH, 0x6, rs1, rs2, imm13),
{
    enc_b(OP_BRANCH, 0x6, rs1, rs2, imm13)
}

pub fn bgeu(rs1: u64, rs2: u64, imm13: u64) -> (r: u64)
    ensures
        r == b_word(OP_BRANCH, 0x7, rs1, rs2, imm13),
{
    enc_b(OP_BRANCH, 0x7, rs1, rs2, imm13)
}

// memory
pub fn lhs_lw(rd: u64, rs1: u64, imm12: u64) -> (r: u64)
    ensures
        r == i_word(OP_LOAD, 0x2, rd, rs1, imm12),
{
    enc_i(OP_LOAD, 0x2, rd, rs1, imm12)
}

pub fn sw(rs2: u64, rs1: u64, imm12: u64) -> (r: u64)
    ensures
        r == s_word(OP_STORE, 0x2, rs1, rs2, imm12),
{
    enc_s(OP_STORE, 0x2, rs1, rs2, imm12)
}

pub fn lb(rd: u64, rs1: u64, imm12: u64) -> (r: u64)
    ensures
        r == i_word(OP_LOAD, F3_LB, rd, rs1, imm12),
{
    enc_i(OP_LOAD, F3_LB, rd, rs1, imm12)
}

pub fn lh(rd: u64, rs1: u64, imm12: u64) -> (r: u64)
    ensures
        r == i_word(OP_LOAD, F3_LH, rd, rs1, imm12),
{
    enc_i(OP_LOAD, F3_LH, rd, rs1, imm12)
}

pub fn lbu(rd: u64, rs1: u64, imm12: u64) -> (r: u64)
    ensures
        r == i_word(OP_LOAD, F3_LBU, rd, rs1, imm12),
{
    enc_i(OP_LOAD, F3_LBU, rd, rs1, imm12)
}

pub fn lhu(rd: u64, rs1: u64, imm12: u64) -> (r: u64)
    ensures
        r == i_word(OP_LOAD, F3_LHU, rd, rs1, imm12),
{
    enc_i(OP_LOAD, F3_LHU, rd, rs1, imm12)
}

pub fn sb(rs2: u64, rs1: u64, imm12: u64) -> (r: u64)
    ensures
        r == s_word(OP_STORE, F3_SB, rs1, rs2, imm12),
{
    enc_s(OP_STORE, F3_SB, rs1, rs2, imm12)
}

pub fn sh(rs2: u64, rs1: u64, imm12: u64) -> (r: u64)
    ensures
        r == s_word(OP_STORE, F3_SH, rs1, rs2, imm12),
{
    enc_s(OP_STORE, F3_SH, rs1, rs2, imm12)
}

// I
pub fn addi(rd: u64, rs1: u64, imm12: u64) -> (r: u64)
    ensures
        r == i_word(OP_OPIMM, 0x0, rd, rs1, imm12),
{
    enc_i(OP_OPIMM, 0x0, rd, rs1, imm12)
}

pub fn slti(rd: u64, rs1: u64, imm12: u64) -> (r: u64)
    ensures
        r == i_word(OP_OPIMM, 0x2, rd, rs1, imm12),
{
    enc_i(OP_OPIMM, 0x2, rd, rs1, imm12)
}

pub fn sltiu(rd: u64, rs1: u64, imm12: u64) -> (r: u64)
    ensures
        r == i_word(OP_OPIMM, 0x3, rd, rs1, imm12),
{
    enc_i(OP_OPIMM, 0x3, rd, rs1, imm12)
}

pub fn xori(rd: u64, rs1: u64, imm12: u64) -> (r: u64)
    ensures
        r == i_word(OP_OPIMM, 0x4, rd, rs1, imm12),
{
    enc_i(OP_OPIMM, 0x4, rd, rs1, imm12)
}

pub fn ori(rd: u64, rs1: u64, imm12: u64) -> (r: u64)
    ensures
        r == i_word(OP_OPIMM, 0x6, rd, rs1, imm12),
{
    enc_i(OP_OPIMM, 0x6, rd, rs1, imm12)
}

pub fn andi(rd: u64, rs1: u64, imm12: u64) -> (r: u64)
    ensures
        r == i_word(OP_OPIMM, 0x7, rd, rs1, imm12),
{
    enc_i(OP_OPIMM, 0x7, rd, rs1, imm12)
}

/// Shift-immediate encoders keep only the low five bits of the shift amount.
pub fn slli(rd: u64, rs1: u64, shamt: u64) -> (r: u64)
    ensures
        r == i_word(OP_OPIMM, 0x1, rd, rs1, shamt & 0x1f),
{
    enc_i(OP_OPIMM, 0x1, rd, rs1, shamt & 0x1f)
}

pub fn srli(rd: u64, rs1: u64, shamt: u64) -> (r: u64)
    ensures
        r == i_word(OP_OPIMM, 0x5, rd, rs1, shamt & 0x1f),
{
    enc_i(OP_OPIMM, 0x5, rd, rs1, shamt & 0x1f)
}

/// `srai` sets imm bit 10 (instruction bit 30), the arithmetic-shift marker.
pub fn srai(rd: u64, rs1: u64, shamt: u64) -> (r: u64)
    ensures
        r == i_word(OP_OPIMM, 0x5, rd, rs1, 0x400 | (shamt & 0x1f)),
{
    enc_i(OP_OPIMM, 0x5, rd, rs1, 0x400 | (shamt & 0x1f))
}

// R
pub fn add(rd: u64, rs1: u64, rs2: u64) -> (r: u64)
    ensures
        r == r_word(0x00, rs2, rs1, 0x0, rd, OP_OP),
{
    enc_r(0x00, rs2, rs1, 0x0, rd, OP_OP)
}

pub fn sub(rd: u64, rs1: u64, rs2: u64) -> (r: u64)
    ensures
        r == r_word(0x20, rs2, rs1, 0x0, rd, OP_OP),
{
    enc_r(0x20, rs2, rs1, 0x0, rd, OP_OP)
}

pub fn sll(rd: u64, rs1: u64, rs2: u64) -> (r: u64)
    ensures
        r == r_word(0x00, rs2, rs1, 0x1, rd, OP_OP),
{
    enc_r(0x00, rs2, rs1, 0x1, rd, OP_OP)
}

pub fn slt(rd: u64, rs1: u64, rs2: u64) -> (r: u64)
    ensures
        r == r_word(0x00, rs2, rs1, 0x2, rd, OP_OP),
{
    enc_r(0x00, rs2, rs1, 0x2, rd, OP_OP)
}

pub fn sltu(rd: u64, rs1: u64, rs2: u64) -> (r: u64)
    ensures
        r == r_word(0x00, rs2, rs1, 0x3, rd, OP_OP),
{
    enc_r(0x00, rs2, rs1, 0x3, rd, OP_OP)
}

pub fn xor(rd: u64, rs1: u64, rs2: u64) -> (r: u64)
    ensures
        r == r_word(0x00, rs2, rs1, 0x4, rd, OP_OP),
{
    enc_r(0x00, rs2, rs1, 0x4, rd, OP_OP)
}

pub fn srl(rd: u64, rs1: u64, rs2: u64) -> (r: u64)
    ensures
        r == r_word(0x00, rs2, rs1, 0x5, rd, OP_OP),
{
    enc_r(0x00, rs2, rs1, 0x5, rd, OP_OP)
}

pub fn sra(rd: u64, rs1: u64, rs2: u64) -> (r: u64)
    ensures
        r == r_word(0x20, rs2, rs1, 0x5, rd, OP_OP),
{
    enc_r(0x20, rs2, rs1, 0x5, rd, OP_OP)
}

pub fn or(rd: u64, rs1: u64, rs2: u64) -> (r: u64)
    ensures
        r == r_word(0x00, rs2, rs1, 0x6, rd, OP_OP),
{
    enc_r(0x00, rs2, rs1, 0x6, rd, OP_OP)
}

pub fn and(rd: u64, rs1: u64, rs2: u64) -> (r: u64)
    ensures
        r == r_word(0x00, rs2, rs1, 0x7, rd, OP_OP),
{
    enc_r(0x00, rs2, rs1, 0x7, rd, OP_OP)
}

// RV32M (funct7 = 0x01)
pub fn mul(rd: u64, rs1: u64, rs2: u64) -> (r: u64)
    ensures
        r == r_word(0x01, rs2, rs1, 0x0, rd, OP_OP),
{
    enc_r(0x01, rs2, rs1, 0x0, rd, OP_OP)
}

pub fn div(rd: u64, rs1: u64, rs2: u64) -> (r: u64)
    ensures
        r == r_word(0x01, rs2, rs1, 0x4, rd, OP_OP),
{
    enc_r(0x01, rs2, rs1, 0x4, rd, OP_OP)
}

pub fn divu(rd: u64, rs1: u64, rs2: u64) -> (r: u64)
    ensures
        r == r_word(0x01, rs2, rs1, 0x5, rd, OP_OP),
{
    enc_r(0x01, rs2, rs1, 0x5, rd, OP_OP)
}

pub fn rem(rd: u64, rs1: u64, rs2: u64) -> (r: u64)
    ensures
        r == r_word(0x01, rs2, rs1, 0x6, rd, OP_OP),
{
    enc_r(0x01, rs2, rs1, 0x6, rd, OP_OP)
}

pub fn remu(rd: u64, rs1: u64, rs2: u64) -> (r: u64)
    ensures
        r == r_word(0x01, rs2, rs1, 0x7, rd, OP_OP),
{
    enc_r(0x01, rs2, rs1, 0x7, rd, OP_OP)
}

proof fn lemma_sext_bits(v: u64, b: u64)
    requires
        1 <= b < 64,
    ensures
        ({
            let m = ((1u64 << b) - 1) as u64;
            let low = v & m;
            &&& ((low & (1u64 << ((b - 1) as u64))) != 0) == (low >= (1u64 << ((b - 1) as u64)))
            &&& (low & (1u64 << ((b - 1) as u64))) != 0 ==> (low | (!0u64 << b)) == low + !m
            &&& low <= m
            &&& !m == u64::MAX - m
        }),
{
    assert({
        let m = ((1u64 << b) - 1) as u64;
        let low = v & m;
        &&& ((low & (1u64 << ((b - 1) as u64))) != 0) == (low >= (1u64 << ((b - 1) as u64)))
        &&& (low & (1u64 << ((b - 1) as u64))) != 0 ==> (low | (!0u64 << b)) == low + !m
        &&& low <= m
        &&& !m == u64::MAX - m
    }) by (bit_vector)
        requires
            1 <= b < 64,
    ;
}

/// Sign-extend the low `bits` bits of `v` to 64 bits.
pub fn sext(v: u64, bits: u32) -> (r: u64)
    requires
        1 <= bits < 64,
    ensures
        r == sign_extend(v, bits as nat),
{
    let ghost v0 = v;
    proof {
        let b = bits as u64;
        lemma_u64_pow2_no_overflow(b as nat);
        lemma_u64_pow2_no_overflow((b - 1) as nat);
        lemma_u64_shl_is_mul(1, b);
        lemma_u64_shl_is_mul(1, (b - 1) as u64);
        lemma_pow2_pos(b as nat);
        assert((1u64 << bits) == (1u64 << b));
    }
    let m = 1u64 << (bits - 1);
    let v = v & ((1u64 << bits) - 1);
    proof {
        let b = bits as u64;
        lemma_sext_bits(v0, b);
        lemma_u64_low_bits_mask_is_mod(v0, b as nat);
        lemma_pow2_adds((b - 1) as nat, 1);
        lemma2_to64();
        lemma2_to64_rest();
        assert(((1u64 << b) - 1) as u64 == low_bits_mask(b as nat) as u64);
        assert(v == v0 % (pow2(b as nat) as u64));
    }
    if v & m != 0 {
        v | (!0u64 << bits)
    } else {
        v
    }
}

/// Decode (opcode, rd, rs1, rs2, funct3, funct7).
pub fn fn_rv32(inst: u64) -> (r: (u64, u64, u64, u64, u64, u64))
    ensures
        r == fields(inst),
{
    (inst & 0x7f, (inst >> 7 & 0x1f), (inst >> 15 & 0x1f), (inst >> 20 & 0x1f), (inst >> 12 & 0x7), (
    inst >> 25 & 0x7f))
}

/// Legacy ADD encoder with every field masked to its width.
pub fn enc_add(rd: u64, rs1: u64, rs2: u64) -> (r: u64)
    ensures
        r == r_word(0, rs2 & 0x1f, rs1 & 0x1f, 0, rd & 0x1f, OP_OP),
{
    proof {
        assert((OP_OP & 0x7f) | ((rd & 0x1f) << 7) | ((0x0u64 & 0x7) << 12) | ((rs1 & 0x1f) << 15)
            | ((rs2 & 0x1f) << 20) == r_word(0, rs2 & 0x1f, rs1 & 0x1f, 0, rd & 0x1f, OP_OP))
            by (bit_vector);
    }
    (OP_OP & 0x7f) | ((rd & 0x1f) << 7) | ((0x0 & 0x7) << 12) | ((rs1 & 0x1f) << 15) | ((rs2
        & 0x1f) << 20)
}

// ---------------------------------------------------------------------------
// Laws: decoding an encoded word gives its fields back
// ---------------------------------------------------------------------------

/// Decoding an R-type word whose fields fit their widths returns those fields.
pub proof fn lemma_decode_r_word(funct7: u64, rs2: u64, rs1: u64, funct3: u64, rd: u64, opcode: u64)
    requires
        funct7 < 128,
        rs2 < 32,
        rs1 < 32,
        funct3 < 8,
        rd < 32,
        opcode < 128,
    ensures
        fields(r_word(funct7, rs2, rs1, funct3, rd, opcode)) == (opcode, rd, rs1, rs2, funct3, funct7),
{
    let w = r_word(funct7, rs2, rs1, funct3, rd, opcode);
    assert(w & 0x7f == opcode && (w >> 7 & 0x1f) == rd && (w >> 15 & 0x1f) == rs1 && (w >> 20 & 0x1f)
        == rs2 && (w >> 12 & 0x7) == funct3 && (w >> 25 & 0x7f) == funct7) by (bit_vector)
        requires
            w == opcode | (rd << 7) | (funct3 << 12) | (rs1 << 15) | (rs2 << 20) | (funct7 << 25),
            funct7 < 128,
            rs2 < 32,
            rs1 < 32,
            funct3 < 8,
            rd < 32,
            opcode < 128,
    ;
}

/// Decoding an I-type word returns its opcode, rd, rs1, funct3 and the 12-bit immediate.
pub proof fn lemma_decode_i_word(opcode: u64, funct3: u64, rd: u64, rs1: u64, imm12: u64)
    requires
        funct3 < 8,
        rd < 32,
        rs1 < 32,
        opcode < 128,
    ensures
        ({
            let w = i_word(opcode, funct3, rd, rs1, imm12);
            &&& w & 0x7f == opcode
            &&& w >> 7 & 0x1f == rd
            &&& w >> 15 & 0x1f == rs1
            &&& w >> 12 & 0x7 == funct3
            &&& imm_i_raw(w) == imm12 & 0xfff
            &&& w >> 20 & 0x1f == imm12 & 0x1f
            &&& w >> 25 & 0x7f == (imm12 & 0xfff) >> 5
        }),
{
    let w = i_word(opcode, funct3, rd, rs1, imm12);
    assert(w & 0x7f == opcode && (w >> 7 & 0x1f) == rd && (w >> 15 & 0x1f) == rs1 && (w >> 12 & 0x7)
        == funct3 && (w >> 20 & 0xfff) == imm12 & 0xfff && (w >> 20 & 0x1f) == imm12 & 0x1f && (w
        >> 25 & 0x7f) == (imm12 & 0xfff) >> 5) by (bit_vector)
        requires
            w == opcode | (rd << 7) | (funct3 << 12) | (rs1 << 15) | ((imm12 & 0xfff) << 20),
            funct3 < 8,
            rd < 32,
            rs1 < 32,
            opcode < 128,
    ;
}

/// Decoding an S-type word returns its opcode, rs1, rs2, funct3 and the 12-bit immediate.
pub proof fn lemma_decode_s_word(opcode: u64, funct3: u64, rs1: u64, rs2: u64, imm12: u64)
    requires
        funct3 < 8,
        rs1 < 32,
        rs2 < 32,
        opcode < 128,
    ensures
        ({
            let w = s_word(opcode, funct3, rs1, rs2, imm12);
            &&& w & 0x7f == opcode
            &&& w >> 15 & 0x1f == rs1
            &&& w >> 20 & 0x1f == rs2
            &&& w >> 12 & 0x7 == funct3
            &&& imm_s_raw(w) == imm12 & 0xfff
        }),
{
    let w = s_word(opcode, funct3, rs1, rs2, imm12);
    let imm = imm12 & 0xfff;
    assert(w & 0x7f == opcode && (w >> 15 & 0x1f) == rs1 && (w >> 20 & 0x1f) == rs2 && (w >> 12
        & 0x7) == funct3 && (((w >> 25 & 0x7f) << 5) | (w >> 7 & 0x1f)) == imm12 & 0xfff)
        by (bit_vector)
        requires
            w == opcode | (((imm12 & 0xfff) & 0x1f) << 7) | (funct3 << 12) | (rs1 << 15) | (rs2
                << 20) | (((imm12 & 0xfff) >> 5) << 25),
            funct3 < 8,
            rs1 < 32,
            rs2 < 32,
            opcode < 128,
    ;
}

/// Decoding a B-type word returns its opcode, rs1, rs2, funct3 and the immediate with bit 0 cleared.
pub proof fn lemma_decode_b_word(opcode: u64, funct3: u64, rs1: u64, rs2: u64, imm13: u64)
    requires
        funct3 < 8,
        rs1 < 32,
        rs2 < 32,
        opcode < 128,
    ensures
        ({
            let w = b_word(opcode, funct3, rs1, rs2, imm13);
            &&& w & 0x7f == opcode
            &&& w >> 15 & 0x1f == rs1
            &&& w >> 20 & 0x1f == rs2
            &&& w >> 12 & 0x7 == funct3
            &&& imm_b_raw(w) == imm13 & 0x1ffe
        }),
{
    let w = b_word(opcode, funct3, rs1, rs2, imm13);
    assert(w & 0x7f == opcode && (w >> 15 & 0x1f) == rs1 && (w >> 20 & 0x1f) == rs2 && (w >> 12
        & 0x7) == funct3 && (((w >> 31 & 1) << 12) | ((w >> 7 & 1) << 11) | ((w >> 25 & 0x3f) << 5)
        | ((w >> 8 & 0x0f) << 1)) == imm13 & 0x1ffe) by (bit_vector)
        requires
            w == opcode | (((imm13 & 0x1fff) >> 1 & 0x0f) << 8) | (((imm13 & 0x1fff) >> 5 & 0x3f)
                << 25) | (((imm13 & 0x1fff) >> 11 & 1) << 7) | (((imm13 & 0x1fff) >> 12 & 1) << 31)
                | (funct3 << 12) | (rs1 << 15) | (rs2 << 20),
            funct3 < 8,
            rs1 < 32,
            rs2 < 32,
            opcode < 128,
    ;
}

/// Decoding a U-type word returns its opcode, rd and the 20-bit upper immediate.
pub proof fn lemma_decode_u_word(opcode: u64, rd: u64, imm20: u64)
    requires
        rd < 32,
        opcode < 128,
    ensures
        ({
            let w = u_word(opcode, rd, imm20);
            &&& w & 0x7f == opcode
            &&& w >> 7 & 0x1f == rd
            &&& (w >> 12) & 0xfffff == imm20 & 0xfffff
        }),
{
    let w = u_word(opcode, rd, imm20);
    assert(w & 0x7f == opcode && (w >> 7 & 0x1f) == rd && ((w >> 12) & 0xfffff) == imm20 & 0xfffff)
        by (bit_vector)
        requires
            w == opcode | (rd << 7) | ((imm20 & 0xfffff) << 12),
            rd < 32,
            opcode < 128,
    ;
}

/// Decoding a J-type word returns its opcode, rd and the immediate with bit 0 cleared.
pub proof fn lemma_decode_j_word(opcode: u64, rd: u64, imm21: u64)
    requires
        rd < 32,
        opcode < 128,
    ensures
        ({
            let w = j_word(opcode, rd, imm21);
            &&& w & 0x7f == opcode
            &&& w >> 7 & 0x1f == rd
            &&& imm_j_raw(w) == imm21 & 0x1ffffe
        }),
{
    let w = j_word(opcode, rd, imm21);
    assert(w & 0x7f == opcode && (w >> 7 & 0x1f) == rd && (((w >> 31 & 1) << 20) | ((w >> 12 & 0xff)
        << 12) | ((w >> 20 & 1) << 11) | ((w >> 21 & 0x3ff) << 1)) == imm21 & 0x1ffffe)
        by (bit_vector)
        requires
            w == opcode | (rd << 7) | (((imm21 & 0x1fffff) >> 12 & 0xff) << 12) | (((imm21
                & 0x1fffff) >> 11 & 1) << 20) | (((imm21 & 0x1fffff) >> 1 & 0x3ff) << 21) | (((imm21
                & 0x1fffff) >> 20 & 1) << 31),
            rd < 32,
            opcode < 128,
    ;
}

} // verus!
