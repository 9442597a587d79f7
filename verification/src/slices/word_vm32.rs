//! Word-VM program images: the torture program (every RV32I instruction with
//! boundary operands, 50 words from 0x00 to the halt row at 0xc4) and the
//! bubblesort image that sorts `mem[0..8]` ascending (unsigned).

use vstd::prelude::*;
use crate::vm32::isa::{
    OP_OP, OP_OPIMM, OP_LOAD, OP_STORE, OP_BRANCH, OP_LUI, OP_AUIPC, OP_JAL, OP_JALR, r_word, i_word,
    s_word, b_word, u_word, j_word, addi, and, andi, auipc, beq, bge, bgeu, blt, bltu, bne, jal, jalr, lhs_lui, lhs_lw, or, ori, sll, slli, slt, slti, sltiu, sltu, sra, srai, srl, srli, sw, xor, xori,
};

verus! {

/// The torture program: word at each address (0 off the listing).
pub open spec fn torture_word(addr: u64) -> u64 {
    match addr {
        0x00 => u_word(OP_LUI, 1, 0xabcde),
        0x04 => u_word(OP_AUIPC, 2, 0x00000),
        0x08 => i_word(OP_OPIMM, 0x0, 1, 0, 0x7ff),
        0x0c => i_word(OP_OPIMM, 0x2, 3, 1, 0x7ff),
        0x10 => i_word(OP_OPIMM, 0x3, 3, 1, 0x7ff),
        0x14 => i_word(OP_OPIMM, 0x4, 4, 1, 0xfff),
        0x18 => i_word(OP_OPIMM, 0x6, 4, 4, 0x0ff),
        0x1c => i_word(OP_OPIMM, 0x7, 4, 4, 0x0f0),
        0x20 => i_word(OP_OPIMM, 0x1, 5, 4, 31u64 & 0x1f),
        0x24 => i_word(OP_OPIMM, 0x5, 5, 5, 0u64 & 0x1f),
        0x28 => i_word(OP_OPIMM, 0x5, 5, 5, 0x400u64 | (31u64 & 0x1f)),
        0x2c => r_word(0x0, 3, 1, 0x0, 6, OP_OP),
        0x30 => r_word(0x20, 3, 1, 0x0, 7, OP_OP),
        0x34 => r_word(0x0, 4, 3, 0x1, 5, OP_OP),
        0x38 => r_word(0x0, 3, 1, 0x2, 5, OP_OP),
        0x3c => r_word(0x0, 3, 1, 0x3, 5, OP_OP),
        0x40 => r_word(0x0, 3, 1, 0x4, 5, OP_OP),
        0x44 => r_word(0x0, 4, 5, 0x5, 5, OP_OP),
        0x48 => r_word(0x20, 4, 5, 0x5, 5, OP_OP),
        0x4c => r_word(0x0, 3, 1, 0x6, 5, OP_OP),
        0x50 => r_word(0x0, 3, 1, 0x7, 5, OP_OP),
        0x54 => i_word(OP_LOAD, 0x2, 8, 0, 24),
        0x58 => s_word(OP_STORE, 0x2, 0, 8, 24),
        0x5c => b_word(OP_BRANCH, 0x0, 1, 3, 4),
        0x60 => b_word(OP_BRANCH, 0x1, 1, 3, 4),
        0x64 => b_word(OP_BRANCH, 0x4, 3, 1, 4),
        0x68 => b_word(OP_BRANCH, 0x5, 1, 1, 4),
        0x6c => b_word(OP_BRANCH, 0x6, 1, 3, 4),
        0x70 => b_word(OP_BRANCH, 0x7, 3, 1, 4),
        0x74 => j_word(OP_JAL, 9, 4),
        0x78 => i_word(OP_JALR, 0, 9, 0, 0x7c),
        0x7c => i_word(OP_OPIMM, 0x0, 10, 0, 1),
        0x80 => i_word(OP_OPIMM, 0x0, 0, 0, 0x7ff),
        0x84 => i_word(OP_OPIMM, 0x7, 0, 0, 0xfff),
        0x88 => u_word(OP_LUI, 11, 0x80000),
        0x8c => i_word(OP_OPIMM, 0x5, 11, 11, 0x400u64 | (31u64 & 0x1f)),
        0x90 => u_word(OP_LUI, 12, 0x80000),
        0x94 => r_word(0x20, 31, 12, 0x5, 12, OP_OP),
        0x98 => u_word(OP_LUI, 16, 0x80000),
        0x9c => i_word(OP_OPIMM, 0x5, 16, 16, 31u64 & 0x1f),
        0xa0 => i_word(OP_OPIMM, 0x0, 13, 0, 0xfff),
        0xa4 => i_word(OP_OPIMM, 0x0, 14, 0, 1),
        0xa8 => r_word(0x0, 14, 13, 0x2, 15, OP_OP),
        0xac => i_word(OP_OPIMM, 0x2, 15, 13, 1),
        0xb0 => r_word(0x0, 14, 13, 0x3, 15, OP_OP),
        0xb4 => i_word(OP_OPIMM, 0x3, 15, 13, 1),
        0xb8 => i_word(OP_OPIMM, 0x0, 15, 0, 0xff),
        0xbc => r_word(0x0, 4, 15, 0x1, 15, OP_OP),
        0xc0 => r_word(0x20, 13, 0, 0x0, 16, OP_OP),
        0xc4 => i_word(OP_OPIMM, 0x0, 0, 0, 0),
        _ => 0,
    }
}

/// Fetch function of the torture program.
pub fn fetch_word(addr: u64) -> (r: u64)
    ensures
        r == torture_word(addr),
{
    match addr {
        0x00 => lhs_lui(1, 0xabcde),
        0x04 => auipc(2, 0x00000),
        0x08 => addi(1, 0, 0x7ff),
        0x0c => slti(3, 1, 0x7ff),
        0x10 => sltiu(3, 1, 0x7ff),
        0x14 => xori(4, 1, 0xfff),
        0x18 => ori(4, 4, 0x0ff),
        0x1c => andi(4, 4, 0x0f0),
        0x20 => slli(5, 4, 31),
        0x24 => srli(5, 5, 0),
        0x28 => srai(5, 5, 31),
        0x2c => crate::vm32::isa::add(6, 1, 3),
        0x30 => crate::vm32::isa::sub(7, 1, 3),
        0x34 => sll(5, 3, 4),
        0x38 => slt(5, 1, 3),
        0x3c => sltu(5, 1, 3),
        0x40 => xor(5, 1, 3),
        0x44 => srl(5, 5, 4),
        0x48 => sra(5, 5, 4),
        0x4c => or(5, 1, 3),
        0x50 => and(5, 1, 3),
        0x54 => lhs_lw(8, 0, 24),
        0x58 => sw(8, 0, 24),
        0x5c => beq(1, 3, 4),
        0x60 => bne(1, 3, 4),
        0x64 => blt(3, 1, 4),
        0x68 => bge(1, 1, 4),
        0x6c => bltu(1, 3, 4),
        0x70 => bgeu(3, 1, 4),
        0x74 => jal(9, 4),
        0x78 => jalr(9, 0, 0x7c),
        0x7c => addi(10, 0, 1),
        0x80 => addi(0, 0, 0x7ff),
        0x84 => andi(0, 0, 0xfff),
        0x88 => lhs_lui(11, 0x80000),
        0x8c => srai(11, 11, 31),
        0x90 => lhs_lui(12, 0x80000),
        0x94 => sra(12, 12, 31),
        0x98 => lhs_lui(16, 0x80000),
        0x9c => srli(16, 16, 31),
        0xa0 => addi(13, 0, 0xfff),
        0xa4 => addi(14, 0, 1),
        0xa8 => slt(15, 13, 14),
        0xac => slti(15, 13, 1),
        0xb0 => sltu(15, 13, 14),
        0xb4 => sltiu(15, 13, 1),
        0xb8 => addi(15, 0, 0xff),
        0xbc => sll(15, 15, 4),
        0xc0 => crate::vm32::isa::sub(16, 0, 13),
        0xc4 => addi(0, 0, 0),
        _ => 0,
    }
}

/// Bubblesort image as (address, word) overrides, in address order.
pub open spec fn bubble_image() -> Seq<(u64, u64)> {
    seq![
        (0x00u64, i_word(OP_OPIMM, 0x0, 3, 0, 7)),
        (0x04u64, b_word(OP_BRANCH, 0x0, 1, 3, 0x30)),
        (0x08u64, i_word(OP_OPIMM, 0x0, 2, 0, 0)),
        (0x0cu64, r_word(0x0, 2, 0, 0x0, 4, OP_OP)),
        (0x10u64, i_word(OP_LOAD, 0x2, 5, 4, 0)),
        (0x14u64, i_word(OP_LOAD, 0x2, 6, 4, 1)),
        (0x18u64, b_word(OP_BRANCH, 0x6, 5, 6, 12)),
        (0x1cu64, s_word(OP_STORE, 0x2, 4, 6, 0)),
        (0x20u64, s_word(OP_STORE, 0x2, 4, 5, 1)),
        (0x24u64, i_word(OP_OPIMM, 0x0, 2, 2, 1)),
        (0x28u64, b_word(OP_BRANCH, 0x1, 2, 3, 0xffffffe4)),
        (0x2cu64, i_word(OP_OPIMM, 0x0, 1, 1, 1)),
        (0x30u64, b_word(OP_BRANCH, 0x1, 1, 3, 0xffffffd4)),
        (0x34u64, j_word(OP_JAL, 0, 144)),
        (0xc4u64, i_word(OP_OPIMM, 0x0, 0, 0, 0)),
    ]
}

/// Bubblesort program image, sorted by address.
pub fn bubble_words() -> (r: Vec<(u64, u64)>)
    ensures
        r@ == bubble_image(),
{
    let mut w: Vec<(u64, u64)> = Vec::new();
    w.push((0x00, addi(3, 0, 7)));
    w.push((0x04, beq(1, 3, 0x30)));
    w.push((0x08, addi(2, 0, 0)));
    w.push((0x0c, crate::vm32::isa::add(4, 0, 2)));
    w.push((0x10, lhs_lw(5, 4, 0)));
    w.push((0x14, lhs_lw(6, 4, 1)));
    w.push((0x18, bltu(5, 6, 12)));
    w.push((0x1c, sw(6, 4, 0)));
    w.push((0x20, sw(5, 4, 1)));
    w.push((0x24, addi(2, 2, 1)));
    w.push((0x28, bne(2, 3, 0xffffffe4)));
    w.push((0x2c, addi(1, 1, 1)));
    w.push((0x30, bne(1, 3, 0xffffffd4)));
    w.push((0x34, jal(0, 144)));
    w.push((0xc4, addi(0, 0, 0)));
    assert(w@ =~= bubble_image());
    w
}

} // verus!
