//! The word VM with a 2^16-word RAM and an offline (sorted) memory argument.
//!
//! The interpreter `run_program_big` runs the RV32I subset with `lw`/`sw`
//! only (the computed address is a word index modulo `K`); a run ends after
//! the cycle that executes an `ecall` (opcode `0x73`). Each cycle yields one
//! event row (a read, a write, or a placeholder row at `PAD_ADDR`), and the
//! rows are arranged into the event side and the address-sorted stream of
//! the memory argument.

use vstd::prelude::*;
use crate::bits::{bv_fields, bv_u64};
use crate::vm32::isa::{
    OP_LUI, OP_AUIPC, OP_JAL, OP_JALR, OP_BRANCH, OP_LOAD, OP_STORE, OP_OPIMM, OP_OP, NRAM, i_word,
    s_word, b_word, u_word, j_word, r_word, enc_i, enc_s, enc_b, enc_u, enc_j, enc_r, sext, fn_rv32,
};
use crate::vm32::alu32::{
    alu_reg, alu_imm, branch_taken, exec_alu_reg, exec_alu_imm, exec_branch_taken,
};
use crate::vm32::interp::{
    RegAccess, MemAccess, Cycle, CycleView, MachineState, opcode_of, rd_of, rs1_of, rs2_of,
    funct3_of, funct7_of, imm_i, imm_s, imm_b, imm_j, imm_u, program_word, lookup_override,
    fetch_ok, program_of, lemma_field_bounds,
};
use crate::slices::ram_sort::{
    addresses, sorted_stream, event_side, address_list, sort_visits, visit_side, last_write,
    events_at, touches,
};
use crate::slices::stream_laws::{
    honest_events, row_kind_ok, stream_ok, lemma_honest_stream_ok, lemma_stream_is_rearrangement,
    lemma_stream_sorted_by_address,
};
pub use crate::slices::ram_sort::{Visit, K_INIT, K_READ, K_WRITE, K_FINAL};

verus! {

/// Address bits of the RAM.
pub const K_BITS: usize = 16;
/// RAM size in words, `2^K_BITS`.
pub const K: usize = 0x1_0000;
/// Base word address of the data array.
pub const BASE: u64 = 0x1000;
/// Number of words the built-in program sorts.
pub const N: usize = 16;
/// Address of the placeholder rows of cycles without a memory access.
pub const PAD_ADDR: u64 = 0xffff;
/// Address whose final value is the public output (the smallest sorted word).
pub const OUT_ADDR: u64 = BASE;

// ---------------------------------------------------------------------------
// Encoders (immediates given as signed numbers)
// ---------------------------------------------------------------------------

fn i_enc(op: u64, f3: u64, rd: u64, rs1: u64, imm: i64) -> (r: u64)
    ensures
        r == i_word(op, f3, rd, rs1, imm as u64),
{
    enc_i(op, f3, rd, rs1, imm as u64)
}

fn s_enc(op: u64, f3: u64, rs2: u64, rs1: u64, imm: i64) -> (r: u64)
    ensures
        r == s_word(op, f3, rs1, rs2, imm as u64),
{
    enc_s(op, f3, rs1, rs2, imm as u64)
}

fn b_enc(op: u64, f3: u64, rs2: u64, rs1: u64, imm: i64) -> (r: u64)
    ensures
        r == b_word(op, f3, rs1, rs2, imm as u64),
{
    enc_b(op, f3, rs1, rs2, imm as u64)
}

fn j_enc(op: u64, rd: u64, imm: i64) -> (r: u64)
    ensures
        r == j_word(op, rd, imm as u64),
{
    enc_j(op, rd, imm as u64)
}

pub fn addi(rd: u64, rs1: u64, imm: i64) -> (r: u64)
    ensures
        r == i_word(OP_OPIMM, 0, rd, rs1, imm as u64),
{
    i_enc(OP_OPIMM, 0, rd, rs1, imm)
}

pub fn lui(rd: u64, imm20: i64) -> (r: u64)
    ensures
        r == u_word(OP_LUI, rd, imm20 as u64),
{
    enc_u(OP_LUI, rd, imm20 as u64)
}

pub fn lw(rd: u64, rs1: u64, imm: i64) -> (r: u64)
    ensures
        r == i_word(OP_LOAD, 2, rd, rs1, imm as u64),
{
    i_enc(OP_LOAD, 2, rd, rs1, imm)
}

pub fn sw(rs2: u64, rs1: u64, imm: i64) -> (r: u64)
    ensures
        r == s_word(OP_STORE, 2, rs1, rs2, imm as u64),
{
    s_enc(OP_STORE, 2, rs2, rs1, imm)
}

pub fn blt(rs1: u64, rs2: u64, imm: i64) -> (r: u64)
    ensures
        r == b_word(OP_BRANCH, 4, rs1, rs2, imm as u64),
{
    b_enc(OP_BRANCH, 4, rs2, rs1, imm)
}

pub fn bge(rs1: u64, rs2: u64, imm: i64) -> (r: u64)
    ensures
        r == b_word(OP_BRANCH, 5, rs1, rs2, imm as u64),
{
    b_enc(OP_BRANCH, 5, rs2, rs1, imm)
}

pub fn bltu(rs1: u64, rs2: u64, imm: i64) -> (r: u64)
    ensures
        r == b_word(OP_BRANCH, 6, rs1, rs2, imm as u64),
{
    b_enc(OP_BRANCH, 6, rs2, rs1, imm)
}

pub fn bgeu(rs1: u64, rs2: u64, imm: i64) -> (r: u64)
    ensures
        r == b_word(OP_BRANCH, 7, rs1, rs2, imm as u64),
{
    b_enc(OP_BRANCH, 7, rs2, rs1, imm)
}

pub fn jal(rd: u64, imm: i64) -> (r: u64)
    ensures
        r == j_word(OP_JAL, rd, imm as u64),
{
    j_enc(OP_JAL, rd, imm)
}

pub fn r_enc(f3: u64, f7: u64, rd: u64, rs1: u64, rs2: u64) -> (r: u64)
    ensures
        r == r_word(f7, rs2, rs1, f3, rd, OP_OP),
{
    enc_r(f7, rs2, rs1, f3, rd, OP_OP)
}

pub fn add(rd: u64, rs1: u64, rs2: u64) -> (r: u64)
    ensures
        r == r_word(0, rs2, rs1, 0, rd, OP_OP),
{
    r_enc(0, 0, rd, rs1, rs2)
}

pub fn sub(rd: u64, rs1: u64, rs2: u64) -> (r: u64)
    ensures
        r == r_word(0x20, rs2, rs1, 0, rd, OP_OP),
{
    r_enc(0, 0x20, rd, rs1, rs2)
}

pub fn sll(rd: u64, rs1: u64, rs2: u64) -> (r: u64)
    ensures
        r == r_word(0, rs2, rs1, 1, rd, OP_OP),
{
    r_enc(1, 0, rd, rs1, rs2)
}

pub fn srl(rd: u64, rs1: u64, rs2: u64) -> (r: u64)
    ensures
        r == r_word(0, rs2, rs1, 5, rd, OP_OP),
{
    r_enc(5, 0, rd, rs1, rs2)
}

pub fn xor(rd: u64, rs1: u64, rs2: u64) -> (r: u64)
    ensures
        r == r_word(0, rs2, rs1, 4, rd, OP_OP),
{
    r_enc(4, 0, rd, rs1, rs2)
}

pub fn or(rd: u64, rs1: u64, rs2: u64) -> (r: u64)
    ensures
        r == r_word(0, rs2, rs1, 6, rd, OP_OP),
{
    r_enc(6, 0, rd, rs1, rs2)
}

pub fn and(rd: u64, rs1: u64, rs2: u64) -> (r: u64)
    ensures
        r == r_word(0, rs2, rs1, 7, rd, OP_OP),
{
    r_enc(7, 0, rd, rs1, rs2)
}

// ---------------------------------------------------------------------------
// The built-in program: store n pseudo-random words at BASE.., bubblesort them
// (unsigned, ascending), halt.
// ---------------------------------------------------------------------------

/// The `i`-th data word.
pub open spec fn data_word(i: int) -> int {
    (i * 7919 + 13) % 9973
}

/// Upper part of the `lui`/`addi` pair that builds `v`: `addi` sign-extends
/// its 12-bit immediate, so a low part of 0x800 or more borrows one from it.
pub open spec fn split_hi(v: int) -> int {
    if v % 4096 >= 0x800 {
        v / 4096 + 1
    } else {
        v / 4096
    }
}

/// Lower (signed) part of the `lui`/`addi` pair that builds `v`.
pub open spec fn split_lo(v: int) -> int {
    if v % 4096 >= 0x800 {
        v % 4096 - 0x1000
    } else {
        v % 4096
    }
}

/// Word `r` (0..5) of the five that store data word `j` at `BASE + j`.
pub open spec fn data_instr(j: int, r: int) -> u64 {
    let d = data_word(j);
    let addr = BASE + j;
    if r == 0 {
        u_word(OP_LUI, 15, split_hi(d) as u64)
    } else if r == 1 {
        i_word(OP_OPIMM, 0, 15, 15, split_lo(d) as u64)
    } else if r == 2 {
        u_word(OP_LUI, 16, (addr / 4096) as u64)
    } else if r == 3 {
        i_word(OP_OPIMM, 0, 16, 16, (addr % 4096) as u64)
    } else {
        s_word(OP_STORE, 2, 16, 15, 0)
    }
}

/// The bubblesort loop over `n` words (x12 = i, x14 = j, x16 = &a[j]),
/// ending with the halting `ecall`. Branch offsets are relative.
pub open spec fn sort_words(n: int) -> Seq<u64> {
    let m = n - 1;
    seq![
        u_word(OP_LUI, 12, 0),
        u_word(OP_LUI, 15, (m / 4096) as u64),
        i_word(OP_OPIMM, 0, 15, 15, (m % 4096) as u64),
        b_word(OP_BRANCH, 7, 12, 15, 72),
        u_word(OP_LUI, 14, 0),
        u_word(OP_LUI, 15, (m / 4096) as u64),
        i_word(OP_OPIMM, 0, 15, 15, (m % 4096) as u64),
        r_word(0x20, 12, 15, 0, 15, OP_OP),
        b_word(OP_BRANCH, 7, 14, 15, 44),
        u_word(OP_LUI, 16, 1),
        i_word(OP_OPIMM, 0, 16, 16, 0),
        r_word(0, 14, 16, 0, 16, OP_OP),
        i_word(OP_LOAD, 2, 17, 16, 0),
        i_word(OP_LOAD, 2, 18, 16, 1),
        b_word(OP_BRANCH, 7, 18, 17, 12),
        s_word(OP_STORE, 2, 16, 18, 0),
        s_word(OP_STORE, 2, 16, 17, 1),
        i_word(OP_OPIMM, 0, 14, 14, 1),
        j_word(OP_JAL, 0, (-52int) as u64),
        i_word(OP_OPIMM, 0, 12, 12, 1),
        j_word(OP_JAL, 0, (-76int) as u64),
        0x73u64,
    ]
}

/// The whole program sorting `n` words.
pub open spec fn prog_words(n: nat) -> Seq<u64> {
    Seq::new(5 * n, |k: int| data_instr(k / 5, k % 5)) + sort_words(n as int)
}

/// Floor split of `m` into `m / 4096` and `m % 4096` (as `>> 12` and `& 0xfff` do).
fn split4096(m: i64) -> (r: (i64, i64))
    requires
        m >= -1,
    ensures
        r.0 == m as int / 4096,
        r.1 == m as int % 4096,
{
    if m >= 0 {
        (m / 4096, m % 4096)
    } else {
        (-1, 0xfff)
    }
}

/// Word `slot` of the program that sorts `n` words (`ecall` past its end).
pub fn prog_image(slot: usize, n: usize) -> (w: u64)
    requires
        5 * n + 32 <= usize::MAX,
        n < 0x4000_0000_0000,
    ensures
        w == (if slot < prog_words(n as nat).len() {
            prog_words(n as nat)[slot as int]
        } else {
            0x73u64
        }),
{
    let mut p: Vec<u64> = Vec::new();
    let base: i64 = BASE as i64;
    let mut j: usize = 0;
    while j < n
        invariant
            j <= n < 0x4000_0000_0000,
            5 * n + 32 <= usize::MAX,
            base == BASE,
            p@ == Seq::new(5 * j as nat, |k: int| data_instr(k / 5, k % 5)),
        decreases n - j,
    {
        let v: i64 = ((j as i64) * 7919 + 13) % 9973;
        let hi0 = v / 4096;
        let lo0 = v % 4096;
        let (hi, lo) = if lo0 >= 0x800 {
            (hi0 + 1, lo0 - 0x1000)
        } else {
            (hi0, lo0)
        };
        let addr = base + j as i64;
        let ghost before = p@;
        p.push(lui(15, hi));
        p.push(addi(15, 15, lo));
        p.push(lui(16, addr / 4096));
        p.push(addi(16, 16, addr % 4096));
        p.push(sw(15, 16, 0));
        proof {
            let f = |k: int| data_instr(k / 5, k % 5);
            assert forall|k: int| 0 <= k < 5 * (j + 1) implies #[trigger] p@[k] == f(k) by {
                if k < 5 * j {
                    assert(p@[k] == before[k]);
                } else {
                    assert(k / 5 == j);
                }
            }
            assert(p@ =~= Seq::new(5 * (j + 1) as nat, f));
        }
        j = j + 1;
    }
    let w: i64 = (5 * n) as i64;
    let (mh, ml) = split4096(n as i64 - 1);
    let ghost data_part = p@;
    p.push(lui(12, 0));
    p.push(lui(15, mh));
    p.push(addi(15, 15, ml));
    p.push(bgeu(12, 15, ((w + 21) - (w + 3)) * 4));
    p.push(lui(14, 0));
    p.push(lui(15, mh));
    p.push(addi(15, 15, ml));
    p.push(self::sub(15, 15, 12));
    p.push(bgeu(14, 15, ((w + 19) - (w + 8)) * 4));
    p.push(lui(16, base / 4096));
    p.push(addi(16, 16, base % 4096));
    p.push(self::add(16, 16, 14));
    p.push(lw(17, 16, 0));
    p.push(lw(18, 16, 1));
    p.push(bgeu(18, 17, ((w + 17) - (w + 14)) * 4));
    p.push(sw(18, 16, 0));
    p.push(sw(17, 16, 1));
    p.push(addi(14, 14, 1));
    p.push(jal(0, ((w + 5) - (w + 18)) * 4));
    p.push(addi(12, 12, 1));
    p.push(jal(0, ((w + 1) - (w + 20)) * 4));
    p.push(0x00000073);
    proof {
        assert(p@ =~= data_part + sort_words(n as int));
    }
    if slot < p.len() {
        p[slot]
    } else {
        0x00000073
    }
}

/// Program fetch: the word at byte address `pc` of the program sorting `N` words.
pub fn prog_fetch(pc: u64) -> (w: u64)
    ensures
        w == (if ((pc >> 2) as usize) < prog_words(N as nat).len() {
            prog_words(N as nat)[(pc >> 2) as usize as int]
        } else {
            0x73u64
        }),
{
    let slot = (pc >> 2) as usize;
    prog_image(slot, N)
}

// ---------------------------------------------------------------------------
// Interpreter over the 2^16-word RAM
// ---------------------------------------------------------------------------

/// Opcode of the halting `ecall`.
pub const OP_SYSTEM: u64 = 0x73;
/// The longest run `run_program_big` executes.
pub const MAX_BIG_CYCLES: usize = 100_000;

/// A run of the big-RAM machine.
pub struct BigTrace {
    pub cycles: Vec<Cycle>,
    pub final_regs: [u32; 32],
    pub final_mem: Vec<u32>,
}

pub open spec fn big_initial_state(init_mem: Seq<u32>) -> MachineState {
    MachineState {
        regs: Seq::new(32, |i: int| 0u32),
        rver: Seq::new(32, |i: int| 0usize),
        mem: init_mem,
        ramver: Seq::new(K as nat, |i: int| 0usize),
        pc: 0,
    }
}

pub open spec fn is_lw(inst: u64) -> bool {
    opcode_of(inst) == OP_LOAD && funct3_of(inst) == 2
}

pub open spec fn is_sw(inst: u64) -> bool {
    opcode_of(inst) == OP_STORE && funct3_of(inst) == 2
}

/// `rs1 + imm_i` as a word index of the RAM.
pub open spec fn big_load_addr(s: MachineState, inst: u64) -> u64 {
    ((s.regs[rs1_of(inst) as int] as u64).wrapping_add(imm_i(inst))) & 0xffff
}

/// `rs1 + imm_s` as a word index of the RAM.
pub open spec fn big_store_addr(s: MachineState, inst: u64) -> u64 {
    ((s.regs[rs1_of(inst) as int] as u64).wrapping_add(imm_s(inst))) & 0xffff
}

/// Value written back to `rd` (before the x0 rule); `None` when nothing is written.
pub open spec fn big_write_value(s: MachineState, inst: u64) -> Option<u32> {
    let op = opcode_of(inst);
    let x = s.regs[rs1_of(inst) as int];
    let y = s.regs[rs2_of(inst) as int];
    if op == OP_OP {
        Some(alu_reg(x, y, funct3_of(inst), funct7_of(inst)))
    } else if op == OP_OPIMM {
        Some(
            alu_imm(
                x,
                imm_i(inst) as u32,
                (imm_i(inst) & 0x1f) as u32,
                funct3_of(inst),
                funct7_of(inst) == 0x20,
            ),
        )
    } else if op == OP_LUI {
        Some(imm_u(inst) as u32)
    } else if op == OP_AUIPC {
        Some(s.pc.wrapping_add(imm_u(inst)) as u32)
    } else if op == OP_JAL || op == OP_JALR {
        Some(s.pc.wrapping_add(4) as u32)
    } else if is_lw(inst) {
        Some(s.mem[big_load_addr(s, inst) as int])
    } else {
        None
    }
}

/// Program counter after a cycle; the `jalr` base is the register value
/// before the cycle, as for every other operand.
pub open spec fn big_next_pc(s: MachineState, inst: u64) -> u64 {
    let op = opcode_of(inst);
    if op == OP_BRANCH && branch_taken(
        s.regs[rs1_of(inst) as int],
        s.regs[rs2_of(inst) as int],
        funct3_of(inst),
    ) {
        s.pc.wrapping_add(imm_b(inst)) & 0xffff_ffff
    } else if op == OP_JAL {
        s.pc.wrapping_add(imm_j(inst)) & 0xffff_ffff
    } else if op == OP_JALR {
        ((s.regs[rs1_of(inst) as int] as u64).wrapping_add(imm_i(inst))) & 0xffff_fffe
    } else {
        s.pc.wrapping_add(4)
    }
}

/// One cycle of the big-RAM machine: its record and the state after it.
/// The write record carries the register's version before the write; x0
/// keeps its value and version.
pub open spec fn big_step(s: MachineState, inst: u64) -> (CycleView, MachineState) {
    let rd = rd_of(inst) as int;
    let rs1 = rs1_of(inst);
    let rs2 = rs2_of(inst);
    let y = s.regs[rs2 as int];
    let reads = seq![
        RegAccess { reg: rs1 as usize, ver: s.rver[rs1 as int], val: s.regs[rs1 as int] },
        RegAccess { reg: rs2 as usize, ver: s.rver[rs2 as int], val: y },
    ];
    let la = big_load_addr(s, inst) as int;
    let sa = big_store_addr(s, inst) as int;
    let load = if is_lw(inst) {
        Some(MemAccess { addr: la as usize, ver: s.ramver[la], val: s.mem[la] })
    } else {
        None
    };
    let store = if is_sw(inst) {
        Some(MemAccess { addr: sa as usize, ver: (s.ramver[sa] + 1) as usize, val: y })
    } else {
        None
    };
    let wv = big_write_value(s, inst);
    let writes = wv is Some && rd != 0;
    let regs = if writes {
        s.regs.update(rd, wv.unwrap())
    } else {
        s.regs
    };
    let rver = if writes {
        s.rver.update(rd, (s.rver[rd] + 1) as usize)
    } else {
        s.rver
    };
    let write = match wv {
        Some(v) => Some(RegAccess { reg: rd as usize, ver: s.rver[rd], val: v }),
        None => None,
    };
    let mem = if is_sw(inst) {
        s.mem.update(sa, y)
    } else {
        s.mem
    };
    let ramver = if is_sw(inst) {
        s.ramver.update(sa, (s.ramver[sa] + 1) as usize)
    } else {
        s.ramver
    };
    let cycle = CycleView {
        pc: s.pc,
        inst,
        reads,
        write,
        regver: s.rver,
        load,
        store,
        ramver: Seq::new(NRAM as nat, |i: int| 0usize),
        mem_addr: la as usize,
        m_q: 0,
    };
    (cycle, MachineState { regs, rver, mem, ramver, pc: big_next_pc(s, inst) })
}

/// `(t mod 2^64) mod 2^32 == t mod 2^32`, seen through `wrapping_add` and a
/// cast to 32 bits.
proof fn lemma_wrap_low32(x: u64, y: u64)
    ensures
        (x.wrapping_add(y) as u32) as int == (x as int + y as int) % 0x1_0000_0000,
{
    let v = x.wrapping_add(y);
    bv_u64(v);
    if x as int + y as int > u64::MAX {
        assert(v as int == x as int + y as int - 0x1_0000_0000_0000_0000);
        vstd::arithmetic::div_mod::lemma_mod_multiples_vanish(
            -0x1_0000_0000int,
            x as int + y as int,
            0x1_0000_0000int,
        );
    }
}

/// Law (upper immediates and links on the big-RAM machine): a cycle at pc
/// `p` with `rd != 0` writes to `rd`, with `u = inst[31:12] << 12`: for
/// `lui` (opcode 0x37) `u`; for `auipc` (0x17) `(p + u) mod 2^32`; for
/// `jal` (0x6f) and `jalr` (0x67) the return address `(p + 4) mod 2^32`.
pub proof fn lemma_big_upper_and_link(s: MachineState, inst: u64)
    requires
        s.regs.len() == crate::vm32::isa::NREG,
        (inst >> 7) & 0x1f != 0,
    ensures
        ({
            let rd = ((inst >> 7) & 0x1f) as int;
            let op = inst & 0x7f;
            let u = ((inst / 0x1000) % 0x10_0000) * 0x1000;
            let v = big_step(s, inst).1.regs[rd] as int;
            &&& op == 0x37 ==> v == u
            &&& op == 0x17 ==> v == (s.pc as int + u) % 0x1_0000_0000
            &&& (op == 0x6f || op == 0x67) ==> v == (s.pc as int + 4) % 0x1_0000_0000
        }),
{
    lemma_field_bounds(inst);
    bv_fields(inst);
    bv_u64(((inst >> 12) & 0xfffff) << 12);
    lemma_wrap_low32(s.pc, imm_u(inst));
    lemma_wrap_low32(s.pc, 4);
}

/// The records and final state of the first `n` cycles.
pub open spec fn big_run_n(
    prog: spec_fn(u64) -> u64,
    ov: Seq<(u64, u64)>,
    init_mem: Seq<u32>,
    n: nat,
) -> (Seq<CycleView>, MachineState)
    decreases n,
{
    if n == 0 {
        (seq![], big_initial_state(init_mem))
    } else {
        let prev = big_run_n(prog, ov, init_mem, (n - 1) as nat);
        let s = prev.1;
        let r = big_step(s, program_word(prog, ov, s.pc));
        (prev.0.push(r.0), r.1)
    }
}

/// Word executed by cycle `t`.
pub open spec fn big_inst_at(prog: spec_fn(u64) -> u64, ov: Seq<(u64, u64)>, init_mem: Seq<u32>, t: nat) -> u64 {
    program_word(prog, ov, big_run_n(prog, ov, init_mem, t).1.pc)
}

/// The run has exactly `n` cycles: cycle `n - 1` is the first `ecall`.
pub open spec fn big_halts_at(prog: spec_fn(u64) -> u64, ov: Seq<(u64, u64)>, init_mem: Seq<u32>, n: nat) -> bool {
    &&& n >= 1
    &&& opcode_of(big_inst_at(prog, ov, init_mem, (n - 1) as nat)) == OP_SYSTEM
    &&& forall|t: nat| t < n - 1 ==> opcode_of(#[trigger] big_inst_at(prog, ov, init_mem, t)) != OP_SYSTEM
}

/// Shape of a big-machine state after `steps` cycles.
pub open spec fn big_state_ok(s: MachineState, steps: nat) -> bool {
    &&& s.regs.len() == 32
    &&& s.rver.len() == 32
    &&& s.mem.len() == K
    &&& s.ramver.len() == K
    &&& forall|i: int| 0 <= i < 32 ==> s.rver[i] <= steps
    &&& forall|i: int| 0 <= i < K ==> s.ramver[i] <= steps
    &&& s.pc <= 0xffff_ffff + 4 * steps
}

/// Exec mirror of the big-machine state.
struct BigMachine {
    regs: [u32; 32],
    rver: [usize; 32],
    mem: Vec<u32>,
    ramver: Vec<usize>,
    pc: u64,
}

impl View for BigMachine {
    type V = MachineState;

    closed spec fn view(&self) -> MachineState {
        MachineState {
            regs: self.regs@,
            rver: self.rver@,
            mem: self.mem@,
            ramver: self.ramver@,
            pc: self.pc,
        }
    }
}

proof fn lemma_mask_bounds(x: u64)
    ensures
        (x & 0xffff) < 0x1_0000,
        (x & 0xffff_ffff) <= 0xffff_ffff,
        (x & 0xffff_fffe) <= 0xffff_ffff,
        (x & 0x1f) < 32,
{
    bv_u64(x);
}

/// Execute one cycle on the exec state.
fn big_exec_step(m: &mut BigMachine, inst: u64, Ghost(steps): Ghost<nat>) -> (c: Cycle)
    requires
        big_state_ok(old(m)@, steps),
        steps < MAX_BIG_CYCLES,
    ensures
        (c@, final(m)@) == big_step(old(m)@, inst),
        big_state_ok(final(m)@, steps + 1),
{
    let ghost s = m@;
    proof {
        lemma_field_bounds(inst);
    }
    let (opcode, rd, rs1, rs2, funct3, funct7) = fn_rv32(inst);
    let rd = rd as usize;
    let rs1 = rs1 as usize;
    let rs2 = rs2 as usize;
    let imm_i = sext(inst >> 20 & 0xfff, 12);
    let imm_s = sext(((inst >> 25 & 0x7f) << 5) | (inst >> 7 & 0x1f), 12);
    let imm_b = sext(
        ((inst >> 31 & 1) << 12) | ((inst >> 7 & 1) << 11) | ((inst >> 25 & 0x3f) << 5) | ((inst >> 8
            & 0x0f) << 1),
        13,
    );
    let imm_u = ((inst >> 12) & 0xfffff) << 12;
    let imm_j = sext(
        ((inst >> 31 & 1) << 20) | ((inst >> 12 & 0xff) << 12) | ((inst >> 20 & 1) << 11) | ((inst
            >> 21 & 0x3ff) << 1),
        21,
    );
    let cycle_rv = m.rver;
    let x = m.regs[rs1];
    let y = m.regs[rs2];
    let mut reads: Vec<RegAccess> = Vec::new();
    reads.push(RegAccess { reg: rs1, ver: m.rver[rs1], val: x });
    reads.push(RegAccess { reg: rs2, ver: m.rver[rs2], val: y });
    let a = x as u64;
    let addr_calc = (a.wrapping_add(imm_i)) & 0xffff;
    let st_addr = (a.wrapping_add(imm_s)) & 0xffff;
    proof {
        lemma_mask_bounds(a.wrapping_add(imm_i));
        lemma_mask_bounds(a.wrapping_add(imm_s));
        lemma_mask_bounds(imm_i);
    }
    let la = addr_calc as usize;
    let sa = st_addr as usize;
    let mut load: Option<MemAccess> = None;
    let mut store: Option<MemAccess> = None;
    if opcode == OP_LOAD && funct3 == 0x2 {
        load = Some(MemAccess { addr: la, ver: m.ramver[la], val: m.mem[la] });
    } else if opcode == OP_STORE && funct3 == 0x2 {
        let v = m.ramver[sa] + 1;
        m.mem.set(sa, y);
        m.ramver.set(sa, v);
        store = Some(MemAccess { addr: sa, ver: v, val: y });
    }
    let taken = exec_branch_taken(x, y, funct3);
    let mut alu_sum: u32 = 0;
    let mut is_alu_write = false;
    if opcode == OP_OP {
        alu_sum = exec_alu_reg(x, y, funct3, funct7);
        is_alu_write = true;
    } else if opcode == OP_OPIMM {
        alu_sum = exec_alu_imm(x, imm_i as u32, (imm_i & 0x1f) as u32, funct3, funct7 == 0x20);
        is_alu_write = true;
    } else if opcode == OP_LUI {
        alu_sum = imm_u as u32;
        is_alu_write = true;
    } else if opcode == OP_AUIPC {
        alu_sum = m.pc.wrapping_add(imm_u) as u32;
        is_alu_write = true;
    } else if opcode == OP_JAL || opcode == OP_JALR {
        alu_sum = m.pc.wrapping_add(4) as u32;
        is_alu_write = true;
    } else if opcode == OP_LOAD && funct3 == 0x2 {
        alu_sum = m.mem[la];
        is_alu_write = true;
    }
    let wr_ver = m.rver[rd];
    if is_alu_write && rd != 0 {
        m.regs[rd] = alu_sum;
        m.rver[rd] = m.rver[rd] + 1;
    }
    let pc = m.pc;
    let next = if opcode == OP_BRANCH && taken {
        pc.wrapping_add(imm_b) & 0xffff_ffff
    } else if opcode == OP_JAL {
        pc.wrapping_add(imm_j) & 0xffff_ffff
    } else if opcode == OP_JALR {
        ((x as u64).wrapping_add(imm_i)) & 0xffff_fffe
    } else {
        pc + 4
    };
    proof {
        lemma_mask_bounds(pc.wrapping_add(imm_b));
        lemma_mask_bounds(pc.wrapping_add(imm_j));
        lemma_mask_bounds((x as u64).wrapping_add(imm_i));
    }
    m.pc = next;
    let c = Cycle {
        pc,
        inst,
        reads,
        write: if is_alu_write {
            Some(RegAccess { reg: rd, ver: wr_ver, val: alu_sum })
        } else {
            None
        },
        regver: cycle_rv,
        load,
        store,
        ramver: [0usize; NRAM],
        mem_addr: la,
        m_q: 0,
    };
    proof {
        let (cv, s2) = big_step(s, inst);
        assert(c@.reads =~= cv.reads);
        assert(c@.ramver =~= cv.ramver);
        assert(m@.regs =~= s2.regs);
        assert(m@.rver =~= s2.rver);
        assert(m@.mem =~= s2.mem);
        assert(m@.ramver =~= s2.ramver);
    }
    c
}

/// Run the program from pc 0 with registers zero and RAM `init_mem` until
/// the cycle that executes an `ecall`; `word_overrides` replace program
/// words (the first entry for an address wins).
pub fn run_program_big<F: Fn(u64) -> u64>(
    init_mem: &[u32],
    word_overrides: &[(u64, u64)],
    fetch: F,
) -> (t: BigTrace)
    requires
        init_mem@.len() == K,
        fetch_ok(fetch),
        exists|n: nat|
            n <= MAX_BIG_CYCLES && big_halts_at(program_of(fetch), word_overrides@, init_mem@, n),
    ensures
        ({
            let run = big_run_n(program_of(fetch), word_overrides@, init_mem@, t.cycles@.len());
            &&& big_halts_at(program_of(fetch), word_overrides@, init_mem@, t.cycles@.len())
            &&& t.cycles@.len() <= MAX_BIG_CYCLES
            &&& t.cycles@.map_values(|c: Cycle| c@) == run.0
            &&& t.final_regs@ == run.1.regs
            &&& t.final_mem@ == run.1.mem
        }),
{
    let ghost prog = program_of(fetch);
    let ghost ov = word_overrides@;
    let ghost im = init_mem@;
    let ghost n: nat = choose|n: nat| n <= MAX_BIG_CYCLES && big_halts_at(prog, ov, im, n);
    let mut mem: Vec<u32> = Vec::new();
    let mut i: usize = 0;
    while i < init_mem.len()
        invariant
            i <= init_mem@.len(),
            mem@ == init_mem@.take(i as int),
        decreases init_mem.len() - i,
    {
        mem.push(init_mem[i]);
        assert(init_mem@.take(i + 1) =~= init_mem@.take(i as int).push(init_mem@[i as int]));
        i = i + 1;
    }
    assert(init_mem@.take(i as int) =~= init_mem@);
    let mut m = BigMachine {
        regs: [0u32; 32],
        rver: [0usize; 32],
        mem,
        ramver: vec![0usize; K],
        pc: 0,
    };
    proof {
        assert(m@ == big_initial_state(im)) by {
            assert(m@.regs =~= big_initial_state(im).regs);
            assert(m@.rver =~= big_initial_state(im).rver);
            assert(m@.ramver =~= big_initial_state(im).ramver);
        }
    }
    let mut cycles: Vec<Cycle> = Vec::new();
    let mut done = false;
    while !done
        invariant
            fetch_ok(fetch),
            prog == program_of(fetch),
            ov == word_overrides@,
            im == init_mem@,
            n <= MAX_BIG_CYCLES,
            big_halts_at(prog, ov, im, n),
            cycles@.len() <= n,
            done ==> cycles@.len() == n,
            !done ==> cycles@.len() < n,
            m@ == big_run_n(prog, ov, im, cycles@.len()).1,
            !done ==> big_state_ok(m@, cycles@.len()),
            cycles@.map_values(|c: Cycle| c@) == big_run_n(prog, ov, im, cycles@.len()).0,
        decreases n - cycles@.len(),
    {
        let t = cycles.len();
        let pc = m.pc;
        let inst = match lookup_override(word_overrides, pc) {
            Some(w) => w,
            None => {
                let r = fetch(pc);
                proof {
                    let c = choose|r: u64| fetch.ensures((pc,), r);
                    assert(fetch.ensures((pc,), c));
                }
                r
            },
        };
        assert(inst == program_word(prog, ov, pc));
        assert(inst == big_inst_at(prog, ov, im, t as nat));
        let c = big_exec_step(&mut m, inst, Ghost(t as nat));
        let ghost old_cycles = cycles@;
        cycles.push(c);
        let halted = (inst & 0x7f) == OP_SYSTEM;
        proof {
            let f = |c: Cycle| c@;
            assert(cycles@.map_values(f) =~= old_cycles.map_values(f).push(c@));
            if !halted {
                assert(opcode_of(big_inst_at(prog, ov, im, (n - 1) as nat)) == OP_SYSTEM);
            } else {
                if t < n - 1 {
                    assert(opcode_of(big_inst_at(prog, ov, im, t as nat)) != OP_SYSTEM);
                }
            }
        }
        if halted {
            done = true;
        }
    }
    BigTrace { cycles, final_regs: m.regs, final_mem: m.mem }
}

/// Run as `run_program_big` does, but stop after `MAX_BIG_CYCLES` cycles:
/// `None` when no `ecall` has executed by then.
pub fn try_run_program_big<F: Fn(u64) -> u64>(
    init_mem: &[u32],
    word_overrides: &[(u64, u64)],
    fetch: F,
) -> (r: Option<BigTrace>)
    requires
        init_mem@.len() == K,
        fetch_ok(fetch),
    ensures
        match r {
            Some(t) => {
                let run = big_run_n(program_of(fetch), word_overrides@, init_mem@, t.cycles@.len());
                &&& big_halts_at(program_of(fetch), word_overrides@, init_mem@, t.cycles@.len())
                &&& t.cycles@.len() <= MAX_BIG_CYCLES
                &&& t.cycles@.map_values(|c: Cycle| c@) == run.0
                &&& t.final_regs@ == run.1.regs
                &&& t.final_mem@ == run.1.mem
            },
            None => forall|n: nat|
                n <= MAX_BIG_CYCLES ==> !big_halts_at(program_of(fetch), word_overrides@, init_mem@, n),
        },
{
    let ghost prog = program_of(fetch);
    let ghost ov = word_overrides@;
    let ghost im = init_mem@;
    let mut mem: Vec<u32> = Vec::new();
    let mut i: usize = 0;
    while i < init_mem.len()
        invariant
            i <= init_mem@.len(),
            mem@ == init_mem@.take(i as int),
        decreases init_mem.len() - i,
    {
        mem.push(init_mem[i]);
        assert(init_mem@.take(i + 1) =~= init_mem@.take(i as int).push(init_mem@[i as int]));
        i = i + 1;
    }
    assert(init_mem@.take(i as int) =~= init_mem@);
    let mut m = BigMachine {
        regs: [0u32; 32],
        rver: [0usize; 32],
        mem,
        ramver: vec![0usize; K],
        pc: 0,
    };
    proof {
        assert(m@ == big_initial_state(im)) by {
            assert(m@.regs =~= big_initial_state(im).regs);
            assert(m@.rver =~= big_initial_state(im).rver);
            assert(m@.ramver =~= big_initial_state(im).ramver);
        }
    }
    let mut cycles: Vec<Cycle> = Vec::new();
    while cycles.len() < MAX_BIG_CYCLES
        invariant
            fetch_ok(fetch),
            prog == program_of(fetch),
            ov == word_overrides@,
            im == init_mem@,
            cycles@.len() <= MAX_BIG_CYCLES,
            m@ == big_run_n(prog, ov, im, cycles@.len()).1,
            big_state_ok(m@, cycles@.len()),
            cycles@.map_values(|c: Cycle| c@) == big_run_n(prog, ov, im, cycles@.len()).0,
            forall|u: nat| u < cycles@.len() ==> opcode_of(#[trigger] big_inst_at(prog, ov, im, u)) != OP_SYSTEM,
        decreases MAX_BIG_CYCLES - cycles@.len(),
    {
        let t = cycles.len();
        let pc = m.pc;
        let inst = match lookup_override(word_overrides, pc) {
            Some(w) => w,
            None => {
                let r = fetch(pc);
                proof {
                    let c = choose|r: u64| fetch.ensures((pc,), r);
                    assert(fetch.ensures((pc,), c));
                }
                r
            },
        };
        assert(inst == program_word(prog, ov, pc));
        assert(inst == big_inst_at(prog, ov, im, t as nat));
        let c = big_exec_step(&mut m, inst, Ghost(t as nat));
        let ghost old_cycles = cycles@;
        cycles.push(c);
        proof {
            let f = |c: Cycle| c@;
            assert(cycles@.map_values(f) =~= old_cycles.map_values(f).push(c@));
        }
        if (inst & 0x7f) == OP_SYSTEM {
            proof {
                assert(big_halts_at(prog, ov, im, (t + 1) as nat));
            }
            return Some(BigTrace { cycles, final_regs: m.regs, final_mem: m.mem });
        }
    }
    proof {
        assert forall|n: nat| n <= MAX_BIG_CYCLES implies !big_halts_at(prog, ov, im, n) by {
            if n >= 1 {
                assert(opcode_of(big_inst_at(prog, ov, im, (n - 1) as nat)) != OP_SYSTEM);
            }
        }
    }
    None
}

// ---------------------------------------------------------------------------
// Event rows and the sorted stream
// ---------------------------------------------------------------------------

/// The event row of cycle `t`: its read, else its write, else a placeholder
/// row `(PAD_ADDR, t, 0, K_INIT)`.
pub open spec fn event_row(c: CycleView, t: nat) -> Visit {
    match c.load {
        Some(ld) => Visit { addr: ld.addr as u64, ts: t as u64, val: ld.val as u64, kind: K_READ },
        None => match c.store {
            Some(st) => Visit {
                addr: st.addr as u64,
                ts: t as u64,
                val: st.val as u64,
                kind: K_WRITE,
            },
            None => Visit { addr: PAD_ADDR, ts: t as u64, val: 0, kind: K_INIT },
        },
    }
}

/// The event rows of a run, one per cycle.
pub open spec fn event_rows_of(cycles: Seq<CycleView>) -> Seq<Visit> {
    Seq::new(cycles.len(), |t: int| event_row(cycles[t], t as nat))
}

/// The rows of `rows` at address `a` keep their order, and rows stamped with
/// their position come out in strictly ascending timestamps.
proof fn lemma_events_at_ts(rows: Seq<Visit>, a: u64)
    requires
        forall|k: int| 0 <= k < rows.len() ==> #[trigger] rows[k].ts == k,
    ensures
        forall|i: int, j: int|
            0 <= i < j < events_at(rows, a).len() ==> events_at(rows, a)[i].ts < events_at(
                rows,
                a,
            )[j].ts,
        forall|i: int| 0 <= i < events_at(rows, a).len() ==> #[trigger] events_at(rows, a)[i].ts < rows.len(),
    decreases rows.len(),
{
    if rows.len() > 0 {
        let r2 = rows.drop_last();
        assert forall|k: int| 0 <= k < r2.len() implies #[trigger] r2[k].ts == k by {
            assert(r2[k] == rows[k]);
        }
        lemma_events_at_ts(r2, a);
        let prev = events_at(r2, a);
        let e = events_at(rows, a);
        assert(rows.last().ts == rows.len() - 1);
        assert forall|i: int| 0 <= i < e.len() implies #[trigger] e[i].ts < rows.len() by {
            if i < prev.len() {
                assert(e[i] == prev[i]);
            }
        }
        assert forall|i: int, j: int| 0 <= i < j < e.len() implies e[i].ts < e[j].ts by {
            assert(e[i] == prev[i]);
            if j < prev.len() {
                assert(e[j] == prev[j]);
            }
        }
    }
}

/// Law (the sorted memory stream of a run): the sorted stream `build_sorted`
/// makes of a run's event rows holds exactly the rows of the event side
/// `event_rows` makes (so both have the same length), visits addresses in
/// non-decreasing order, holds only touched addresses, and within each
/// address group lists the rows of that address in ascending timestamp
/// order (each group being the init row, those rows, and the final row).
pub proof fn lemma_run_stream(cv: Seq<CycleView>)
    requires
        cv.len() < u64::MAX,
    ensures
        ({
            let rows = event_rows_of(cv);
            let fts = (cv.len() + 1) as u64;
            let s = sorted_stream(rows, addresses(rows), Some(PAD_ADDR), fts);
            let side = event_side(rows, addresses(rows), Some(PAD_ADDR), fts);
            &&& rows.len() == cv.len()
            &&& s.to_multiset() == side.to_multiset()
            &&& s.len() == side.len()
            &&& forall|i: int, j: int| 0 <= i < j < s.len() ==> s[i].addr <= s[j].addr
            &&& forall|i: int| 0 <= i < s.len() ==> touches(rows, #[trigger] s[i].addr)
            &&& forall|a: u64, i: int, j: int|
                0 <= i < j < events_at(rows, a).len() ==> #[trigger] events_at(rows, a)[i].ts
                    < #[trigger] events_at(rows, a)[j].ts
        }),
{
    let rows = event_rows_of(cv);
    let fts = (cv.len() + 1) as u64;
    lemma_stream_is_rearrangement(rows, Some(PAD_ADDR), fts);
    lemma_stream_sorted_by_address(rows, Some(PAD_ADDR), fts);
    assert forall|k: int| 0 <= k < rows.len() implies #[trigger] rows[k].ts == k by {
        assert(rows[k] == event_row(cv[k], k as nat));
    }
    assert forall|a: u64, i: int, j: int|
        0 <= i < j < events_at(rows, a).len() implies #[trigger] events_at(rows, a)[i].ts
            < #[trigger] events_at(rows, a)[j].ts by {
        lemma_events_at_ts(rows, a);
    }
}

/// Sorted stream of `events`: per touched address (ascending) its init row
/// (none for `PAD_ADDR`), its rows in order, and its final row at timestamp
/// `events.len() + 1` carrying the last value written there.
pub fn build_sorted(events: &[Visit]) -> (s: Vec<Visit>)
    requires
        events@.len() < u64::MAX,
    ensures
        s@ == sorted_stream(
            events@,
            addresses(events@),
            Some(PAD_ADDR),
            (events@.len() + 1) as u64,
        ),
{
    let t = events.len();
    let addrs = address_list(events);
    sort_visits(events, addrs.as_slice(), Some(PAD_ADDR), t as u64 + 1)
}

/// The event rows of a run and its event side (init rows of the touched
/// addresses but `PAD_ADDR`, the rows, the final rows at `cycles + 1`).
pub fn event_rows(trace: &BigTrace) -> (r: (Vec<Visit>, Vec<Visit>))
    requires
        trace.cycles@.len() < u64::MAX,
    ensures
        ({
            let rows = event_rows_of(trace.cycles@.map_values(|c: Cycle| c@));
            &&& r.0@ == rows
            &&& r.1@ == event_side(
                rows,
                addresses(rows),
                Some(PAD_ADDR),
                (trace.cycles@.len() + 1) as u64,
            )
        }),
{
    let ghost cv = trace.cycles@.map_values(|c: Cycle| c@);
    let mut rows: Vec<Visit> = Vec::new();
    let mut t: usize = 0;
    while t < trace.cycles.len()
        invariant
            t <= trace.cycles@.len() < u64::MAX,
            cv == trace.cycles@.map_values(|c: Cycle| c@),
            rows@ == event_rows_of(cv.take(t as int)),
        decreases trace.cycles.len() - t,
    {
        let c = &trace.cycles[t];
        let row = match &c.load {
            Some(ld) => Visit { addr: ld.addr as u64, ts: t as u64, val: ld.val as u64, kind: K_READ },
            None => match &c.store {
                Some(st) => Visit {
                    addr: st.addr as u64,
                    ts: t as u64,
                    val: st.val as u64,
                    kind: K_WRITE,
                },
                None => Visit { addr: PAD_ADDR, ts: t as u64, val: 0, kind: K_INIT },
            },
        };
        rows.push(row);
        proof {
            assert(cv[t as int] == trace.cycles@[t as int]@);
            assert(rows@ =~= event_rows_of(cv.take(t + 1)));
        }
        t = t + 1;
    }
    assert(cv.take(t as int) =~= cv);
    let addrs = address_list(rows.as_slice());
    let side = visit_side(
        rows.as_slice(),
        addrs.as_slice(),
        Some(PAD_ADDR),
        trace.cycles.len() as u64 + 1,
    );
    (rows, side)
}

/// Verifier-side tampering modes.
#[derive(Clone, Copy, PartialEq, Eq, Debug, Structural)]
pub enum Tamper {
    Unchanged,
    BadFinalOut,
    BadRootDen,
    BadDenAddr,
    BadDenVal,
}

// ---------------------------------------------------------------------------
// Per-cycle witness values and the output check
// ---------------------------------------------------------------------------

/// The fifteen per-cycle witness values of the execution circuit, in order:
/// inst, pc, rs1 (reg, val), rs2 (reg, val), write (reg field, value, flag),
/// load (addr, value, flag), store (addr, value, flag). The write value is 0
/// unless the cycle writes a register other than x0; the store address is
/// the load address on cycles without a store; the store value is rs2.
pub open spec fn cycle_values(c: CycleView) -> Seq<u64> {
    let wr_val: u64 = match c.write {
        Some(w) => if w.reg != 0 {
            w.val as u64
        } else {
            0
        },
        None => 0,
    };
    seq![
        c.inst,
        c.pc,
        c.reads[0].reg as u64,
        c.reads[0].val as u64,
        c.reads[1].reg as u64,
        c.reads[1].val as u64,
        (c.inst >> 7) & 0x1f,
        wr_val,
        if c.write is Some { 1u64 } else { 0u64 },
        c.mem_addr as u64,
        match c.load {
            Some(l) => l.val as u64,
            None => 0u64,
        },
        if c.load is Some { 1u64 } else { 0u64 },
        match c.store {
            Some(st) => st.addr as u64,
            None => c.mem_addr as u64,
        },
        c.reads[1].val as u64,
        if c.store is Some { 1u64 } else { 0u64 },
    ]
}

pub fn cycle_columns(c: &Cycle) -> (v: Vec<u64>)
    requires
        c.reads@.len() >= 2,
    ensures
        v@ == cycle_values(c@),
{
    let wr_val: u64 = match &c.write {
        Some(w) => if w.reg != 0 {
            w.val as u64
        } else {
            0
        },
        None => 0,
    };
    let mut v: Vec<u64> = Vec::new();
    v.push(c.inst);
    v.push(c.pc);
    v.push(c.reads[0].reg as u64);
    v.push(c.reads[0].val as u64);
    v.push(c.reads[1].reg as u64);
    v.push(c.reads[1].val as u64);
    v.push((c.inst >> 7) & 0x1f);
    v.push(wr_val);
    v.push(if c.write.is_some() { 1 } else { 0 });
    v.push(c.mem_addr as u64);
    v.push(
        match &c.load {
            Some(l) => l.val as u64,
            None => 0,
        },
    );
    v.push(if c.load.is_some() { 1 } else { 0 });
    v.push(
        match &c.store {
            Some(st) => st.addr as u64,
            None => c.mem_addr as u64,
        },
    );
    v.push(c.reads[1].val as u64);
    v.push(if c.store.is_some() { 1 } else { 0 });
    assert(v@ =~= cycle_values(c@));
    v
}

/// `mem[base..base + n]` is ascending (unsigned).
pub fn words_sorted(mem: &[u32], base: usize, n: usize) -> (ok: bool)
    requires
        n >= 1,
        base + n <= mem@.len(),
    ensures
        ok == forall|i: int| 0 <= i < n - 1 ==> #[trigger] mem@[base + i] <= mem@[base + i + 1],
{
    let mut i: usize = 0;
    while i < n - 1
        invariant
            n >= 1,
            base + n <= mem@.len(),
            i <= n - 1,
            forall|k: int| 0 <= k < i ==> #[trigger] mem@[base + k] <= mem@[base + k + 1],
        decreases n - 1 - i,
    {
        let len = mem.len();
        assert(base + i + 1 < base + n <= len);
        if mem[base + i] > mem[base + i + 1] {
            return false;
        }
        i = i + 1;
    }
    true
}

// ---------------------------------------------------------------------------
// Honest runs pass the memory argument
// ---------------------------------------------------------------------------

proof fn lemma_big_prefix(prog: spec_fn(u64) -> u64, ov: Seq<(u64, u64)>, im: Seq<u32>, n: nat, k: nat)
    requires
        k <= n,
    ensures
        big_run_n(prog, ov, im, n).0.len() == n,
        big_run_n(prog, ov, im, n).0.take(k as int) == big_run_n(prog, ov, im, k).0,
    decreases n,
{
    if n > 0 {
        if k < n {
            lemma_big_prefix(prog, ov, im, (n - 1) as nat, k);
            assert(big_run_n(prog, ov, im, n).0.take(k as int) =~= big_run_n(
                prog,
                ov,
                im,
                (n - 1) as nat,
            ).0.take(k as int));
        } else {
            lemma_big_prefix(prog, ov, im, (n - 1) as nat, (n - 1) as nat);
            assert(big_run_n(prog, ov, im, n).0.take(k as int) =~= big_run_n(prog, ov, im, n).0);
        }
    }
}

/// From a zeroed RAM, each RAM word holds the last value written to it by
/// the rows so far (0 when none).
proof fn lemma_mem_tracks_writes(prog: spec_fn(u64) -> u64, ov: Seq<(u64, u64)>, im: Seq<u32>, n: nat)
    requires
        im.len() == K,
        forall|i: int| 0 <= i < K ==> im[i] == 0,
    ensures
        ({
            let r = big_run_n(prog, ov, im, n);
            &&& r.1.mem.len() == K
            &&& r.1.regs.len() == 32
            &&& forall|a: int|
                0 <= a < K ==> r.1.mem[a] == last_write(event_rows_of(r.0), a as u64)
        }),
    decreases n,
{
    if n == 0 {
        assert forall|a: int| 0 <= a < K implies big_run_n(prog, ov, im, 0).1.mem[a] == last_write(
            event_rows_of(big_run_n(prog, ov, im, 0).0),
            a as u64,
        ) by {
            assert(event_rows_of(big_run_n(prog, ov, im, 0).0) =~= Seq::<Visit>::empty());
        }
    } else {
        let prev = big_run_n(prog, ov, im, (n - 1) as nat);
        lemma_mem_tracks_writes(prog, ov, im, (n - 1) as nat);
        let s = prev.1;
        let inst = program_word(prog, ov, s.pc);
        let st = big_step(s, inst);
        let rows0 = event_rows_of(prev.0);
        let rows1 = event_rows_of(prev.0.push(st.0));
        let row = event_row(st.0, (n - 1) as nat);
        lemma_big_prefix(prog, ov, im, (n - 1) as nat, (n - 1) as nat);
        assert(big_run_n(prog, ov, im, n).0 == prev.0.push(st.0));
        assert(rows1 =~= rows0.push(row));
        assert(rows1.drop_last() =~= rows0);
        lemma_field_bounds(inst);
        lemma_mask_bounds(((s.regs[rs1_of(inst) as int] as u64).wrapping_add(imm_i(inst))));
        lemma_mask_bounds(((s.regs[rs1_of(inst) as int] as u64).wrapping_add(imm_s(inst))));
        assert forall|a: int| 0 <= a < K implies st.1.mem[a] == last_write(rows1, a as u64) by {
            if is_sw(inst) {
                let sa = big_store_addr(s, inst);
                assert(sa as usize as u64 == sa);
            }
        }
    }
}

/// The event rows of the first `n` cycles.
pub open spec fn big_rows(prog: spec_fn(u64) -> u64, ov: Seq<(u64, u64)>, im: Seq<u32>, n: nat) -> Seq<
    Visit,
> {
    event_rows_of(big_run_n(prog, ov, im, n).0)
}

/// Memory accesses avoid `PAD_ADDR` and cycle 0.
pub open spec fn accesses_clear(rows: Seq<Visit>) -> bool {
    forall|k: int|
        0 <= k < rows.len() && (#[trigger] rows[k]).kind != K_INIT ==> rows[k].addr != PAD_ADDR
            && rows[k].ts >= 1
}

/// A run from a zeroed RAM whose memory accesses avoid `PAD_ADDR` and cycle
/// 0 yields honest event rows: every read returns the last value written to
/// its word.
pub proof fn lemma_big_rows_honest(prog: spec_fn(u64) -> u64, ov: Seq<(u64, u64)>, im: Seq<u32>, n: nat)
    requires
        im.len() == K,
        forall|i: int| 0 <= i < K ==> im[i] == 0,
        n < u64::MAX,
        accesses_clear(big_rows(prog, ov, im, n)),
    ensures
        honest_events(big_rows(prog, ov, im, n), Some(PAD_ADDR), (n + 1) as u64),
{
    let rows = big_rows(prog, ov, im, n);
    let cs = big_run_n(prog, ov, im, n).0;
    lemma_big_prefix(prog, ov, im, n, n);
    assert forall|k: int| 0 <= k < rows.len() implies (#[trigger] rows[k]).ts == k by {}
    assert forall|k: int| 0 <= k < rows.len() implies row_kind_ok(#[trigger] rows[k], Some(PAD_ADDR)) by {
        if rows[k].kind == K_INIT {
            assert(rows[k] == event_row(cs[k], k as nat));
        }
    }
    assert forall|k: int| 0 <= k < rows.len() && (#[trigger] rows[k]).kind == K_READ implies rows[k].val
        == last_write(rows.take(k), rows[k].addr) by {
        lemma_big_prefix(prog, ov, im, n, k as nat);
        lemma_big_prefix(prog, ov, im, n, (k + 1) as nat);
        lemma_big_prefix(prog, ov, im, (k + 1) as nat, (k + 1) as nat);
        lemma_mem_tracks_writes(prog, ov, im, k as nat);
        let pk = big_run_n(prog, ov, im, k as nat);
        let s = pk.1;
        let inst = program_word(prog, ov, s.pc);
        let c = big_step(s, inst).0;
        assert(cs.take(k + 1)[k] == cs[k]);
        assert(big_run_n(prog, ov, im, (k + 1) as nat).0[k] == c);
        assert(cs[k] == c);
        assert(rows.take(k) =~= event_rows_of(pk.0));
        lemma_field_bounds(inst);
        lemma_mask_bounds(((s.regs[rs1_of(inst) as int] as u64).wrapping_add(imm_i(inst))));
        let la = big_load_addr(s, inst);
        assert(la as usize as u64 == la);
    }
}

/// Honest runs pass the memory argument: for a run from a zeroed RAM whose
/// memory accesses avoid `PAD_ADDR` and cycle 0, the sorted stream of its
/// event rows passes every check of the memory circuit and holds exactly the
/// rows of the event side.
pub proof fn lemma_big_run_passes(prog: spec_fn(u64) -> u64, ov: Seq<(u64, u64)>, im: Seq<u32>, n: nat)
    requires
        im.len() == K,
        forall|i: int| 0 <= i < K ==> im[i] == 0,
        n < u64::MAX,
        accesses_clear(big_rows(prog, ov, im, n)),
    ensures
        ({
            let rows = big_rows(prog, ov, im, n);
            let fts = (n + 1) as u64;
            let sorted = sorted_stream(rows, addresses(rows), Some(PAD_ADDR), fts);
            &&& stream_ok(sorted)
            &&& sorted.to_multiset() == event_side(rows, addresses(rows), Some(PAD_ADDR), fts).to_multiset()
        }),
{
    let rows = big_rows(prog, ov, im, n);
    lemma_big_rows_honest(prog, ov, im, n);
    lemma_honest_stream_ok(rows, Some(PAD_ADDR), (n + 1) as u64);
    lemma_stream_is_rearrangement(rows, Some(PAD_ADDR), (n + 1) as u64);
}

} // verus!
