//! Native reference interpreter (`run_program`) of the 32-register word VM and
//! its trace types.
//!
//! Machine model: 32 registers (x0 hard-wired to zero), a 64-word RAM, a
//! version counter per register and per RAM word (incremented by every write),
//! and a program supplied by a fetch function, with `word_overrides` taking
//! precedence. `lw`/`sw` treat the computed address as a word index modulo 64;
//! the byte and half-word accesses use RISC-V byte addresses (word index
//! `(addr >> 2) mod 64`, byte offset `addr & 3`). A byte/half-word store is
//! recorded as a read of the old word followed by a write of the merged word.
//! LOAD/STORE words with a funct3 outside the supported set do nothing.
//! The run ends after the cycle that executes the word at `HALT_ADDR`.

use vstd::prelude::*;
use crate::bits::{bv_fields, bv_u64};
use crate::vm32::isa::{
    NREG, NRAM, PC_START, HALT_ADDR, OP_LUI, OP_AUIPC, OP_JAL, OP_JALR, OP_BRANCH, OP_LOAD,
    OP_STORE, OP_OPIMM, OP_OP, F3_LB, F3_LH, F3_LW, F3_LBU, F3_LHU, F3_SB, F3_SH, F3_SW, fields,
    imm_i_raw, imm_s_raw, imm_b_raw, imm_j_raw, sign_extend, sext, fn_rv32,
};
use crate::vm32::alu32::{
    alu_m, alu_reg, alu_imm, m_advice, load_extract, store_merge, branch_taken, exec_alu_m,
    exec_alu_reg, exec_alu_imm, exec_branch_taken, exec_load_extract, exec_store_merge,
};

verus! {

pub struct RegAccess {
    pub reg: usize,
    pub ver: usize,
    pub val: u32,
}

#[derive(Clone, Copy, Debug)]
pub struct MemAccess {
    pub addr: usize,
    pub ver: usize,
    pub val: u32,
}

pub struct Cycle {
    pub pc: u64,
    pub inst: u64,
    /// The rs1 read, then the rs2 read.
    pub reads: Vec<RegAccess>,
    pub write: Option<RegAccess>,
    /// Register versions before this cycle.
    pub regver: [usize; NREG],
    pub load: Option<MemAccess>,
    pub store: Option<MemAccess>,
    /// RAM versions before this cycle.
    pub ramver: [usize; NRAM],
    pub mem_addr: usize,
    /// Advice quotient of the divide family (0 on every other cycle).
    pub m_q: u32,
}

pub struct Trace {
    pub cycles: Vec<Cycle>,
    pub final_regs: [u32; NREG],
    pub final_ramver: [usize; NRAM],
    pub final_mem: [u32; NRAM],
}

/// Mathematical view of one cycle record.
pub struct CycleView {
    pub pc: u64,
    pub inst: u64,
    pub reads: Seq<RegAccess>,
    pub write: Option<RegAccess>,
    pub regver: Seq<usize>,
    pub load: Option<MemAccess>,
    pub store: Option<MemAccess>,
    pub ramver: Seq<usize>,
    pub mem_addr: usize,
    pub m_q: u32,
}

impl View for Cycle {
    type V = CycleView;

    open spec fn view(&self) -> CycleView {
        CycleView {
            pc: self.pc,
            inst: self.inst,
            reads: self.reads@,
            write: self.write,
            regver: self.regver@,
            load: self.load,
            store: self.store,
            ramver: self.ramver@,
            mem_addr: self.mem_addr,
            m_q: self.m_q,
        }
    }
}

/// Architectural state between cycles.
pub struct MachineState {
    pub regs: Seq<u32>,
    pub rver: Seq<usize>,
    pub mem: Seq<u32>,
    pub ramver: Seq<usize>,
    pub pc: u64,
}

pub open spec fn initial_state(init_mem: Seq<u32>) -> MachineState {
    MachineState {
        regs: Seq::new(NREG as nat, |i: int| 0u32),
        rver: Seq::new(NREG as nat, |i: int| 0usize),
        mem: init_mem,
        ramver: Seq::new(NRAM as nat, |i: int| 0usize),
        pc: PC_START,
    }
}

pub open spec fn opcode_of(inst: u64) -> u64 {
    fields(inst).0
}

pub open spec fn rd_of(inst: u64) -> u64 {
    fields(inst).1
}

pub open spec fn rs1_of(inst: u64) -> u64 {
    fields(inst).2
}

pub open spec fn rs2_of(inst: u64) -> u64 {
    fields(inst).3
}

pub open spec fn funct3_of(inst: u64) -> u64 {
    fields(inst).4
}

pub open spec fn funct7_of(inst: u64) -> u64 {
    fields(inst).5
}

pub open spec fn imm_i(inst: u64) -> u64 {
    sign_extend(imm_i_raw(inst), 12)
}

pub open spec fn imm_s(inst: u64) -> u64 {
    sign_extend(imm_s_raw(inst), 12)
}

pub open spec fn imm_b(inst: u64) -> u64 {
    sign_extend(imm_b_raw(inst), 13)
}

pub open spec fn imm_j(inst: u64) -> u64 {
    sign_extend(imm_j_raw(inst), 21)
}

pub open spec fn imm_u(inst: u64) -> u64 {
    ((inst >> 12) & 0xfffff) << 12
}

pub open spec fn is_byte_load(inst: u64) -> bool {
    let f3 = funct3_of(inst);
    opcode_of(inst) == OP_LOAD && (f3 == F3_LB || f3 == F3_LBU || f3 == F3_LH || f3 == F3_LHU)
}

pub open spec fn is_word_load(inst: u64) -> bool {
    opcode_of(inst) == OP_LOAD && funct3_of(inst) == F3_LW
}

pub open spec fn is_byte_store(inst: u64) -> bool {
    let f3 = funct3_of(inst);
    opcode_of(inst) == OP_STORE && (f3 == F3_SB || f3 == F3_SH)
}

pub open spec fn is_word_store(inst: u64) -> bool {
    opcode_of(inst) == OP_STORE && funct3_of(inst) == F3_SW
}

/// `rs1 + imm_i`, as a 32-bit byte address.
pub open spec fn load_address(s: MachineState, inst: u64) -> u64 {
    ((s.regs[rs1_of(inst) as int] as u64).wrapping_add(imm_i(inst))) & 0xffff_ffff
}

/// `rs1 + imm_s`, as a 32-bit byte address.
pub open spec fn store_address(s: MachineState, inst: u64) -> u64 {
    ((s.regs[rs1_of(inst) as int] as u64).wrapping_add(imm_s(inst))) & 0xffff_ffff
}

/// RAM word holding a byte address.
pub open spec fn byte_word_index(addr: u64) -> usize {
    ((addr >> 2) % (NRAM as u64)) as usize
}

/// RAM word addressed by `lw`/`sw` (the address is a word index).
pub open spec fn word_index(addr: u64) -> usize {
    (addr % (NRAM as u64)) as usize
}

/// The RAM read event of a cycle (`lov` replaces the value an `lw` reads).
pub open spec fn load_event(s: MachineState, inst: u64, lov: Option<u32>) -> Option<MemAccess> {
    if is_byte_load(inst) {
        let a = byte_word_index(load_address(s, inst));
        Some(MemAccess { addr: a, ver: s.ramver[a as int], val: s.mem[a as int] })
    } else if is_word_load(inst) {
        let a = word_index(load_address(s, inst));
        let v = match lov {
            Some(o) => o,
            None => s.mem[a as int],
        };
        Some(MemAccess { addr: a, ver: s.ramver[a as int], val: v })
    } else if is_byte_store(inst) {
        let a = byte_word_index(store_address(s, inst));
        Some(MemAccess { addr: a, ver: s.ramver[a as int], val: s.mem[a as int] })
    } else {
        None
    }
}

/// The RAM write event of a cycle.
pub open spec fn store_event(s: MachineState, inst: u64) -> Option<MemAccess> {
    if is_byte_store(inst) {
        let addr = store_address(s, inst);
        let a = byte_word_index(addr);
        let merged = store_merge(
            s.mem[a as int],
            s.regs[rs2_of(inst) as int],
            (addr & 3) as u32,
            funct3_of(inst),
        );
        Some(MemAccess { addr: a, ver: (s.ramver[a as int] + 1) as usize, val: merged })
    } else if is_word_store(inst) {
        let a = word_index(store_address(s, inst));
        Some(
            MemAccess {
                addr: a,
                ver: (s.ramver[a as int] + 1) as usize,
                val: s.regs[rs2_of(inst) as int],
            },
        )
    } else {
        None
    }
}

/// The `mem_addr` column: the store word for byte/half stores, else `(rs1 + imm_i) mod 64`.
pub open spec fn mem_addr_of(s: MachineState, inst: u64) -> usize {
    if is_byte_store(inst) {
        byte_word_index(store_address(s, inst))
    } else {
        word_index(load_address(s, inst))
    }
}

/// Value an instruction writes back to `rd` (before the x0 rule), `None` when it writes nothing.
pub open spec fn write_value(s: MachineState, inst: u64, lov: Option<u32>) -> Option<u32> {
    let op = opcode_of(inst);
    let f3 = funct3_of(inst);
    let x = s.regs[rs1_of(inst) as int];
    let y = s.regs[rs2_of(inst) as int];
    if op == OP_OP {
        if funct7_of(inst) == 1 {
            Some(alu_m(x, y, f3))
        } else {
            Some(alu_reg(x, y, f3, funct7_of(inst)))
        }
    } else if op == OP_OPIMM {
        Some(
            alu_imm(
                x,
                imm_i(inst) as u32,
                ((inst >> 20) & 0x1f) as u32,
                f3,
                funct7_of(inst) & 0x20 != 0,
            ),
        )
    } else if op == OP_LUI {
        Some(imm_u(inst) as u32)
    } else if op == OP_AUIPC {
        Some((s.pc as u32).wrapping_add(imm_u(inst) as u32))
    } else if op == OP_JAL || op == OP_JALR {
        Some((s.pc as u32).wrapping_add(4))
    } else if is_byte_load(inst) {
        let addr = load_address(s, inst);
        Some(load_extract(s.mem[byte_word_index(addr) as int], (addr & 3) as u32, f3))
    } else if is_word_load(inst) {
        Some(load_event(s, inst, lov).unwrap().val)
    } else {
        None
    }
}

/// Advice quotient column of a cycle.
pub open spec fn advice_of(s: MachineState, inst: u64) -> u32 {
    if opcode_of(inst) == OP_OP && funct7_of(inst) == 1 {
        m_advice(s.regs[rs1_of(inst) as int], s.regs[rs2_of(inst) as int], funct3_of(inst))
    } else {
        0
    }
}

/// Program counter after the cycle. Every operand, the `jalr` base included,
/// is the register value before the cycle.
pub open spec fn next_pc(s: MachineState, inst: u64) -> u64 {
    let op = opcode_of(inst);
    if op == OP_JAL {
        s.pc.wrapping_add(imm_j(inst))
    } else if op == OP_JALR {
        ((s.regs[rs1_of(inst) as int] as u64).wrapping_add(imm_i(inst))) & 0xffff_fffe
    } else if op == OP_BRANCH && branch_taken(
        s.regs[rs1_of(inst) as int],
        s.regs[rs2_of(inst) as int],
        funct3_of(inst),
    ) {
        s.pc.wrapping_add(imm_b(inst))
    } else {
        s.pc.wrapping_add(4)
    }
}

/// One cycle: the record it produces and the state after it.
pub open spec fn step(s: MachineState, inst: u64, lov: Option<u32>) -> (CycleView, MachineState) {
    let rd = rd_of(inst) as int;
    let rs1 = rs1_of(inst);
    let rs2 = rs2_of(inst);
    let reads = seq![
        RegAccess { reg: rs1 as usize, ver: s.rver[rs1 as int], val: s.regs[rs1 as int] },
        RegAccess { reg: rs2 as usize, ver: s.rver[rs2 as int], val: s.regs[rs2 as int] },
    ];
    let wv = write_value(s, inst, lov);
    let stored = if wv is Some && rd != 0 {
        wv.unwrap()
    } else {
        0u32
    };
    let regs = if wv is Some {
        s.regs.update(rd, stored)
    } else {
        s.regs
    };
    let rver = if wv is Some {
        s.rver.update(rd, (s.rver[rd] + 1) as usize)
    } else {
        s.rver
    };
    let write = if wv is Some {
        Some(RegAccess { reg: rd as usize, ver: (s.rver[rd] + 1) as usize, val: stored })
    } else {
        None
    };
    let st = store_event(s, inst);
    let mem = match st {
        Some(e) => s.mem.update(e.addr as int, e.val),
        None => s.mem,
    };
    let ramver = match st {
        Some(e) => s.ramver.update(e.addr as int, e.ver),
        None => s.ramver,
    };
    let cycle = CycleView {
        pc: s.pc,
        inst,
        reads,
        write,
        regver: s.rver,
        load: load_event(s, inst, lov),
        store: st,
        ramver: s.ramver,
        mem_addr: mem_addr_of(s, inst),
        m_q: advice_of(s, inst),
    };
    (cycle, MachineState { regs, rver, mem, ramver, pc: next_pc(s, inst) })
}

/// Shape of a machine state: sizes, x0 reads zero, versions bounded by the cycle count.
pub open spec fn state_ok(s: MachineState, steps: nat) -> bool {
    &&& s.regs.len() == NREG
    &&& s.rver.len() == NREG
    &&& s.mem.len() == NRAM
    &&& s.ramver.len() == NRAM
    &&& s.regs[0] == 0
    &&& forall|i: int| 0 <= i < NREG ==> s.rver[i] <= steps
    &&& forall|i: int| 0 <= i < NRAM ==> s.ramver[i] <= steps
}

/// Exec mirror of `MachineState`.
struct Machine {
    regs: [u32; NREG],
    rver: [usize; NREG],
    mem: [u32; NRAM],
    ramver: [usize; NRAM],
    pc: u64,
}

impl View for Machine {
    type V = MachineState;

    closed spec fn view(&self) -> MachineState {
        MachineState {
            regs: self.regs@,
            rver: self.rver@,
            mem: self.mem@,
            ramver: self.ramver@,
            pc: self.pc,
        }
    }
}

/// Every instruction field extracted by shift and mask fits its width.
pub proof fn lemma_field_bounds(inst: u64)
    ensures
        inst & 0x7f < 128,
        inst >> 7 & 0x1f < 32,
        inst >> 15 & 0x1f < 32,
        inst >> 20 & 0x1f < 32,
        inst >> 12 & 0x7 < 8,
        inst >> 25 & 0x7f < 128,
{
    bv_fields(inst);
}

proof fn lemma_addr_bounds(x: u64)
    ensures
        (x & 0xffff_ffff) < 0x1_0000_0000,
        (x & 3) < 4,
        (x & 0xffff_ffff) & 3 < 4,
{
    bv_u64(x);
}

/// Whether `inst` is a half-word access at an odd byte address in state `m`.
fn half_misaligned(m: &Machine, inst: u64) -> (r: bool)
    ensures
        r == misaligned_half(m@, inst),
{
    proof {
        lemma_field_bounds(inst);
    }
    let (opcode, _rd, rs1, _rs2, funct3, _funct7) = fn_rv32(inst);
    let x = m.regs[rs1 as usize] as u64;
    if opcode == OP_LOAD && (funct3 == F3_LH || funct3 == F3_LHU) {
        let imm_i = sext(inst >> 20 & 0xfff, 12);
        let addr = x.wrapping_add(imm_i) & 0xffff_ffff;
        addr % 2 == 1
    } else if opcode == OP_STORE && funct3 == F3_SH {
        let imm_s = sext(((inst >> 25 & 0x7f) << 5) | (inst >> 7 & 0x1f), 12);
        let addr = x.wrapping_add(imm_s) & 0xffff_ffff;
        addr % 2 == 1
    } else {
        false
    }
}

/// Execute one cycle on the exec state.
fn exec_step(m: &mut Machine, inst: u64, lov: Option<u32>, Ghost(steps): Ghost<nat>) -> (c: Cycle)
    requires
        state_ok(old(m)@, steps),
        steps < 0x1000_0000,
    ensures
        (c@, final(m)@) == step(old(m)@, inst, lov),
        state_ok(final(m)@, steps + 1),
{
    let ghost s = m@;
    proof {
        lemma_field_bounds(inst);
    }
    let (opcode, rd, rs1, rs2, funct3, funct7) = fn_rv32(inst);
    let rd = rd as usize;
    let rs1 = rs1 as usize;
    let rs2 = rs2 as usize;
    let imm_i = sext(inst >> 20 & 0xfff, 12);
    let imm_s = sext(((inst >> 25 & 0x7f) << 5) | (inst >> 7 & 0x1f), 12);
    let imm_b = sext(
        ((inst >> 31 & 1) << 12) | ((inst >> 7 & 1) << 11) | ((inst >> 25 & 0x3f) << 5) | ((inst >> 8
            & 0x0f) << 1),
        13,
    );
    let imm_u = ((inst >> 12) & 0xfffff) << 12;
    let imm_j = sext(
        ((inst >> 31 & 1) << 20) | ((inst >> 12 & 0xff) << 12) | ((inst >> 20 & 1) << 11) | ((inst
            >> 21 & 0x3ff) << 1),
        21,
    );
    let cycle_rv = m.rver;
    let cycle_ramv = m.ramver;
    let x = m.regs[rs1];
    let y = m.regs[rs2];
    let mut reads: Vec<RegAccess> = Vec::new();
    reads.push(RegAccess { reg: rs1, ver: m.rver[rs1], val: x });
    reads.push(RegAccess { reg: rs2, ver: m.rver[rs2], val: y });
    let a = x as u64;
    let addr_calc = (a.wrapping_add(imm_i)) & 0xffff_ffff;
    let st_addr = (a.wrapping_add(imm_s)) & 0xffff_ffff;
    proof {
        lemma_addr_bounds(a.wrapping_add(imm_i));
        lemma_addr_bounds(a.wrapping_add(imm_s));
    }
    let lw_idx = (addr_calc % 64) as usize;
    let ld_wi = ((addr_calc >> 2) % 64) as usize;
    let st_wi = ((st_addr >> 2) % 64) as usize;
    let sw_idx = (st_addr % 64) as usize;
    let byte_load = opcode == OP_LOAD && (funct3 == F3_LB || funct3 == F3_LBU || funct3 == F3_LH
        || funct3 == F3_LHU);
    let word_load = opcode == OP_LOAD && funct3 == F3_LW;
    let byte_store = opcode == OP_STORE && (funct3 == F3_SB || funct3 == F3_SH);
    let word_store = opcode == OP_STORE && funct3 == F3_SW;
    let mut mem_addr = lw_idx;
    let mut load: Option<MemAccess> = None;
    let mut store: Option<MemAccess> = None;
    let mut ld_wb: u32 = 0;
    if byte_load {
        let w = m.mem[ld_wi];
        let off = (addr_calc & 3) as u32;
        ld_wb = exec_load_extract(w, off, funct3);
        load = Some(MemAccess { addr: ld_wi, ver: m.ramver[ld_wi], val: w });
    } else if word_load {
        let val = match lov {
            Some(o) => o,
            None => m.mem[lw_idx],
        };
        ld_wb = val;
        load = Some(MemAccess { addr: lw_idx, ver: m.ramver[lw_idx], val });
    } else if byte_store {
        let old = m.mem[st_wi];
        let off = (st_addr & 3) as u32;
        let merged = exec_store_merge(old, y, off, funct3);
        load = Some(MemAccess { addr: st_wi, ver: m.ramver[st_wi], val: old });
        store = Some(MemAccess { addr: st_wi, ver: m.ramver[st_wi] + 1, val: merged });
        mem_addr = st_wi;
    } else if word_store {
        store = Some(MemAccess { addr: sw_idx, ver: m.ramver[sw_idx] + 1, val: y });
    }
    let taken = exec_branch_taken(x, y, funct3);
    // write-back value
    let mut m_q: u32 = 0;
    let mut alu_sum: u32 = 0;
    let mut is_alu_write = false;
    if opcode == OP_OP {
        if funct7 == 0x01 {
            let (v, q) = exec_alu_m(x, y, funct3);
            alu_sum = v;
            m_q = q;
        } else {
            alu_sum = exec_alu_reg(x, y, funct3, funct7);
        }
        is_alu_write = true;
    } else if opcode == OP_OPIMM {
        alu_sum = exec_alu_imm(x, imm_i as u32, ((inst >> 20) & 0x1f) as u32, funct3, funct7 & 0x20 != 0);
        is_alu_write = true;
    } else if opcode == OP_LUI {
        alu_sum = imm_u as u32;
        is_alu_write = true;
    } else if opcode == OP_AUIPC {
        alu_sum = (m.pc as u32).wrapping_add(imm_u as u32);
        is_alu_write = true;
    } else if opcode == OP_JAL || opcode == OP_JALR {
        alu_sum = (m.pc as u32).wrapping_add(4);
        is_alu_write = true;
    } else if byte_load || word_load {
        alu_sum = ld_wb;
        is_alu_write = true;
    }
    let write = if is_alu_write {
        if rd == 0 {
            m.rver[0] = m.rver[0] + 1;
            m.regs[0] = 0;
            Some(RegAccess { reg: 0, ver: m.rver[0], val: 0 })
        } else {
            m.rver[rd] = m.rver[rd] + 1;
            m.regs[rd] = alu_sum;
            Some(RegAccess { reg: rd, ver: m.rver[rd], val: alu_sum })
        }
    } else {
        None
    };
    match store {
        Some(e) => {
            m.mem[e.addr] = e.val;
            m.ramver[e.addr] = e.ver;
        },
        None => {},
    }
    let pc = m.pc;
    let next = if opcode == OP_JAL {
        pc.wrapping_add(imm_j)
    } else if opcode == OP_JALR {
        ((x as u64).wrapping_add(imm_i)) & 0xffff_fffe
    } else if opcode == OP_BRANCH && taken {
        pc.wrapping_add(imm_b)
    } else {
        pc.wrapping_add(4)
    };
    m.pc = next;
    let c = Cycle {
        pc,
        inst,
        reads,
        write,
        regver: cycle_rv,
        load,
        store,
        ramver: cycle_ramv,
        mem_addr,
        m_q,
    };
    proof {
        let (cv, s2) = step(s, inst, lov);
        assert(c@.reads =~= cv.reads);
        assert(m@.regs =~= s2.regs);
        assert(m@.rver =~= s2.rver);
        assert(m@.mem =~= s2.mem);
        assert(m@.ramver =~= s2.ramver);
    }
    c
}


/// First word that `overrides` give for address `a`.
pub open spec fn lookup_first(ov: Seq<(u64, u64)>, a: u64) -> Option<u64>
    decreases ov.len(),
{
    if ov.len() == 0 {
        None
    } else if ov[0].0 == a {
        Some(ov[0].1)
    } else {
        lookup_first(ov.drop_first(), a)
    }
}

/// Last value that `lov` gives for cycle `t`.
pub open spec fn lookup_last(lov: Seq<(usize, u32)>, t: nat) -> Option<u32>
    decreases lov.len(),
{
    if lov.len() == 0 {
        None
    } else if lov.last().0 == t {
        Some(lov.last().1)
    } else {
        lookup_last(lov.drop_last(), t)
    }
}

/// Program word at `pc`: an override if one names `pc`, else the program's own word.
pub open spec fn program_word(prog: spec_fn(u64) -> u64, ov: Seq<(u64, u64)>, pc: u64) -> u64 {
    match lookup_first(ov, pc) {
        Some(w) => w,
        None => prog(pc),
    }
}

/// The records and final state of the first `n` cycles.
pub open spec fn run_n(
    prog: spec_fn(u64) -> u64,
    ov: Seq<(u64, u64)>,
    lov: Seq<(usize, u32)>,
    init_mem: Seq<u32>,
    n: nat,
) -> (Seq<CycleView>, MachineState)
    decreases n,
{
    if n == 0 {
        (seq![], initial_state(init_mem))
    } else {
        let prev = run_n(prog, ov, lov, init_mem, (n - 1) as nat);
        let s = prev.1;
        let r = step(s, program_word(prog, ov, s.pc), lookup_last(lov, (n - 1) as nat));
        (prev.0.push(r.0), r.1)
    }
}

/// State before cycle `t`.
pub open spec fn state_at(
    prog: spec_fn(u64) -> u64,
    ov: Seq<(u64, u64)>,
    lov: Seq<(usize, u32)>,
    init_mem: Seq<u32>,
    t: nat,
) -> MachineState {
    run_n(prog, ov, lov, init_mem, t).1
}

/// The run has exactly `n` cycles: cycle `n - 1` is the first one at `HALT_ADDR`.
pub open spec fn halts_at(
    prog: spec_fn(u64) -> u64,
    ov: Seq<(u64, u64)>,
    lov: Seq<(usize, u32)>,
    init_mem: Seq<u32>,
    n: nat,
) -> bool {
    &&& n >= 1
    &&& state_at(prog, ov, lov, init_mem, (n - 1) as nat).pc == HALT_ADDR
    &&& forall|t: nat| t < n - 1 ==> #[trigger] state_at(prog, ov, lov, init_mem, t).pc != HALT_ADDR
}

/// A half-word access (`lh`, `lhu`, `sh`) at an odd byte address, which the
/// interpreter rejects.
pub open spec fn misaligned_half(s: MachineState, inst: u64) -> bool {
    let f3 = funct3_of(inst);
    ||| opcode_of(inst) == OP_LOAD && (f3 == F3_LH || f3 == F3_LHU) && load_address(s, inst) % 2
        == 1
    ||| opcode_of(inst) == OP_STORE && f3 == F3_SH && store_address(s, inst) % 2 == 1
}

/// None of the first `n` cycles is a misaligned half-word access.
pub open spec fn aligned_upto(
    prog: spec_fn(u64) -> u64,
    ov: Seq<(u64, u64)>,
    lov: Seq<(usize, u32)>,
    init_mem: Seq<u32>,
    n: nat,
) -> bool {
    forall|t: nat|
        t < n ==> !misaligned_half(
            #[trigger] state_at(prog, ov, lov, init_mem, t),
            program_word(prog, ov, state_at(prog, ov, lov, init_mem, t).pc),
        )
}

/// The longest run `run_program` executes.
pub const MAX_CYCLES: usize = 4096;

/// A fetch function usable as a program: callable everywhere and deterministic.
pub open spec fn fetch_ok<F: Fn(u64) -> u64>(fetch: F) -> bool {
    &&& forall|a: u64| #[trigger] fetch.requires((a,))
    &&& forall|a: u64, r1: u64, r2: u64|
        #[trigger] fetch.ensures((a,), r1) && #[trigger] fetch.ensures((a,), r2) ==> r1 == r2
}

/// The word a deterministic fetch function returns for `a`.
pub open spec fn fetched<F: Fn(u64) -> u64>(fetch: F, a: u64) -> u64 {
    choose|r: u64| fetch.ensures((a,), r)
}

pub open spec fn program_of<F: Fn(u64) -> u64>(fetch: F) -> spec_fn(u64) -> u64 {
    |a: u64| fetched(fetch, a)
}

/// Exec lookup of the first override for an address.
pub fn lookup_override(ov: &[(u64, u64)], a: u64) -> (r: Option<u64>)
    ensures
        r == lookup_first(ov@, a),
{
    let mut i: usize = 0;
    assert(ov@.skip(0) =~= ov@);
    while i < ov.len()
        invariant
            i <= ov@.len(),
            lookup_first(ov@, a) == lookup_first(ov@.skip(i as int), a),
        decreases ov.len() - i,
    {
        assert(ov@.skip(i as int)[0] == ov@[i as int]);
        if ov[i].0 == a {
            return Some(ov[i].1);
        }
        assert(ov@.skip(i as int).drop_first() =~= ov@.skip(i + 1));
        i = i + 1;
    }
    assert(ov@.skip(i as int).len() == 0);
    None
}

/// Exec lookup of the last load override for cycle `t`.
pub fn lookup_load_override(lov: &[(usize, u32)], t: usize) -> (r: Option<u32>)
    ensures
        r == lookup_last(lov@, t as nat),
{
    let mut r: Option<u32> = None;
    let mut i: usize = 0;
    while i < lov.len()
        invariant
            i <= lov@.len(),
            r == lookup_last(lov@.take(i as int), t as nat),
        decreases lov.len() - i,
    {
        assert(lov@.take(i + 1).drop_last() =~= lov@.take(i as int));
        assert(lov@.take(i + 1).last() == lov@[i as int]);
        if lov[i].0 == t {
            r = Some(lov[i].1);
        }
        i = i + 1;
    }
    assert(lov@.take(i as int) =~= lov@);
    r
}

/// Run the program from `PC_START` with registers zero and RAM `init_mem` until
/// the cycle executing `HALT_ADDR`. `word_overrides` replace program words;
/// `load_overrides` `(cycle, value)` replace the value an `lw` in that cycle
/// reads (the last entry for a cycle wins). Half-word accesses at odd byte
/// addresses are rejected: the run must reach `HALT_ADDR` without one.
pub fn run_program<F: Fn(u64) -> u64>(
    init_mem: &[u32; NRAM],
    word_overrides: &[(u64, u64)],
    load_overrides: &[(usize, u32)],
    fetch: F,
) -> (t: Trace)
    requires
        fetch_ok(fetch),
        exists|n: nat|
            n <= MAX_CYCLES && halts_at(
                program_of(fetch),
                word_overrides@,
                load_overrides@,
                init_mem@,
                n,
            ) && aligned_upto(program_of(fetch), word_overrides@, load_overrides@, init_mem@, n),
    ensures
        ({
            let run = run_n(
                program_of(fetch),
                word_overrides@,
                load_overrides@,
                init_mem@,
                t.cycles@.len(),
            );
            &&& halts_at(
                program_of(fetch),
                word_overrides@,
                load_overrides@,
                init_mem@,
                t.cycles@.len(),
            )
            &&& aligned_upto(
                program_of(fetch),
                word_overrides@,
                load_overrides@,
                init_mem@,
                t.cycles@.len(),
            )
            &&& t.cycles@.len() <= MAX_CYCLES
            &&& t.cycles@.map_values(|c: Cycle| c@) == run.0
            &&& t.final_regs@ == run.1.regs
            &&& t.final_ramver@ == run.1.ramver
            &&& t.final_mem@ == run.1.mem
        }),
{
    let ghost prog = program_of(fetch);
    let ghost ov = word_overrides@;
    let ghost lv = load_overrides@;
    let ghost im = init_mem@;
    let ghost n: nat = choose|n: nat|
        n <= MAX_CYCLES && halts_at(prog, ov, lv, im, n) && aligned_upto(prog, ov, lv, im, n);
    let mut m = Machine {
        regs: [0u32; NREG],
        rver: [0usize; NREG],
        mem: *init_mem,
        ramver: [0usize; NRAM],
        pc: PC_START,
    };
    proof {
        assert(m@ == initial_state(im)) by {
            assert(m@.regs =~= initial_state(im).regs);
            assert(m@.rver =~= initial_state(im).rver);
            assert(m@.ramver =~= initial_state(im).ramver);
        }
    }
    let mut cycles: Vec<Cycle> = Vec::new();
    let mut done = false;
    while !done
        invariant
            fetch_ok(fetch),
            prog == program_of(fetch),
            ov == word_overrides@,
            lv == load_overrides@,
            im == init_mem@,
            n <= MAX_CYCLES,
            halts_at(prog, ov, lv, im, n),
            aligned_upto(prog, ov, lv, im, n),
            cycles@.len() <= n,
            done ==> cycles@.len() == n,
            !done ==> cycles@.len() < n,
            !done ==> m@ == state_at(prog, ov, lv, im, cycles@.len()),
            !done ==> state_ok(m@, cycles@.len()),
            cycles@.map_values(|c: Cycle| c@) == run_n(prog, ov, lv, im, cycles@.len()).0,
            done ==> m@ == state_at(prog, ov, lv, im, cycles@.len()),
        decreases n - cycles@.len(),
    {
        let t = cycles.len();
        let pc = m.pc;
        let inst = match lookup_override(word_overrides, pc) {
            Some(w) => w,
            None => {
                let r = fetch(pc);
                proof {
                    let c = choose|r: u64| fetch.ensures((pc,), r);
                    assert(fetch.ensures((pc,), c));
                }
                r
            },
        };
        assert(inst == program_word(prog, ov, pc));
        let lov = lookup_load_override(load_overrides, t);
        let c = exec_step(&mut m, inst, lov, Ghost(t as nat));
        let ghost old_cycles = cycles@;
        cycles.push(c);
        proof {
            let f = |c: Cycle| c@;
            assert(cycles@.map_values(f) =~= old_cycles.map_values(f).push(c@));
            if pc != HALT_ADDR {
                assert(state_at(prog, ov, lv, im, (n - 1) as nat).pc == HALT_ADDR);
            } else {
                if t < n - 1 {
                    assert(state_at(prog, ov, lv, im, t as nat).pc != HALT_ADDR);
                }
            }
        }
        if pc == HALT_ADDR {
            done = true;
        }
    }
    Trace { cycles, final_regs: m.regs, final_ramver: m.ramver, final_mem: m.mem }
}

/// Run as `run_program` does, but stop after `MAX_CYCLES` cycles: `None`
/// when the program has not executed `HALT_ADDR` by then, or when it reaches
/// a half-word access at an odd address first.
pub fn try_run_program<F: Fn(u64) -> u64>(
    init_mem: &[u32; NRAM],
    word_overrides: &[(u64, u64)],
    load_overrides: &[(usize, u32)],
    fetch: F,
) -> (r: Option<Trace>)
    requires
        fetch_ok(fetch),
    ensures
        match r {
            Some(t) => {
                let run = run_n(
                    program_of(fetch),
                    word_overrides@,
                    load_overrides@,
                    init_mem@,
                    t.cycles@.len(),
                );
                &&& halts_at(
                    program_of(fetch),
                    word_overrides@,
                    load_overrides@,
                    init_mem@,
                    t.cycles@.len(),
                )
                &&& aligned_upto(
                    program_of(fetch),
                    word_overrides@,
                    load_overrides@,
                    init_mem@,
                    t.cycles@.len(),
                )
                &&& t.cycles@.len() <= MAX_CYCLES
                &&& t.cycles@.map_values(|c: Cycle| c@) == run.0
                &&& t.final_regs@ == run.1.regs
                &&& t.final_ramver@ == run.1.ramver
                &&& t.final_mem@ == run.1.mem
            },
            None => forall|n: nat|
                n <= MAX_CYCLES ==> !(halts_at(
                    program_of(fetch),
                    word_overrides@,
                    load_overrides@,
                    init_mem@,
                    n,
                ) && aligned_upto(program_of(fetch), word_overrides@, load_overrides@, init_mem@, n)),
        },
{
    let ghost prog = program_of(fetch);
    let ghost ov = word_overrides@;
    let ghost lv = load_overrides@;
    let ghost im = init_mem@;
    let mut m = Machine {
        regs: [0u32; NREG],
        rver: [0usize; NREG],
        mem: *init_mem,
        ramver: [0usize; NRAM],
        pc: PC_START,
    };
    proof {
        assert(m@ == initial_state(im)) by {
            assert(m@.regs =~= initial_state(im).regs);
            assert(m@.rver =~= initial_state(im).rver);
            assert(m@.ramver =~= initial_state(im).ramver);
        }
    }
    let mut cycles: Vec<Cycle> = Vec::new();
    while cycles.len() < MAX_CYCLES
        invariant
            fetch_ok(fetch),
            prog == program_of(fetch),
            ov == word_overrides@,
            lv == load_overrides@,
            im == init_mem@,
            cycles@.len() <= MAX_CYCLES,
            m@ == state_at(prog, ov, lv, im, cycles@.len()),
            state_ok(m@, cycles@.len()),
            cycles@.map_values(|c: Cycle| c@) == run_n(prog, ov, lv, im, cycles@.len()).0,
            forall|u: nat| u < cycles@.len() ==> #[trigger] state_at(prog, ov, lv, im, u).pc != HALT_ADDR,
            aligned_upto(prog, ov, lv, im, cycles@.len() as nat),
        decreases MAX_CYCLES - cycles@.len(),
    {
        let t = cycles.len();
        let pc = m.pc;
        let inst = match lookup_override(word_overrides, pc) {
            Some(w) => w,
            None => {
                let r = fetch(pc);
                proof {
                    let c = choose|r: u64| fetch.ensures((pc,), r);
                    assert(fetch.ensures((pc,), c));
                }
                r
            },
        };
        assert(inst == program_word(prog, ov, pc));
        if half_misaligned(&m, inst) {
            proof {
                assert forall|n: nat| n <= MAX_CYCLES implies !(halts_at(prog, ov, lv, im, n)
                    && aligned_upto(prog, ov, lv, im, n)) by {
                    if halts_at(prog, ov, lv, im, n) && n <= t {
                        assert(state_at(prog, ov, lv, im, (n - 1) as nat).pc != HALT_ADDR);
                    }
                    if n > t {
                        assert(state_at(prog, ov, lv, im, t as nat) == m@);
                    }
                }
            }
            return None;
        }
        let ghost m0 = m@;
        let lov = lookup_load_override(load_overrides, t);
        let c = exec_step(&mut m, inst, lov, Ghost(t as nat));
        let ghost old_cycles = cycles@;
        cycles.push(c);
        proof {
            let f = |c: Cycle| c@;
            assert(cycles@.map_values(f) =~= old_cycles.map_values(f).push(c@));
            assert forall|u: nat| u < cycles@.len() implies !misaligned_half(
                #[trigger] state_at(prog, ov, lv, im, u),
                program_word(prog, ov, state_at(prog, ov, lv, im, u).pc),
            ) by {
                if u == t {
                    assert(state_at(prog, ov, lv, im, u) == m0);
                }
            }
        }
        if pc == HALT_ADDR {
            proof {
                assert(halts_at(prog, ov, lv, im, (t + 1) as nat));
            }
            return Some(Trace { cycles, final_regs: m.regs, final_ramver: m.ramver, final_mem: m.mem });
        }
    }
    proof {
        assert forall|n: nat| n <= MAX_CYCLES implies !halts_at(prog, ov, lv, im, n) by {
            if n >= 1 {
                assert(state_at(prog, ov, lv, im, (n - 1) as nat).pc != HALT_ADDR);
            }
        }
    }
    None
}

} // verus!
