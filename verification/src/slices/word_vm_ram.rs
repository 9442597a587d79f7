//! The minimal word VM with a 64-word RAM: eight registers and 64 RAM words,
//! each with a version counter, the instructions `addi`, `add`, `beq`, `lw`
//! and `sw` (7-bit signed immediates; the address `rs1 + imm` is a word index
//! modulo 64, computed in 32 bits), and a fixed accumulating loop program.
//! Register x0 is an ordinary register here. The run ends after the cycle
//! that executes the word at `HALT_ADDR`.

use vstd::prelude::*;
use crate::vm32::interp::{lookup_first, lookup_last, lookup_override, lookup_load_override};
use crate::vm32::pipeline::{fetch_claim, claims_match};
use crate::slices::lookup_claims::{slots_fit, reg_claims_upto, ram_claims_upto, claims_by_columns, row_slot_below};
pub use crate::slices::word_vm::{
    enc_addi, enc_add, enc_beq, sgn7, sgn7_val, decode_fields, fields_of, addi7_word, add7_word,
    beq7_word,
};
pub use crate::vm32::circuit::{
    io_inst, io_pc, io_rd1_reg, io_rd1_ver, io_rd1_val, io_rd2_reg, io_rd2_ver, io_rd2_val, io_wr_reg,
    io_wr_ver, io_wr_val, io_wr_iswrite, io_ld_addr, io_ld_ver, io_ld_val, io_is_load, io_st_addr,
    io_st_ver, io_st_val, io_is_store,
};

verus! {

pub const NREG: usize = 8;
/// RAM words.
pub const NRAM: usize = 64;
/// Version slots per register / RAM word in the write logs.
pub const VER_MAX: usize = 8;
pub const PC_START: u64 = 0x00;
pub const HALT_ADDR: u64 = 0x28;
pub const OP_ADDI: u64 = 0x13;
pub const OP_ADD: u64 = 0x33;
pub const OP_BEQ: u64 = 0x63;
pub const OP_LW: u64 = 0x03;
pub const OP_SW: u64 = 0x23;
pub const FUNCT3_LW: u64 = 0x02;
pub const FUNCT3_SW: u64 = 0x02;
/// Output word: `mem[OUT_ADDR]` holds the accumulated result.
pub const OUT_ADDR: usize = 10;
/// Address bits of the fetch table and the two write logs.
pub const M_FETCH: usize = 6;
pub const M_W_REG: usize = 6;
pub const M_W_RAM: usize = 9;
/// The longest run `run_program` executes.
pub const MAX_CYCLES: usize = 96;

pub open spec fn lw7_word(rd: u64, rs1: u64, imm7: u64) -> u64 {
    OP_LW | (rd << 7) | (FUNCT3_LW << 12) | (rs1 << 15) | ((imm7 & 0x7f) << 25)
}

pub open spec fn sw7_word(rs2: u64, rs1: u64, imm7: u64) -> u64 {
    OP_SW | (FUNCT3_SW << 12) | (rs1 << 15) | (rs2 << 20) | ((imm7 & 0x7f) << 25)
}

pub fn enc_lw(rd: u64, rs1: u64, imm7: u64) -> (r: u64)
    ensures
        r == lw7_word(rd, rs1, imm7),
{
    OP_LW | (rd << 7) | (FUNCT3_LW << 12) | (rs1 << 15) | ((imm7 & 0x7f) << 25)
}

pub fn enc_sw(rs2: u64, rs1: u64, imm7: u64) -> (r: u64)
    ensures
        r == sw7_word(rs2, rs1, imm7),
{
    OP_SW | (FUNCT3_SW << 12) | (rs1 << 15) | (rs2 << 20) | ((imm7 & 0x7f) << 25)
}

/// The accumulating loop program (0 off the listing).
pub open spec fn program_word_at(addr: u64) -> u64 {
    if addr == 0x00 {
        lw7_word(6, 7, 0)
    } else if addr == 0x04 {
        add7_word(1, 1, 6)
    } else if addr == 0x08 {
        addi7_word(6, 6, 1)
    } else if addr == 0x0c {
        sw7_word(6, 7, 0)
    } else if addr == 0x10 {
        lw7_word(2, 7, 1)
    } else if addr == 0x14 {
        add7_word(1, 1, 2)
    } else if addr == 0x18 {
        addi7_word(3, 3, 1)
    } else if addr == 0x1c {
        beq7_word(3, 4, 8)
    } else if addr == 0x20 {
        beq7_word(5, 5, 0x60)
    } else if addr == 0x24 {
        sw7_word(1, 7, 2)
    } else if addr == 0x28 {
        addi7_word(0, 0, 0)
    } else {
        0
    }
}

pub fn fetch_word(addr: u64) -> (w: u64)
    ensures
        w == program_word_at(addr),
{
    match addr {
        0x00 => enc_lw(6, 7, 0),
        0x04 => enc_add(1, 1, 6),
        0x08 => enc_addi(6, 6, 1),
        0x0c => enc_sw(6, 7, 0),
        0x10 => enc_lw(2, 7, 1),
        0x14 => enc_add(1, 1, 2),
        0x18 => enc_addi(3, 3, 1),
        0x1c => enc_beq(3, 4, 8),
        0x20 => enc_beq(5, 5, 0x60),
        0x24 => enc_sw(1, 7, 2),
        0x28 => enc_addi(0, 0, 0),
        _ => 0,
    }
}

// ---------------------------------------------------------------------------
// Interpreter
// ---------------------------------------------------------------------------

#[derive(Clone, Copy, Debug)]
pub struct RegAccess {
    pub reg: usize,
    pub ver: usize,
    pub val: u64,
}

#[derive(Clone, Copy, Debug)]
pub struct MemAccess {
    pub addr: usize,
    pub ver: usize,
    pub val: u64,
}

pub struct Cycle {
    pub pc: u64,
    pub inst: u64,
    pub reads: Vec<RegAccess>,
    pub write: Option<RegAccess>,
    pub regver: [usize; NREG],
    pub load: Option<MemAccess>,
    pub store: Option<MemAccess>,
    pub ramver: [usize; NRAM],
    pub mem_addr: usize,
}

pub struct CycleView {
    pub pc: u64,
    pub inst: u64,
    pub reads: Seq<RegAccess>,
    pub write: Option<RegAccess>,
    pub regver: Seq<usize>,
    pub load: Option<MemAccess>,
    pub store: Option<MemAccess>,
    pub ramver: Seq<usize>,
    pub mem_addr: usize,
}

impl View for Cycle {
    type V = CycleView;

    open spec fn view(&self) -> CycleView {
        CycleView {
            pc: self.pc,
            inst: self.inst,
            reads: self.reads@,
            write: self.write,
            regver: self.regver@,
            load: self.load,
            store: self.store,
            ramver: self.ramver@,
            mem_addr: self.mem_addr,
        }
    }
}

pub struct Trace {
    pub cycles: Vec<Cycle>,
    pub final_regs: [u64; NREG],
    pub final_ramver: [usize; NRAM],
}

pub struct VmState {
    pub regs: Seq<u64>,
    pub rver: Seq<usize>,
    pub mem: Seq<u64>,
    pub ramver: Seq<usize>,
    pub pc: u64,
}

pub open spec fn is_load(inst: u64) -> bool {
    fields_of(inst).0 == OP_LW && (inst >> 12) & 0x7 == FUNCT3_LW
}

pub open spec fn is_store(inst: u64) -> bool {
    fields_of(inst).0 == OP_SW && (inst >> 12) & 0x7 == FUNCT3_SW
}

/// RAM word addressed by `rs1 + imm` (32-bit sum, modulo 64).
pub open spec fn word_addr(s: VmState, inst: u64) -> usize {
    let (op, rd, rs1, rs2, imm) = fields_of(inst);
    (((s.regs[rs1 as int] as u32).wrapping_add(sgn7_val(imm) as u32) as u64) % 64) as usize
}

/// One cycle; `lov` replaces the value a load reads. Write records carry
/// the new version, a store record the word's new version.
pub open spec fn step(s: VmState, inst: u64, lov: Option<u64>) -> (CycleView, VmState) {
    let (op, rd, rs1, rs2, imm) = fields_of(inst);
    let x = s.regs[rs1 as int];
    let y = s.regs[rs2 as int];
    let a = word_addr(s, inst);
    let reads = seq![
        RegAccess { reg: rs1, ver: s.rver[rs1 as int], val: x },
        RegAccess { reg: rs2, ver: s.rver[rs2 as int], val: y },
    ];
    let load = if is_load(inst) {
        Some(
            MemAccess {
                addr: a,
                ver: s.ramver[a as int],
                val: match lov {
                    Some(o) => o,
                    None => s.mem[a as int],
                },
            },
        )
    } else {
        None
    };
    let store = if is_store(inst) {
        Some(MemAccess { addr: a, ver: (s.ramver[a as int] + 1) as usize, val: y })
    } else {
        None
    };
    let wv: Option<u64> = if is_load(inst) {
        Some(load.unwrap().val)
    } else if op == OP_ADDI || op == OP_ADD {
        let b = if op == OP_ADD {
            y
        } else {
            sgn7_val(imm) as u64
        };
        Some(((x as u32).wrapping_add(b as u32)) as u64)
    } else {
        None
    };
    let regs = match wv {
        Some(v) => s.regs.update(rd as int, v),
        None => s.regs,
    };
    let rver = match wv {
        Some(v) => s.rver.update(rd as int, (s.rver[rd as int] + 1) as usize),
        None => s.rver,
    };
    let write = match wv {
        Some(v) => Some(RegAccess { reg: rd, ver: (s.rver[rd as int] + 1) as usize, val: v }),
        None => None,
    };
    let mem = match store {
        Some(e) => s.mem.update(e.addr as int, e.val),
        None => s.mem,
    };
    let ramver = match store {
        Some(e) => s.ramver.update(e.addr as int, e.ver),
        None => s.ramver,
    };
    let npc = if op == OP_BEQ && regs[rs1 as int] == regs[rs2 as int] {
        ((s.pc as i64) + sgn7_val(imm)) as u64
    } else {
        s.pc.wrapping_add(4)
    };
    (
        CycleView {
            pc: s.pc,
            inst,
            reads,
            write,
            regver: s.rver,
            load,
            store,
            ramver: s.ramver,
            mem_addr: a,
        },
        VmState { regs, rver, mem, ramver, pc: npc },
    )
}

/// A cycle the interpreter can execute: register fields name one of the
/// eight registers, and a taken branch target fits in an `i64`.
pub open spec fn cycle_ok(s: VmState, inst: u64) -> bool {
    let (op, rd, rs1, rs2, imm) = fields_of(inst);
    &&& rs1 < NREG && rs2 < NREG
    &&& (is_load(inst) || op == OP_ADDI || op == OP_ADD) ==> rd < NREG
    &&& (op == OP_BEQ && step(s, inst, None).1.regs[rs1 as int] == step(s, inst, None).1.regs[rs2 as int])
        ==> i64::MIN <= (s.pc as i64) + sgn7_val(imm) <= i64::MAX
}

pub open spec fn inst_at_pc(ov: Seq<(u64, u64)>, pc: u64) -> u64 {
    match lookup_first(ov, pc) {
        Some(w) => w,
        None => program_word_at(pc),
    }
}

pub open spec fn run_n(
    init: Seq<u64>,
    init_mem: Seq<u64>,
    ov: Seq<(u64, u64)>,
    lov: Seq<(usize, u64)>,
    n: nat,
) -> (Seq<CycleView>, VmState)
    decreases n,
{
    if n == 0 {
        (
            seq![],
            VmState {
                regs: init,
                rver: Seq::new(NREG as nat, |i: int| 0usize),
                mem: init_mem,
                ramver: Seq::new(NRAM as nat, |i: int| 0usize),
                pc: PC_START,
            },
        )
    } else {
        let prev = run_n(init, init_mem, ov, lov, (n - 1) as nat);
        let r = step(prev.1, inst_at_pc(ov, prev.1.pc), lookup_last_u64(lov, (n - 1) as nat));
        (prev.0.push(r.0), r.1)
    }
}

/// Last value that `lov` gives for cycle `t`.
pub open spec fn lookup_last_u64(lov: Seq<(usize, u64)>, t: nat) -> Option<u64>
    decreases lov.len(),
{
    if lov.len() == 0 {
        None
    } else if lov.last().0 == t {
        Some(lov.last().1)
    } else {
        lookup_last_u64(lov.drop_last(), t)
    }
}

pub open spec fn state_at(
    init: Seq<u64>,
    init_mem: Seq<u64>,
    ov: Seq<(u64, u64)>,
    lov: Seq<(usize, u64)>,
    t: nat,
) -> VmState {
    run_n(init, init_mem, ov, lov, t).1
}

/// The run has exactly `n` cycles, each executable: cycle `n - 1` is the
/// first at `HALT_ADDR`.
pub open spec fn halts_at(
    init: Seq<u64>,
    init_mem: Seq<u64>,
    ov: Seq<(u64, u64)>,
    lov: Seq<(usize, u64)>,
    n: nat,
) -> bool {
    &&& n >= 1
    &&& state_at(init, init_mem, ov, lov, (n - 1) as nat).pc == HALT_ADDR
    &&& forall|t: nat| t < n - 1 ==> #[trigger] state_at(init, init_mem, ov, lov, t).pc != HALT_ADDR
    &&& forall|t: nat|
        t < n ==> cycle_ok(
            #[trigger] state_at(init, init_mem, ov, lov, t),
            inst_at_pc(ov, state_at(init, init_mem, ov, lov, t).pc),
        )
}

pub open spec fn state_fits(s: VmState, steps: nat) -> bool {
    &&& s.regs.len() == NREG
    &&& s.rver.len() == NREG
    &&& s.mem.len() == NRAM
    &&& s.ramver.len() == NRAM
    &&& forall|i: int| 0 <= i < NREG ==> s.rver[i] <= steps
    &&& forall|i: int| 0 <= i < NRAM ==> s.ramver[i] <= steps
}

struct Machine {
    regs: [u64; NREG],
    rver: [usize; NREG],
    mem: [u64; NRAM],
    ramver: [usize; NRAM],
    pc: u64,
}

impl View for Machine {
    type V = VmState;

    closed spec fn view(&self) -> VmState {
        VmState {
            regs: self.regs@,
            rver: self.rver@,
            mem: self.mem@,
            ramver: self.ramver@,
            pc: self.pc,
        }
    }
}

fn exec_step(m: &mut Machine, inst: u64, lov: Option<u64>, Ghost(steps): Ghost<nat>) -> (c: Cycle)
    requires
        state_fits(old(m)@, steps),
        cycle_ok(old(m)@, inst),
        steps < MAX_CYCLES,
    ensures
        (c@, final(m)@) == step(old(m)@, inst, lov),
        state_fits(final(m)@, steps + 1),
{
    let ghost s = m@;
    let (opcode, rd, rs1, rs2, imm) = decode_fields(inst);
    let funct3 = (inst >> 12) & 0x7;
    let is_load = opcode == OP_LW && funct3 == FUNCT3_LW;
    let is_store = opcode == OP_SW && funct3 == FUNCT3_SW;
    let mut reads: Vec<RegAccess> = Vec::new();
    reads.push(RegAccess { reg: rs1, ver: m.rver[rs1], val: m.regs[rs1] });
    reads.push(RegAccess { reg: rs2, ver: m.rver[rs2], val: m.regs[rs2] });
    let addr_calc = (m.regs[rs1] as u32).wrapping_add(sgn7(imm) as u32) as u64;
    let a = (addr_calc % 64) as usize;
    let cycle_rv = m.rver;
    let cycle_ramv = m.ramver;
    let load = if is_load {
        let v = m.ramver[a];
        let val = match lov {
            Some(o) => o,
            None => m.mem[a],
        };
        Some(MemAccess { addr: a, ver: v, val })
    } else {
        None
    };
    let store = if is_store {
        Some(MemAccess { addr: a, ver: m.ramver[a] + 1, val: m.regs[rs2] })
    } else {
        None
    };
    let is_alu = opcode == OP_ADDI || opcode == OP_ADD;
    let write = if is_load {
        let v = match load {
            Some(l) => l.val,
            None => 0,
        };
        m.rver[rd] = m.rver[rd] + 1;
        m.regs[rd] = v;
        Some(RegAccess { reg: rd, ver: m.rver[rd], val: v })
    } else if is_alu {
        let b = if opcode == OP_ADD {
            m.regs[rs2]
        } else {
            sgn7(imm) as u64
        };
        let v = (m.regs[rs1] as u32).wrapping_add(b as u32) as u64;
        m.rver[rd] = m.rver[rd] + 1;
        m.regs[rd] = v;
        Some(RegAccess { reg: rd, ver: m.rver[rd], val: v })
    } else {
        None
    };
    match store {
        Some(e) => {
            m.mem[e.addr] = e.val;
            m.ramver[e.addr] = e.ver;
        },
        None => {},
    }
    let pc = m.pc;
    let next = if opcode == OP_BEQ && m.regs[rs1] == m.regs[rs2] {
        (pc as i64 + sgn7(imm)) as u64
    } else {
        pc.wrapping_add(4)
    };
    m.pc = next;
    let c = Cycle {
        pc,
        inst,
        reads,
        write,
        regver: cycle_rv,
        load,
        store,
        ramver: cycle_ramv,
        mem_addr: a,
    };
    proof {
        let (cv, s2) = step(s, inst, lov);
        assert(c@.reads =~= cv.reads);
        assert(m@.regs =~= s2.regs);
        assert(m@.rver =~= s2.rver);
        assert(m@.mem =~= s2.mem);
        assert(m@.ramver =~= s2.ramver);
    }
    c
}

/// Exec lookup of the last load override for cycle `t`.
fn load_override_at(lov: &[(usize, u64)], t: usize) -> (r: Option<u64>)
    ensures
        r == lookup_last_u64(lov@, t as nat),
{
    let mut r: Option<u64> = None;
    let mut i: usize = 0;
    while i < lov.len()
        invariant
            i <= lov@.len(),
            r == lookup_last_u64(lov@.take(i as int), t as nat),
        decreases lov.len() - i,
    {
        assert(lov@.take(i + 1).drop_last() =~= lov@.take(i as int));
        assert(lov@.take(i + 1).last() == lov@[i as int]);
        if lov[i].0 == t {
            r = Some(lov[i].1);
        }
        i = i + 1;
    }
    assert(lov@.take(i as int) =~= lov@);
    r
}

/// Run the loop program from `PC_START` with registers `init` and RAM
/// `init_mem` until the cycle that executes `HALT_ADDR`. `word_overrides`
/// replace program words; `load_overrides` `(cycle, value)` replace the
/// value a load in that cycle reads (the last entry for a cycle wins).
pub fn run_program(
    init: [u64; NREG],
    init_mem: &[u64; NRAM],
    word_overrides: &[(u64, u64)],
    load_overrides: &[(usize, u64)],
) -> (t: Trace)
    requires
        exists|n: nat|
            n <= MAX_CYCLES && halts_at(
                init@,
                init_mem@,
                word_overrides@,
                load_overrides@,
                n,
            ),
    ensures
        ({
            let run = run_n(init@, init_mem@, word_overrides@, load_overrides@, t.cycles@.len());
            &&& halts_at(init@, init_mem@, word_overrides@, load_overrides@, t.cycles@.len())
            &&& t.cycles@.len() <= MAX_CYCLES
            &&& t.cycles@.map_values(|c: Cycle| c@) == run.0
            &&& t.final_regs@ == run.1.regs
            &&& t.final_ramver@ == run.1.ramver
        }),
{
    let ghost ov = word_overrides@;
    let ghost lv = load_overrides@;
    let ghost ir = init@;
    let ghost im = init_mem@;
    let ghost n: nat = choose|n: nat| n <= MAX_CYCLES && halts_at(ir, im, ov, lv, n);
    let mut m = Machine {
        regs: init,
        rver: [0usize; NREG],
        mem: *init_mem,
        ramver: [0usize; NRAM],
        pc: PC_START,
    };
    proof {
        assert(m@.rver =~= Seq::new(NREG as nat, |i: int| 0usize));
        assert(m@.ramver =~= Seq::new(NRAM as nat, |i: int| 0usize));
    }
    let mut cycles: Vec<Cycle> = Vec::new();
    let mut done = false;
    while !done
        invariant
            ov == word_overrides@,
            lv == load_overrides@,
            ir == init@,
            im == init_mem@,
            n <= MAX_CYCLES,
            halts_at(ir, im, ov, lv, n),
            cycles@.len() <= n,
            done ==> cycles@.len() == n,
            !done ==> cycles@.len() < n,
            m@ == state_at(ir, im, ov, lv, cycles@.len()),
            !done ==> state_fits(m@, cycles@.len()),
            cycles@.map_values(|c: Cycle| c@) == run_n(ir, im, ov, lv, cycles@.len()).0,
        decreases n - cycles@.len(),
    {
        let t = cycles.len();
        let pc = m.pc;
        let inst = match lookup_override(word_overrides, pc) {
            Some(w) => w,
            None => fetch_word(pc),
        };
        let lov = load_override_at(load_overrides, t);
        assert(cycle_ok(state_at(ir, im, ov, lv, t as nat), inst_at_pc(ov, state_at(ir, im, ov, lv, t as nat).pc)));
        let c = exec_step(&mut m, inst, lov, Ghost(t as nat));
        let ghost old_cycles = cycles@;
        cycles.push(c);
        proof {
            let f = |c: Cycle| c@;
            assert(cycles@.map_values(f) =~= old_cycles.map_values(f).push(c@));
            if pc != HALT_ADDR {
                assert(state_at(ir, im, ov, lv, (n - 1) as nat).pc == HALT_ADDR);
            } else if t < n - 1 {
                assert(state_at(ir, im, ov, lv, t as nat).pc != HALT_ADDR);
            }
        }
        if pc == HALT_ADDR {
            done = true;
        }
    }
    Trace { cycles, final_regs: m.regs, final_ramver: m.ramver }
}

/// Whether the interpreter can execute `inst` in the machine's state.
fn cycle_executable(m: &Machine, inst: u64) -> (ok: bool)
    ensures
        ok == cycle_ok(m@, inst),
{
    let (opcode, rd, rs1, rs2, imm) = decode_fields(inst);
    let funct3 = (inst >> 12) & 0x7;
    let is_load = opcode == OP_LW && funct3 == FUNCT3_LW;
    if rs1 >= NREG || rs2 >= NREG {
        return false;
    }
    if (is_load || opcode == OP_ADDI || opcode == OP_ADD) && rd >= NREG {
        return false;
    }
    if opcode == OP_BEQ && m.regs[rs1] == m.regs[rs2] {
        let off = sgn7(imm);
        return (m.pc as i64).checked_add(off).is_some();
    }
    true
}

/// Run as `run_program` does, but stop after `MAX_CYCLES` cycles or at a
/// cycle the interpreter cannot execute: `None` when the program does not
/// halt within `MAX_CYCLES` executable cycles.
pub fn try_run_program(
    init: [u64; NREG],
    init_mem: &[u64; NRAM],
    word_overrides: &[(u64, u64)],
    load_overrides: &[(usize, u64)],
) -> (r: Option<Trace>)
    ensures
        match r {
            Some(t) => {
                let run = run_n(init@, init_mem@, word_overrides@, load_overrides@, t.cycles@.len());
                &&& halts_at(init@, init_mem@, word_overrides@, load_overrides@, t.cycles@.len())
                &&& t.cycles@.len() <= MAX_CYCLES
                &&& t.cycles@.map_values(|c: Cycle| c@) == run.0
                &&& t.final_regs@ == run.1.regs
                &&& t.final_ramver@ == run.1.ramver
            },
            None => forall|n: nat|
                n <= MAX_CYCLES ==> !halts_at(init@, init_mem@, word_overrides@, load_overrides@, n),
        },
{
    let ghost ov = word_overrides@;
    let ghost lv = load_overrides@;
    let ghost ir = init@;
    let ghost im = init_mem@;
    let mut m = Machine {
        regs: init,
        rver: [0usize; NREG],
        mem: *init_mem,
        ramver: [0usize; NRAM],
        pc: PC_START,
    };
    proof {
        assert(m@.rver =~= Seq::new(NREG as nat, |i: int| 0usize));
        assert(m@.ramver =~= Seq::new(NRAM as nat, |i: int| 0usize));
    }
    let mut cycles: Vec<Cycle> = Vec::new();
    while cycles.len() < MAX_CYCLES
        invariant
            ov == word_overrides@,
            lv == load_overrides@,
            ir == init@,
            im == init_mem@,
            cycles@.len() <= MAX_CYCLES,
            m@ == state_at(ir, im, ov, lv, cycles@.len()),
            state_fits(m@, cycles@.len()),
            cycles@.map_values(|c: Cycle| c@) == run_n(ir, im, ov, lv, cycles@.len()).0,
            forall|u: nat| u < cycles@.len() ==> #[trigger] state_at(ir, im, ov, lv, u).pc != HALT_ADDR,
            forall|u: nat|
                u < cycles@.len() ==> cycle_ok(
                    #[trigger] state_at(ir, im, ov, lv, u),
                    inst_at_pc(ov, state_at(ir, im, ov, lv, u).pc),
                ),
        decreases MAX_CYCLES - cycles@.len(),
    {
        let t = cycles.len();
        let pc = m.pc;
        let inst = match lookup_override(word_overrides, pc) {
            Some(w) => w,
            None => fetch_word(pc),
        };
        assert(inst == inst_at_pc(ov, state_at(ir, im, ov, lv, t as nat).pc));
        if !cycle_executable(&m, inst) {
            proof {
                assert forall|n: nat| n <= MAX_CYCLES implies !halts_at(ir, im, ov, lv, n) by {
                    if n > t {
                        assert(!cycle_ok(
                            state_at(ir, im, ov, lv, t as nat),
                            inst_at_pc(ov, state_at(ir, im, ov, lv, t as nat).pc),
                        ));
                    } else if n >= 1 {
                        assert(state_at(ir, im, ov, lv, (n - 1) as nat).pc != HALT_ADDR);
                    }
                }
            }
            return None;
        }
        let lov = load_override_at(load_overrides, t);
        let c = exec_step(&mut m, inst, lov, Ghost(t as nat));
        let ghost old_cycles = cycles@;
        cycles.push(c);
        proof {
            let f = |c: Cycle| c@;
            assert(cycles@.map_values(f) =~= old_cycles.map_values(f).push(c@));
        }
        if pc == HALT_ADDR {
            proof {
                assert(halts_at(ir, im, ov, lv, (t + 1) as nat));
            }
            return Some(Trace { cycles, final_regs: m.regs, final_ramver: m.ramver });
        }
    }
    proof {
        assert forall|n: nat| n <= MAX_CYCLES implies !halts_at(ir, im, ov, lv, n) by {
            if n >= 1 {
                assert(state_at(ir, im, ov, lv, (n - 1) as nat).pc != HALT_ADDR);
            }
        }
    }
    None
}

// ---------------------------------------------------------------------------
// Lookup tables, claims and verifier checks
// ---------------------------------------------------------------------------

/// Inout slot of the final version of RAM word `a`.
pub fn io_fin_ver(t_len: usize, a: usize) -> (i: usize)
    requires
        20 * t_len + 2 * NREG + a <= usize::MAX,
    ensures
        i == 20 * t_len + 2 * NREG + a,
{
    20 * t_len + 2 * NREG + a
}

/// The fetch table: the program word at every address below `2^M_FETCH`.
pub fn build_fetch_prog() -> (p: Vec<u64>)
    ensures
        p@ == Seq::new(64, |i: int| program_word_at(i as u64)),
{
    let mut p: Vec<u64> = Vec::new();
    let mut i: u64 = 0;
    while i < 64
        invariant
            i <= 64,
            p@ == Seq::new(i as nat, |j: int| program_word_at(j as u64)),
        decreases 64 - i,
    {
        p.push(fetch_word(i));
        assert(p@ =~= Seq::new((i + 1) as nat, |j: int| program_word_at(j as u64)));
        i = i + 1;
    }
    p
}

/// A write log of `rows` rows: `init[r]` at slot `r * VER_MAX`, 0 elsewhere.
pub open spec fn log_base(init: Seq<u64>, rows: nat) -> Seq<u64> {
    Seq::new(rows * VER_MAX as nat, |i: int| if i % 8 == 0 { init[i / 8] } else { 0u64 })
}

/// The register write log after the writes of `cs`.
pub open spec fn reg_log(init: Seq<u64>, cs: Seq<CycleView>) -> Seq<u64>
    decreases cs.len(),
{
    if cs.len() == 0 {
        log_base(init, NREG as nat)
    } else {
        let prev = reg_log(init, cs.drop_last());
        match cs.last().write {
            Some(w) => prev.update(w.reg * VER_MAX + w.ver, w.val),
            None => prev,
        }
    }
}

/// The RAM write log after the stores of `cs`.
pub open spec fn ram_log(init_mem: Seq<u64>, cs: Seq<CycleView>) -> Seq<u64>
    decreases cs.len(),
{
    if cs.len() == 0 {
        log_base(init_mem, NRAM as nat)
    } else {
        let prev = ram_log(init_mem, cs.drop_last());
        match cs.last().store {
            Some(st) => prev.update(st.addr * VER_MAX + st.ver, st.val),
            None => prev,
        }
    }
}

/// Every register write and every store of `cs` lands inside its log.
pub open spec fn logs_fit(cs: Seq<CycleView>) -> bool {
    &&& forall|k: int|
        0 <= k < cs.len() && (#[trigger] cs[k]).write is Some ==> cs[k].write->0.reg * VER_MAX
            + cs[k].write->0.ver < NREG * VER_MAX
    &&& forall|k: int|
        0 <= k < cs.len() && (#[trigger] cs[k]).store is Some ==> cs[k].store->0.addr * VER_MAX
            + cs[k].store->0.ver < NRAM * VER_MAX
}

/// Run-time form of `logs_fit`: every register write and every store of the
/// trace lands inside its write log.
pub fn logs_fit_check(trace: &Trace) -> (r: bool)
    ensures
        r == logs_fit(trace.cycles@.map_values(|c: Cycle| c@)),
{
    let ghost cs = trace.cycles@.map_values(|c: Cycle| c@);
    let mut t: usize = 0;
    while t < trace.cycles.len()
        invariant
            t <= trace.cycles@.len(),
            cs == trace.cycles@.map_values(|c: Cycle| c@),
            forall|k: int|
                0 <= k < t && (#[trigger] cs[k]).write is Some ==> cs[k].write->0.reg * VER_MAX
                    + cs[k].write->0.ver < NREG * VER_MAX,
            forall|k: int|
                0 <= k < t && (#[trigger] cs[k]).store is Some ==> cs[k].store->0.addr * VER_MAX
                    + cs[k].store->0.ver < NRAM * VER_MAX,
        decreases trace.cycles.len() - t,
    {
        let c = &trace.cycles[t];
        assert(cs[t as int] == c@);
        match &c.write {
            Some(w) => {
                if !row_slot_below(w.reg, w.ver, NREG, VER_MAX) {
                    return false;
                }
            },
            None => {},
        }
        match &c.store {
            Some(st) => {
                if !row_slot_below(st.addr, st.ver, NRAM, VER_MAX) {
                    return false;
                }
            },
            None => {},
        }
        t = t + 1;
    }
    true
}

fn log_init(init: &[u64], rows: usize) -> (w: Vec<u64>)
    requires
        init@.len() == rows,
        rows <= NRAM,
    ensures
        w@ == log_base(init@, rows as nat),
{
    let mut w: Vec<u64> = Vec::new();
    let mut i: usize = 0;
    while i < rows * VER_MAX
        invariant
            i <= rows * VER_MAX,
            rows <= NRAM,
            init@.len() == rows,
            w@.len() == i,
            forall|j: int| 0 <= j < i ==> w@[j] == (if j % 8 == 0 { init@[j / 8] } else { 0u64 }),
        decreases rows * VER_MAX - i,
    {
        if i % VER_MAX == 0 {
            w.push(init[i / VER_MAX]);
        } else {
            w.push(0);
        }
        i = i + 1;
    }
    assert(w@ =~= log_base(init@, rows as nat));
    w
}

/// The register write log of a run: `init[r]` at version 0, then each write.
pub fn build_reg_wlog(init: &[u64; NREG], trace: &Trace) -> (w: Vec<u64>)
    requires
        logs_fit(trace.cycles@.map_values(|c: Cycle| c@)),
    ensures
        w@ == reg_log(init@, trace.cycles@.map_values(|c: Cycle| c@)),
{
    let ghost cs = trace.cycles@.map_values(|c: Cycle| c@);
    let mut w = log_init(init, NREG);
    assert(cs.take(0) =~= Seq::<CycleView>::empty());
    let mut k: usize = 0;
    while k < trace.cycles.len()
        invariant
            k <= trace.cycles@.len(),
            cs == trace.cycles@.map_values(|c: Cycle| c@),
            logs_fit(cs),
            w@ == reg_log(init@, cs.take(k as int)),
            w@.len() == NREG * VER_MAX,
        decreases trace.cycles.len() - k,
    {
        assert(cs.take(k + 1).drop_last() =~= cs.take(k as int));
        assert(cs[k as int] == trace.cycles@[k as int]@);
        match &trace.cycles[k].write {
            Some(wr) => {
                assert(cs[k as int].write == Some(*wr));
                assert(wr.reg * VER_MAX + wr.ver < NREG * VER_MAX);
                w.set(wr.reg * VER_MAX + wr.ver, wr.val);
            },
            None => {},
        }
        k = k + 1;
    }
    assert(cs.take(k as int) =~= cs);
    w
}

/// The RAM write log of a run: `init_mem[a]` at version 0, then each store.
pub fn build_ram_wlog(init_mem: &[u64; NRAM], trace: &Trace) -> (w: Vec<u64>)
    requires
        logs_fit(trace.cycles@.map_values(|c: Cycle| c@)),
    ensures
        w@ == ram_log(init_mem@, trace.cycles@.map_values(|c: Cycle| c@)),
{
    let ghost cs = trace.cycles@.map_values(|c: Cycle| c@);
    let mut w = log_init(init_mem, NRAM);
    assert(cs.take(0) =~= Seq::<CycleView>::empty());
    let mut k: usize = 0;
    while k < trace.cycles.len()
        invariant
            k <= trace.cycles@.len(),
            cs == trace.cycles@.map_values(|c: Cycle| c@),
            logs_fit(cs),
            w@ == ram_log(init_mem@, cs.take(k as int)),
            w@.len() == NRAM * VER_MAX,
        decreases trace.cycles.len() - k,
    {
        assert(cs.take(k + 1).drop_last() =~= cs.take(k as int));
        assert(cs[k as int] == trace.cycles@[k as int]@);
        match &trace.cycles[k].store {
            Some(st) => {
                assert(cs[k as int].store == Some(*st));
                assert(st.addr * VER_MAX + st.ver < NRAM * VER_MAX);
                w.set(st.addr * VER_MAX + st.ver, st.val);
            },
            None => {},
        }
        k = k + 1;
    }
    assert(cs.take(k as int) =~= cs);
    w
}

/// Rebuild the fetch, register and RAM claims of every cycle from the
/// inout columns (write-log slots `row * VER_MAX + ver`).
pub fn claims_from_inout(inout_words: &[u64], t_len: usize) -> (r: (
    Vec<Vec<usize>>,
    Vec<u64>,
    Vec<Vec<usize>>,
    Vec<u64>,
    Vec<Vec<usize>>,
    Vec<u64>,
))
    requires
        20 * t_len <= inout_words@.len(),
        slots_fit(inout_words@, t_len as nat, VER_MAX as nat, true),
    ensures
        claims_match(
            r.0@,
            r.1@,
            Seq::new(t_len as nat, |t: int| fetch_claim(inout_words@, t_len as nat, t as nat)),
        ),
        claims_match(r.2@, r.3@, reg_claims_upto(inout_words@, t_len as nat, t_len as nat, VER_MAX as nat)),
        claims_match(r.4@, r.5@, ram_claims_upto(inout_words@, t_len as nat, t_len as nat, VER_MAX as nat)),
{
    claims_by_columns(inout_words, t_len, VER_MAX, true)
}

/// The initial-memory rows of the RAM log hold `init_mem`.
pub open spec fn init_matches(w_ram: Seq<u64>, init_mem: Seq<u64>) -> bool {
    forall|a: int| 0 <= a < NRAM ==> w_ram[a * 8] == init_mem[a]
}

/// The scan stops at a mismatch before it reads past the end of `w_ram`.
pub open spec fn init_scan_in_bounds(w_ram: Seq<u64>, init_mem: Seq<u64>) -> bool {
    ||| (NRAM - 1) * 8 < w_ram.len()
    ||| exists|b: int| 0 <= b < NRAM && b * 8 < w_ram.len() && w_ram[b * 8] != #[trigger] init_mem[b]
}

/// Verifier check: the version-0 slot of every RAM word holds its initial value.
pub fn check_init(w_ram: &[u64], init_mem: &[u64; NRAM]) -> (ok: bool)
    requires
        init_scan_in_bounds(w_ram@, init_mem@),
    ensures
        ok == init_matches(w_ram@, init_mem@),
{
    let mut a: usize = 0;
    while a < NRAM
        invariant
            a <= NRAM,
            init_scan_in_bounds(w_ram@, init_mem@),
            forall|b: int| 0 <= b < a ==> w_ram@[b * 8] == init_mem@[b],
        decreases NRAM - a,
    {
        if a * VER_MAX >= w_ram.len() {
            proof {
                let b = choose|b: int|
                    0 <= b < NRAM && b * 8 < w_ram@.len() && w_ram@[b * 8] != #[trigger] init_mem@[b];
                assert(b < a);
                assert(w_ram@[b * 8] == init_mem@[b]);
            }
        }
        if w_ram[a * VER_MAX] != init_mem[a] {
            return false;
        }
        a = a + 1;
    }
    true
}

/// Verifier check: the final version of `out_addr` holds `expected`.
pub fn check_final_output(w_ram: &[u64], fin_ver: &[usize; NRAM], out_addr: usize, expected: u64) -> (ok: bool)
    requires
        out_addr < NRAM,
        out_addr * VER_MAX + fin_ver@[out_addr as int] < w_ram@.len(),
    ensures
        ok == (w_ram@[out_addr * 8 + fin_ver@[out_addr as int]] == expected),
{
    let n = w_ram.len();
    assert(out_addr * VER_MAX + fin_ver@[out_addr as int] < n);
    w_ram[out_addr * VER_MAX + fin_ver[out_addr]] == expected
}

/// 32-bit sum of a cycle's adder: `rs1 + sext(imm)` for `addi`, else `rs1 + rs2`.
pub open spec fn alu_sum(c: CycleView) -> u64 {
    let op = c.inst & 0x7f;
    let a = c.reads[0].val;
    let b = c.reads[1].val;
    let imm = (c.inst >> 25) & 0x7f;
    let y = if op == OP_ADDI {
        sgn7_val(imm) as u64
    } else {
        b
    };
    ((a as u32).wrapping_add(y as u32)) as u64
}

pub fn cycle_alu_sum(c: &Cycle) -> (r: u64)
    requires
        c.reads@.len() >= 2,
    ensures
        r == alu_sum(c@),
{
    let op = c.inst & 0x7f;
    let a = c.reads[0].val;
    let b = c.reads[1].val;
    let imm = (c.inst >> 25) & 0x7f;
    proof {
        let i = c.inst;
        assert((i >> 25) & 0x7f < 128) by (bit_vector);
    }
    let (x, y) = if op == OP_ADDI {
        (a, sgn7(imm) as u64)
    } else {
        (a, b)
    };
    (x as u32).wrapping_add(y as u32) as u64
}


/// The twenty inout words of one cycle, in column order: instruction, pc,
/// the rs1 and rs2 reads (register, version, value), the write event (rd
/// field, version, value, flag), the load event (word, version, value,
/// flag) and the store event (word, version, value, flag). A missing event
/// is filled the way the circuit pins it: rd's current version and the ALU
/// sum for the write, the addressed word's current version and the ALU sum
/// for the load, the next version and rs2 for the store.
pub open spec fn cycle_witness(c: CycleView) -> Seq<u64> {
    let rd = ((c.inst >> 7) & 0x1f) as int;
    let alu = alu_sum(c);
    seq![
        c.inst,
        c.pc,
        c.reads[0].reg as u64,
        c.reads[0].ver as u64,
        c.reads[0].val,
        c.reads[1].reg as u64,
        c.reads[1].ver as u64,
        c.reads[1].val,
        rd as u64,
        match c.write {
            Some(w) => w.ver as u64,
            None => c.regver[rd] as u64,
        },
        match c.write {
            Some(w) => w.val,
            None => alu,
        },
        if c.write is Some { 1u64 } else { 0u64 },
        match c.load {
            Some(l) => l.addr as u64,
            None => c.mem_addr as u64,
        },
        match c.load {
            Some(l) => l.ver as u64,
            None => c.ramver[c.mem_addr as int] as u64,
        },
        match c.load {
            Some(l) => l.val,
            None => alu,
        },
        if c.load is Some { 1u64 } else { 0u64 },
        match c.store {
            Some(st) => st.addr as u64,
            None => c.mem_addr as u64,
        },
        match c.store {
            Some(st) => st.ver as u64,
            None => (c.ramver[c.mem_addr as int] + 1) as u64,
        },
        match c.store {
            Some(st) => st.val,
            None => c.reads[1].val,
        },
        if c.store is Some { 1u64 } else { 0u64 },
    ]
}

pub fn cycle_inout(c: &Cycle) -> (v: Vec<u64>)
    requires
        c.reads@.len() >= 2,
        c.write is None ==> (c.inst >> 7) & 0x1f < NREG,
        (c.load is None || c.store is None) ==> c.mem_addr < NRAM,
        c.store is None ==> c.ramver[c.mem_addr as int] < usize::MAX,
    ensures
        v@ == cycle_witness(c@),
{
    proof {
        crate::vm32::interp::lemma_field_bounds(c.inst);
    }
    let rd = ((c.inst >> 7) & 0x1f) as usize;
    let alu = cycle_alu_sum(c);
    let (wv, wval, wflag) = match &c.write {
        Some(w) => (w.ver as u64, w.val, 1u64),
        None => (c.regver[rd] as u64, alu, 0u64),
    };
    let (la, lv, lval, lflag) = match c.load {
        Some(l) => (l.addr as u64, l.ver as u64, l.val, 1u64),
        None => (c.mem_addr as u64, c.ramver[c.mem_addr] as u64, alu, 0u64),
    };
    let (sa, sv, sval, sflag) = match c.store {
        Some(st) => (st.addr as u64, st.ver as u64, st.val, 1u64),
        None => (c.mem_addr as u64, (c.ramver[c.mem_addr] + 1) as u64, c.reads[1].val, 0u64),
    };
    let v = vec![
        c.inst,
        c.pc,
        c.reads[0].reg as u64,
        c.reads[0].ver as u64,
        c.reads[0].val,
        c.reads[1].reg as u64,
        c.reads[1].ver as u64,
        c.reads[1].val,
        rd as u64,
        wv,
        wval,
        wflag,
        la,
        lv,
        lval,
        lflag,
        sa,
        sv,
        sval,
        sflag,
    ];
    proof {
        assert(v@ =~= cycle_witness(c@));
    }
    v
}

} // verus!
