//! The minimal word VM: eight 64-bit registers with version counters, the
//! instructions `addi` (7-bit signed immediate), `add` and `beq` (7-bit
//! signed byte offset), and a fixed five-word loop program. Register x0 is an
//! ordinary register here. The run ends after the cycle that executes the
//! word at `HALT_ADDR`.

use vstd::prelude::*;
use crate::vm32::interp::lookup_first;
use crate::vm32::pipeline::{fetch_claim, claims_match};
use crate::slices::lookup_claims::{slots_fit, reg_claims_upto, claims_by_columns};
pub use crate::vm32::circuit::{
    io_inst, io_pc, io_rd1_reg, io_rd1_ver, io_rd1_val, io_rd2_reg, io_rd2_ver, io_rd2_val, io_wr_reg,
    io_wr_ver, io_wr_val, io_wr_iswrite,
};

verus! {

pub const NREG: usize = 8;
/// Version slots per register in the write log (the initial value and up to three writes).
pub const VER_MAX: usize = 4;
pub const PC_START: u64 = 0x00;
pub const HALT_ADDR: u64 = 0x14;
pub const OP_ADDI: u64 = 0x13;
pub const OP_ADD: u64 = 0x33;
pub const OP_BEQ: u64 = 0x63;
/// Address bits of the fetch table.
pub const M_FETCH: usize = 5;
/// The longest run `run_program` executes.
pub const MAX_CYCLES: usize = 64;

// ---------------------------------------------------------------------------
// Encoding
// ---------------------------------------------------------------------------

pub open spec fn addi7_word(rd: u64, rs1: u64, imm7: u64) -> u64 {
    OP_ADDI | (rd << 7) | (rs1 << 15) | ((imm7 & 0x7f) << 25)
}

pub open spec fn add7_word(rd: u64, rs1: u64, rs2: u64) -> u64 {
    OP_ADD | (rd << 7) | (rs1 << 15) | (rs2 << 20)
}

pub open spec fn beq7_word(rs1: u64, rs2: u64, off7: u64) -> u64 {
    OP_BEQ | (rs1 << 15) | (rs2 << 20) | ((off7 & 0x7f) << 25)
}

pub fn enc_addi(rd: u64, rs1: u64, imm7: u64) -> (r: u64)
    ensures
        r == addi7_word(rd, rs1, imm7),
{
    OP_ADDI | (rd << 7) | (rs1 << 15) | ((imm7 & 0x7f) << 25)
}

pub fn enc_add(rd: u64, rs1: u64, rs2: u64) -> (r: u64)
    ensures
        r == add7_word(rd, rs1, rs2),
{
    OP_ADD | (rd << 7) | (rs1 << 15) | (rs2 << 20)
}

pub fn enc_beq(rs1: u64, rs2: u64, off7: u64) -> (r: u64)
    ensures
        r == beq7_word(rs1, rs2, off7),
{
    OP_BEQ | (rs1 << 15) | (rs2 << 20) | ((off7 & 0x7f) << 25)
}

/// The 7-bit two's-complement value of `v` (bit 6 is the sign).
pub open spec fn sgn7_val(v: u64) -> i64 {
    if v & 0x40 != 0 {
        ((v as i64) - 128) as i64
    } else {
        v as i64
    }
}

pub fn sgn7(v: u64) -> (r: i64)
    requires
        v & 0x40 != 0 ==> (v as i64) >= i64::MIN + 128,
    ensures
        r == sgn7_val(v),
{
    if v & 0x40 != 0 {
        (v as i64) - 128
    } else {
        v as i64
    }
}

/// The loop program: word at each address (0 off the listing).
pub open spec fn program_word_at(addr: u64) -> u64 {
    if addr == 0x00 {
        addi7_word(1, 1, 1)
    } else if addr == 0x04 {
        add7_word(2, 2, 1)
    } else if addr == 0x08 {
        addi7_word(3, 3, 1)
    } else if addr == 0x0c {
        beq7_word(3, 4, 8)
    } else if addr == 0x10 {
        beq7_word(5, 5, 0x70)
    } else if addr == 0x14 {
        addi7_word(0, 0, 0)
    } else {
        0
    }
}

pub fn fetch_word(addr: u64) -> (w: u64)
    ensures
        w == program_word_at(addr),
{
    match addr {
        0x00 => enc_addi(1, 1, 1),
        0x04 => enc_add(2, 2, 1),
        0x08 => enc_addi(3, 3, 1),
        0x0c => enc_beq(3, 4, 8),
        0x10 => enc_beq(5, 5, 0x70),
        0x14 => enc_addi(0, 0, 0),
        _ => 0,
    }
}

/// Fields (opcode, rd, rs1, rs2, imm7) of an instruction word.
pub open spec fn fields_of(inst: u64) -> (u64, usize, usize, usize, u64) {
    (
        inst & 0x7f,
        ((inst >> 7) & 0x1f) as usize,
        ((inst >> 15) & 0x1f) as usize,
        ((inst >> 20) & 0x1f) as usize,
        (inst >> 25) & 0x7f,
    )
}

pub fn decode_fields(inst: u64) -> (r: (u64, usize, usize, usize, u64))
    ensures
        r == fields_of(inst),
        r.1 < 32 && r.2 < 32 && r.3 < 32 && r.4 < 128,
{
    proof {
        assert((inst >> 7) & 0x1f < 32 && (inst >> 15) & 0x1f < 32 && (inst >> 20) & 0x1f < 32
            && (inst >> 25) & 0x7f < 128) by (bit_vector);
    }
    (
        inst & 0x7f,
        ((inst >> 7) & 0x1f) as usize,
        ((inst >> 15) & 0x1f) as usize,
        ((inst >> 20) & 0x1f) as usize,
        (inst >> 25) & 0x7f,
    )
}

// ---------------------------------------------------------------------------
// Interpreter
// ---------------------------------------------------------------------------

#[derive(Clone, Copy, Debug)]
pub struct RegAccess {
    pub reg: usize,
    pub ver: usize,
    pub val: u64,
}

pub struct Cycle {
    pub pc: u64,
    pub inst: u64,
    pub reads: Vec<RegAccess>,
    pub write: Option<RegAccess>,
    /// Register versions before this cycle's write.
    pub ver: [usize; NREG],
}

pub struct CycleView {
    pub pc: u64,
    pub inst: u64,
    pub reads: Seq<RegAccess>,
    pub write: Option<RegAccess>,
    pub ver: Seq<usize>,
}

impl View for Cycle {
    type V = CycleView;

    open spec fn view(&self) -> CycleView {
        CycleView {
            pc: self.pc,
            inst: self.inst,
            reads: self.reads@,
            write: self.write,
            ver: self.ver@,
        }
    }
}

pub struct Trace {
    pub cycles: Vec<Cycle>,
    pub final_regs: [u64; NREG],
}

pub struct VmState {
    pub regs: Seq<u64>,
    pub ver: Seq<usize>,
    pub pc: u64,
}

/// Value an instruction writes to `rd`, if any.
pub open spec fn write_value(s: VmState, inst: u64) -> Option<u64> {
    let (op, rd, rs1, rs2, imm) = fields_of(inst);
    if op == OP_ADDI {
        Some(s.regs[rs1 as int].wrapping_add(sgn7_val(imm) as u64))
    } else if op == OP_ADD {
        Some(s.regs[rs1 as int].wrapping_add(s.regs[rs2 as int]))
    } else {
        None
    }
}

/// Program counter after a cycle (`regs` after write-back).
pub open spec fn next_pc(s: VmState, regs: Seq<u64>, inst: u64) -> u64 {
    let (op, rd, rs1, rs2, imm) = fields_of(inst);
    if op == OP_BEQ && regs[rs1 as int] == regs[rs2 as int] {
        ((s.pc as i64) + sgn7_val(imm)) as u64
    } else {
        s.pc.wrapping_add(4)
    }
}

/// One cycle: its record and the state after it. A write record carries
/// the register's new version.
pub open spec fn step(s: VmState, inst: u64) -> (CycleView, VmState) {
    let (op, rd, rs1, rs2, imm) = fields_of(inst);
    let reads = seq![
        RegAccess { reg: rs1, ver: s.ver[rs1 as int], val: s.regs[rs1 as int] },
        RegAccess { reg: rs2, ver: s.ver[rs2 as int], val: s.regs[rs2 as int] },
    ];
    let wv = write_value(s, inst);
    let regs = match wv {
        Some(v) => s.regs.update(rd as int, v),
        None => s.regs,
    };
    let ver = match wv {
        Some(v) => s.ver.update(rd as int, (s.ver[rd as int] + 1) as usize),
        None => s.ver,
    };
    let write = match wv {
        Some(v) => Some(RegAccess { reg: rd, ver: (s.ver[rd as int] + 1) as usize, val: v }),
        None => None,
    };
    (
        CycleView { pc: s.pc, inst, reads, write, ver: s.ver },
        VmState { regs, ver, pc: next_pc(s, regs, inst) },
    )
}

/// A cycle the interpreter can execute: register fields name one of the
/// eight registers, and a taken branch target fits in an `i64`.
pub open spec fn cycle_ok(s: VmState, inst: u64) -> bool {
    let (op, rd, rs1, rs2, imm) = fields_of(inst);
    &&& rs1 < NREG && rs2 < NREG
    &&& (op == OP_ADDI || op == OP_ADD) ==> rd < NREG
    &&& (op == OP_BEQ && s.regs[rs1 as int] == s.regs[rs2 as int]) ==> i64::MIN <= (s.pc as i64)
        + sgn7_val(imm) <= i64::MAX
}

/// Program word at `pc`: an override if one names `pc`, else the loop program.
pub open spec fn inst_at_pc(ov: Seq<(u64, u64)>, pc: u64) -> u64 {
    match lookup_first(ov, pc) {
        Some(w) => w,
        None => program_word_at(pc),
    }
}

/// The records and final state of the first `n` cycles.
pub open spec fn run_n(init: Seq<u64>, ov: Seq<(u64, u64)>, n: nat) -> (Seq<CycleView>, VmState)
    decreases n,
{
    if n == 0 {
        (seq![], VmState { regs: init, ver: Seq::new(NREG as nat, |i: int| 0usize), pc: PC_START })
    } else {
        let prev = run_n(init, ov, (n - 1) as nat);
        let r = step(prev.1, inst_at_pc(ov, prev.1.pc));
        (prev.0.push(r.0), r.1)
    }
}

pub open spec fn state_at(init: Seq<u64>, ov: Seq<(u64, u64)>, t: nat) -> VmState {
    run_n(init, ov, t).1
}

/// The run has exactly `n` cycles, each executable: cycle `n - 1` is the
/// first at `HALT_ADDR`.
pub open spec fn halts_at(init: Seq<u64>, ov: Seq<(u64, u64)>, n: nat) -> bool {
    &&& n >= 1
    &&& state_at(init, ov, (n - 1) as nat).pc == HALT_ADDR
    &&& forall|t: nat| t < n - 1 ==> #[trigger] state_at(init, ov, t).pc != HALT_ADDR
    &&& forall|t: nat|
        t < n ==> cycle_ok(#[trigger] state_at(init, ov, t), inst_at_pc(ov, state_at(init, ov, t).pc))
}

pub open spec fn state_fits(s: VmState, steps: nat) -> bool {
    &&& s.regs.len() == NREG
    &&& s.ver.len() == NREG
    &&& forall|i: int| 0 <= i < NREG ==> s.ver[i] <= steps
}

fn exec_step(
    regs: &mut [u64; NREG],
    ver: &mut [usize; NREG],
    pc: &mut u64,
    inst: u64,
    Ghost(steps): Ghost<nat>,
) -> (c: Cycle)
    requires
        state_fits(VmState { regs: old(regs)@, ver: old(ver)@, pc: *old(pc) }, steps),
        cycle_ok(VmState { regs: old(regs)@, ver: old(ver)@, pc: *old(pc) }, inst),
        steps < MAX_CYCLES,
    ensures
        ({
            let r = step(VmState { regs: old(regs)@, ver: old(ver)@, pc: *old(pc) }, inst);
            &&& c@ == r.0
            &&& final(regs)@ == r.1.regs
            &&& final(ver)@ == r.1.ver
            &&& *final(pc) == r.1.pc
            &&& state_fits(r.1, steps + 1)
        }),
{
    let ghost s = VmState { regs: regs@, ver: ver@, pc: *pc };
    let (opcode, rd, rs1, rs2, imm) = decode_fields(inst);
    let mut reads: Vec<RegAccess> = Vec::new();
    reads.push(RegAccess { reg: rs1, ver: ver[rs1], val: regs[rs1] });
    reads.push(RegAccess { reg: rs2, ver: ver[rs2], val: regs[rs2] });
    let cycle_ver = *ver;
    let write = if opcode == OP_ADDI {
        let v = regs[rs1].wrapping_add(sgn7(imm) as u64);
        ver[rd] = ver[rd] + 1;
        regs[rd] = v;
        Some(RegAccess { reg: rd, ver: ver[rd], val: v })
    } else if opcode == OP_ADD {
        let v = regs[rs1].wrapping_add(regs[rs2]);
        ver[rd] = ver[rd] + 1;
        regs[rd] = v;
        Some(RegAccess { reg: rd, ver: ver[rd], val: v })
    } else {
        None
    };
    let next = if opcode == OP_BEQ && regs[rs1] == regs[rs2] {
        (*pc as i64 + sgn7(imm)) as u64
    } else {
        pc.wrapping_add(4)
    };
    let c = Cycle { pc: *pc, inst, reads, write, ver: cycle_ver };
    *pc = next;
    proof {
        let r = step(s, inst);
        assert(c@.reads =~= r.0.reads);
        assert(regs@ =~= r.1.regs);
        assert(ver@ =~= r.1.ver);
    }
    c
}

/// Run the loop program from `PC_START` with registers `init` until the
/// cycle that executes `HALT_ADDR`; `overrides` replace program words (the
/// first entry for an address wins).
pub fn run_program(init: [u64; NREG], overrides: &[(u64, u64)]) -> (t: Trace)
    requires
        exists|n: nat| n <= MAX_CYCLES && halts_at(init@, overrides@, n),
    ensures
        ({
            let run = run_n(init@, overrides@, t.cycles@.len());
            &&& halts_at(init@, overrides@, t.cycles@.len())
            &&& t.cycles@.len() <= MAX_CYCLES
            &&& t.cycles@.map_values(|c: Cycle| c@) == run.0
            &&& t.final_regs@ == run.1.regs
        }),
{
    let ghost ov = overrides@;
    let ghost im = init@;
    let ghost n: nat = choose|n: nat| n <= MAX_CYCLES && halts_at(im, ov, n);
    let mut regs = init;
    let mut ver = [0usize; NREG];
    let mut pc = PC_START;
    proof {
        assert(ver@ =~= Seq::new(NREG as nat, |i: int| 0usize));
    }
    let mut cycles: Vec<Cycle> = Vec::new();
    let mut done = false;
    while !done
        invariant
            ov == overrides@,
            im == init@,
            n <= MAX_CYCLES,
            halts_at(im, ov, n),
            cycles@.len() <= n,
            done ==> cycles@.len() == n,
            !done ==> cycles@.len() < n,
            (VmState { regs: regs@, ver: ver@, pc }) == state_at(im, ov, cycles@.len()),
            !done ==> state_fits(VmState { regs: regs@, ver: ver@, pc }, cycles@.len()),
            cycles@.map_values(|c: Cycle| c@) == run_n(im, ov, cycles@.len()).0,
        decreases n - cycles@.len(),
    {
        let t = cycles.len();
        let cur = pc;
        let inst = match crate::vm32::interp::lookup_override(overrides, pc) {
            Some(w) => w,
            None => fetch_word(pc),
        };
        assert(cycle_ok(state_at(im, ov, t as nat), inst_at_pc(ov, state_at(im, ov, t as nat).pc)));
        let c = exec_step(&mut regs, &mut ver, &mut pc, inst, Ghost(t as nat));
        let ghost old_cycles = cycles@;
        cycles.push(c);
        proof {
            let f = |c: Cycle| c@;
            assert(cycles@.map_values(f) =~= old_cycles.map_values(f).push(c@));
            if cur != HALT_ADDR {
                assert(state_at(im, ov, (n - 1) as nat).pc == HALT_ADDR);
            } else if t < n - 1 {
                assert(state_at(im, ov, t as nat).pc != HALT_ADDR);
            }
        }
        if cur == HALT_ADDR {
            done = true;
        }
    }
    Trace { cycles, final_regs: regs }
}

/// Whether the interpreter can execute `inst` in state `(regs, pc)`.
fn cycle_executable(regs: &[u64; NREG], pc: u64, inst: u64) -> (ok: bool)
    ensures
        ok == cycle_ok(VmState { regs: regs@, ver: Seq::new(NREG as nat, |i: int| 0usize), pc }, inst),
{
    let (opcode, rd, rs1, rs2, imm) = decode_fields(inst);
    if rs1 >= NREG || rs2 >= NREG {
        return false;
    }
    if (opcode == OP_ADDI || opcode == OP_ADD) && rd >= NREG {
        return false;
    }
    if opcode == OP_BEQ && regs[rs1] == regs[rs2] {
        let off = sgn7(imm);
        return (pc as i64).checked_add(off).is_some();
    }
    true
}

/// Run as `run_program` does, but stop after `MAX_CYCLES` cycles or at a
/// cycle the interpreter cannot execute: `None` when the program does not
/// halt within `MAX_CYCLES` executable cycles.
pub fn try_run_program(init: [u64; NREG], overrides: &[(u64, u64)]) -> (r: Option<Trace>)
    ensures
        match r {
            Some(t) => {
                let run = run_n(init@, overrides@, t.cycles@.len());
                &&& halts_at(init@, overrides@, t.cycles@.len())
                &&& t.cycles@.len() <= MAX_CYCLES
                &&& t.cycles@.map_values(|c: Cycle| c@) == run.0
                &&& t.final_regs@ == run.1.regs
            },
            None => forall|n: nat| n <= MAX_CYCLES ==> !halts_at(init@, overrides@, n),
        },
{
    let ghost ov = overrides@;
    let ghost im = init@;
    let mut regs = init;
    let mut ver = [0usize; NREG];
    let mut pc = PC_START;
    proof {
        assert(ver@ =~= Seq::new(NREG as nat, |i: int| 0usize));
    }
    let mut cycles: Vec<Cycle> = Vec::new();
    while cycles.len() < MAX_CYCLES
        invariant
            ov == overrides@,
            im == init@,
            cycles@.len() <= MAX_CYCLES,
            (VmState { regs: regs@, ver: ver@, pc }) == state_at(im, ov, cycles@.len()),
            state_fits(VmState { regs: regs@, ver: ver@, pc }, cycles@.len()),
            cycles@.map_values(|c: Cycle| c@) == run_n(im, ov, cycles@.len()).0,
            forall|u: nat| u < cycles@.len() ==> #[trigger] state_at(im, ov, u).pc != HALT_ADDR,
            forall|u: nat|
                u < cycles@.len() ==> cycle_ok(#[trigger] state_at(im, ov, u), inst_at_pc(ov, state_at(im, ov, u).pc)),
        decreases MAX_CYCLES - cycles@.len(),
    {
        let t = cycles.len();
        let cur = pc;
        let inst = match crate::vm32::interp::lookup_override(overrides, pc) {
            Some(w) => w,
            None => fetch_word(pc),
        };
        assert(inst == inst_at_pc(ov, state_at(im, ov, t as nat).pc));
        if !cycle_executable(&regs, pc, inst) {
            proof {
                assert(!cycle_ok(state_at(im, ov, t as nat), inst));
                assert forall|n: nat| n <= MAX_CYCLES implies !halts_at(im, ov, n) by {
                    if n > t {
                        assert(!cycle_ok(state_at(im, ov, t as nat), inst_at_pc(ov, state_at(im, ov, t as nat).pc)));
                    } else if n >= 1 {
                        assert(state_at(im, ov, (n - 1) as nat).pc != HALT_ADDR);
                    }
                }
            }
            return None;
        }
        let c = exec_step(&mut regs, &mut ver, &mut pc, inst, Ghost(t as nat));
        let ghost old_cycles = cycles@;
        cycles.push(c);
        proof {
            let f = |c: Cycle| c@;
            assert(cycles@.map_values(f) =~= old_cycles.map_values(f).push(c@));
        }
        if cur == HALT_ADDR {
            proof {
                assert(halts_at(im, ov, (t + 1) as nat));
            }
            return Some(Trace { cycles, final_regs: regs });
        }
    }
    proof {
        assert forall|n: nat| n <= MAX_CYCLES implies !halts_at(im, ov, n) by {
            if n >= 1 {
                assert(state_at(im, ov, (n - 1) as nat).pc != HALT_ADDR);
            }
        }
    }
    None
}

// ---------------------------------------------------------------------------
// Lookup tables and claims
// ---------------------------------------------------------------------------

/// Inout slot of the final value of register `r`.
pub fn io_final(t_len: usize, r: usize) -> (i: usize)
    requires
        12 * t_len + NREG + r <= usize::MAX,
    ensures
        i == 12 * t_len + NREG + r,
{
    12 * t_len + NREG + r
}

/// The register write log after the writes of `cs`: slot `reg * VER_MAX + ver`.
pub open spec fn write_log(init: Seq<u64>, cs: Seq<CycleView>) -> Seq<u64>
    decreases cs.len(),
{
    if cs.len() == 0 {
        Seq::new((NREG * VER_MAX) as nat, |i: int| if i % 4 == 0 { init[i / 4] } else { 0u64 })
    } else {
        let prev = write_log(init, cs.drop_last());
        match cs.last().write {
            Some(w) => prev.update(w.reg * VER_MAX + w.ver, w.val),
            None => prev,
        }
    }
}

/// Every write of `cs` lands inside the write log.
pub open spec fn writes_fit(cs: Seq<CycleView>) -> bool {
    forall|k: int|
        0 <= k < cs.len() && (#[trigger] cs[k]).write is Some ==> cs[k].write->0.reg * VER_MAX
            + cs[k].write->0.ver < NREG * VER_MAX
}

/// Run-time form of `writes_fit`: every register write of the trace lands
/// inside the write log.
pub fn writes_fit_check(trace: &Trace) -> (r: bool)
    ensures
        r == writes_fit(trace.cycles@.map_values(|c: Cycle| c@)),
{
    let ghost cs = trace.cycles@.map_values(|c: Cycle| c@);
    let mut t: usize = 0;
    while t < trace.cycles.len()
        invariant
            t <= trace.cycles@.len(),
            cs == trace.cycles@.map_values(|c: Cycle| c@),
            forall|k: int|
                0 <= k < t && (#[trigger] cs[k]).write is Some ==> cs[k].write->0.reg * VER_MAX
                    + cs[k].write->0.ver < NREG * VER_MAX,
        decreases trace.cycles.len() - t,
    {
        let c = &trace.cycles[t];
        assert(cs[t as int] == c@);
        match &c.write {
            Some(w) => {
                if !crate::slices::lookup_claims::row_slot_below(w.reg, w.ver, NREG, VER_MAX) {
                    return false;
                }
            },
            None => {},
        }
        t = t + 1;
    }
    true
}

/// The register write log of a run: `init[r]` at version 0, then each write.
pub fn build_write_log(init: &[u64; NREG], trace: &Trace) -> (w: Vec<u64>)
    requires
        writes_fit(trace.cycles@.map_values(|c: Cycle| c@)),
    ensures
        w@ == write_log(init@, trace.cycles@.map_values(|c: Cycle| c@)),
{
    let ghost cs = trace.cycles@.map_values(|c: Cycle| c@);
    let mut w: Vec<u64> = Vec::new();
    let mut i: usize = 0;
    while i < NREG * VER_MAX
        invariant
            i <= NREG * VER_MAX,
            w@.len() == i,
            forall|j: int| 0 <= j < i ==> w@[j] == (if j % 4 == 0 { init@[j / 4] } else { 0u64 }),
        decreases NREG * VER_MAX - i,
    {
        if i % VER_MAX == 0 {
            w.push(init[i / VER_MAX]);
        } else {
            w.push(0);
        }
        i = i + 1;
    }
    assert(w@ =~= write_log(init@, cs.take(0)));
    let mut k: usize = 0;
    while k < trace.cycles.len()
        invariant
            k <= trace.cycles@.len(),
            cs == trace.cycles@.map_values(|c: Cycle| c@),
            writes_fit(cs),
            w@ == write_log(init@, cs.take(k as int)),
            w@.len() == NREG * VER_MAX,
        decreases trace.cycles.len() - k,
    {
        assert(cs.take(k + 1).drop_last() =~= cs.take(k as int));
        assert(cs[k as int] == trace.cycles@[k as int]@);
        match &trace.cycles[k].write {
            Some(wr) => {
                assert(cs[k as int].write == Some(*wr));
                assert(wr.reg * VER_MAX + wr.ver < NREG * VER_MAX);
                w.set(wr.reg * VER_MAX + wr.ver, wr.val);
            },
            None => {},
        }
        k = k + 1;
    }
    assert(cs.take(k as int) =~= cs);
    w
}

/// The fetch table: the program word at every address below `2^M_FETCH`.
pub fn build_fetch_prog() -> (p: Vec<u64>)
    ensures
        p@ == Seq::new(32, |i: int| program_word_at(i as u64)),
{
    let mut p: Vec<u64> = Vec::new();
    let mut i: u64 = 0;
    while i < 32
        invariant
            i <= 32,
            p@ == Seq::new(i as nat, |j: int| program_word_at(j as u64)),
        decreases 32 - i,
    {
        p.push(fetch_word(i));
        assert(p@ =~= Seq::new((i + 1) as nat, |j: int| program_word_at(j as u64)));
        i = i + 1;
    }
    p
}

/// 32-bit sum the circuit's adder computes for a cycle: `rs1 + sext(imm)`
/// for `addi`, else `rs1 + rs2`.
pub open spec fn alu_sum(c: CycleView) -> u64 {
    let op = c.inst & 0x7f;
    let a = c.reads[0].val;
    let b = c.reads[1].val;
    let imm = (c.inst >> 25) & 0x7f;
    let y = if op == OP_ADDI {
        sgn7_val(imm) as u64
    } else {
        b
    };
    ((a as u32).wrapping_add(y as u32)) as u64
}

pub fn cycle_sum(c: &Cycle) -> (r: u64)
    requires
        c.reads@.len() >= 2,
    ensures
        r == alu_sum(c@),
{
    let op = c.inst & 0x7f;
    let a = c.reads[0].val;
    let b = c.reads[1].val;
    let imm = (c.inst >> 25) & 0x7f;
    proof {
        let i = c.inst;
        assert((i >> 25) & 0x7f < 128) by (bit_vector);
    }
    let (x, y) = if op == OP_ADDI {
        (a, sgn7(imm) as u64)
    } else {
        (a, b)
    };
    (x as u32).wrapping_add(y as u32) as u64
}

/// The twelve inout words of one cycle, in column order: instruction, pc,
/// the rs1 and rs2 reads (register, version, value), then the write event:
/// the decoded rd field, its version and value (for a cycle without a write,
/// rd's current version and the ALU sum) and the write flag.
pub open spec fn cycle_witness(c: CycleView) -> Seq<u64> {
    let rd = ((c.inst >> 7) & 0x1f) as int;
    seq![
        c.inst,
        c.pc,
        c.reads[0].reg as u64,
        c.reads[0].ver as u64,
        c.reads[0].val,
        c.reads[1].reg as u64,
        c.reads[1].ver as u64,
        c.reads[1].val,
        rd as u64,
        match c.write {
            Some(w) => w.ver as u64,
            None => c.ver[rd] as u64,
        },
        match c.write {
            Some(w) => w.val,
            None => alu_sum(c),
        },
        if c.write is Some { 1u64 } else { 0u64 },
    ]
}

pub fn cycle_inout(c: &Cycle) -> (v: Vec<u64>)
    requires
        c.reads@.len() >= 2,
        c.write is None ==> (c.inst >> 7) & 0x1f < NREG,
    ensures
        v@ == cycle_witness(c@),
{
    proof {
        crate::vm32::interp::lemma_field_bounds(c.inst);
    }
    let rd = ((c.inst >> 7) & 0x1f) as usize;
    let (wv, wval, wflag) = match &c.write {
        Some(w) => (w.ver as u64, w.val, 1u64),
        None => (c.ver[rd] as u64, cycle_sum(c), 0u64),
    };
    let v = vec![
        c.inst,
        c.pc,
        c.reads[0].reg as u64,
        c.reads[0].ver as u64,
        c.reads[0].val,
        c.reads[1].reg as u64,
        c.reads[1].ver as u64,
        c.reads[1].val,
        rd as u64,
        wv,
        wval,
        wflag,
    ];
    proof {
        assert(v@ =~= cycle_witness(c@));
    }
    v
}

/// Rebuild the fetch claims and the register claims of every cycle from
/// the inout columns (write-log slots `reg * VER_MAX + ver`).
pub fn claims_from_inout(inout_words: &[u64], t_len: usize) -> (r: (
    Vec<Vec<usize>>,
    Vec<u64>,
    Vec<Vec<usize>>,
    Vec<u64>,
))
    requires
        12 * t_len <= inout_words@.len(),
        slots_fit(inout_words@, t_len as nat, VER_MAX as nat, false),
    ensures
        claims_match(
            r.0@,
            r.1@,
            Seq::new(t_len as nat, |t: int| fetch_claim(inout_words@, t_len as nat, t as nat)),
        ),
        claims_match(r.2@, r.3@, reg_claims_upto(inout_words@, t_len as nat, t_len as nat, VER_MAX as nat)),
{
    let (a, b, c, d, _, _) = claims_by_columns(inout_words, t_len, VER_MAX, false);
    (a, b, c, d)
}

/// The read of cycle `t` a stale-read tamper targets: register x2 read at a
/// version of at least 1 (the rs2 read when `is_second`, else the rs1 read).
pub open spec fn stale_target(io: Seq<u64>, tl: nat, t: nat, is_second: bool) -> bool {
    let base: nat = if is_second {
        5
    } else {
        2
    };
    &&& io[(base * tl + t) as int + tl] >= 1
    &&& io[(base * tl + t) as int] == 2
}

/// Replace the value of the first x2 read at version >= 1 by the stale
/// initial value 0; returns the tampered inout and the cycle.
pub fn tamper_read_val(inout_words: &[u64], t_len: usize, is_second: bool) -> (r: (Vec<u64>, usize))
    requires
        8 * t_len <= inout_words@.len(),
        exists|t: nat| t < t_len && stale_target(inout_words@, t_len as nat, t, is_second),
    ensures
        r.1 < t_len,
        stale_target(inout_words@, t_len as nat, r.1 as nat, is_second),
        forall|t: nat| t < r.1 ==> !stale_target(inout_words@, t_len as nat, t, is_second),
        r.0@ == inout_words@.update(
            (if is_second {
                7 * t_len + r.1
            } else {
                4 * t_len + r.1
            }) as int,
            0,
        ),
{
    let ghost io = inout_words@;
    let mut bad: Vec<u64> = Vec::new();
    let mut i: usize = 0;
    while i < inout_words.len()
        invariant
            i <= io.len(),
            io == inout_words@,
            bad@ == io.take(i as int),
        decreases inout_words.len() - i,
    {
        bad.push(inout_words[i]);
        assert(io.take(i + 1) =~= io.take(i as int).push(io[i as int]));
        i = i + 1;
    }
    assert(io.take(i as int) =~= io);
    let mut t: usize = 0;
    while t < t_len
        invariant
            t <= t_len,
            8 * t_len <= io.len(),
            io == inout_words@,
            bad@ == io,
            exists|u: nat| u < t_len && stale_target(io, t_len as nat, u, is_second),
            forall|u: nat| u < t ==> !stale_target(io, t_len as nat, u, is_second),
        decreases t_len - t,
    {
        let n = inout_words.len();
        assert(7 * t_len + t < 8 * t_len <= n);
        let (reg_idx, ver_idx, val_idx) = if is_second {
            (io_rd2_reg(t_len, t), io_rd2_ver(t_len, t), io_rd2_val(t_len, t))
        } else {
            (io_rd1_reg(t_len, t), io_rd1_ver(t_len, t), io_rd1_val(t_len, t))
        };
        let ver = bad[ver_idx];
        if ver >= 1 && bad[reg_idx] == 2 {
            bad.set(val_idx, 0);
            return (bad, t);
        }
        t = t + 1;
    }
    proof {
        let u = choose|u: nat| u < t_len && stale_target(io, t_len as nat, u, is_second);
        assert(!stale_target(io, t_len as nat, u, is_second));
    }
    (bad, t)
}

} // verus!
