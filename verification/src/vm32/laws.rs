//! Properties of the reference interpreter and of the lookup tables built from
//! its runs: x0 stays zero, versions count writes, and on an honest run every
//! lookup claim rebuilt from the inout vector is satisfied by the tables.

use vstd::prelude::*;
use crate::vm32::isa::{NREG, NRAM, VER_MAX, HALT_ADDR};
use crate::vm32::interp::{
    MachineState, CycleView, RegAccess, MemAccess, step, run_n, state_at, state_ok, program_word,
    lookup_last, lookup_first, initial_state, rd_of, rs1_of, rs2_of, Trace, Cycle,
};
use crate::vm32::pipeline::{
    fetch_table, FETCH_ROWS,
    reg_wlog, ram_wlog, wlog_slot, inout_of, reg_claims, ram_claims, reg_claims_of, ram_claims_of,
    io_at, claim_slot, column_value, cycle_views,
};
use crate::vm32::circuit::io_slot;

verus! {

pub open spec fn word_at(
    prog: spec_fn(u64) -> u64,
    ov: Seq<(u64, u64)>,
    lov: Seq<(usize, u32)>,
    im: Seq<u32>,
    t: nat,
) -> u64 {
    program_word(prog, ov, state_at(prog, ov, lov, im, t).pc)
}

/// Cycle `t` of a run is one `step` from the state before it.
pub proof fn lemma_run_cycle(
    prog: spec_fn(u64) -> u64,
    ov: Seq<(u64, u64)>,
    lov: Seq<(usize, u32)>,
    im: Seq<u32>,
    n: nat,
    t: nat,
)
    requires
        t < n,
    ensures
        run_n(prog, ov, lov, im, n).0.len() == n,
        run_n(prog, ov, lov, im, n).0[t as int] == step(
            state_at(prog, ov, lov, im, t),
            word_at(prog, ov, lov, im, t),
            lookup_last(lov, t),
        ).0,
        state_at(prog, ov, lov, im, t + 1) == step(
            state_at(prog, ov, lov, im, t),
            word_at(prog, ov, lov, im, t),
            lookup_last(lov, t),
        ).1,
    decreases n,
{
    lemma_run_len(prog, ov, lov, im, n);
    if t + 1 < n {
        lemma_run_cycle(prog, ov, lov, im, (n - 1) as nat, t);
    }
}

/// A run of `n` cycles records `n` cycles.
pub proof fn lemma_run_len(
    prog: spec_fn(u64) -> u64,
    ov: Seq<(u64, u64)>,
    lov: Seq<(usize, u32)>,
    im: Seq<u32>,
    n: nat,
)
    ensures
        run_n(prog, ov, lov, im, n).0.len() == n,
    decreases n,
{
    if n > 0 {
        lemma_run_len(prog, ov, lov, im, (n - 1) as nat);
    }
}

/// One step keeps the state well-shaped, x0 at zero, and versions within the cycle count.
pub proof fn lemma_step_ok(s: MachineState, inst: u64, lov: Option<u32>, k: nat)
    requires
        state_ok(s, k),
    ensures
        state_ok(step(s, inst, lov).1, k + 1),
{
    crate::vm32::interp::lemma_field_bounds(inst);
    let s2 = step(s, inst, lov).1;
    assert forall|i: int| 0 <= i < NREG implies s2.rver[i] <= k + 1 by {}
    assert forall|i: int| 0 <= i < NRAM implies s2.ramver[i] <= k + 1 by {}
}

/// Law: every state of a run is well-shaped and register x0 reads zero in it.
pub proof fn lemma_states_ok(
    prog: spec_fn(u64) -> u64,
    ov: Seq<(u64, u64)>,
    lov: Seq<(usize, u32)>,
    im: Seq<u32>,
    k: nat,
)
    requires
        im.len() == NRAM,
    ensures
        state_ok(state_at(prog, ov, lov, im, k), k),
        state_at(prog, ov, lov, im, k).regs[0] == 0,
    decreases k,
{
    if k == 0 {
        assert(state_ok(initial_state(im), 0));
    } else {
        lemma_states_ok(prog, ov, lov, im, (k - 1) as nat);
        lemma_run_cycle(prog, ov, lov, im, k, (k - 1) as nat);
        lemma_step_ok(
            state_at(prog, ov, lov, im, (k - 1) as nat),
            word_at(prog, ov, lov, im, (k - 1) as nat),
            lookup_last(lov, (k - 1) as nat),
            (k - 1) as nat,
        );
    }
}


/// Facts about a cycle record `c` leading from state `s` to `s2` on instruction `inst`.
pub open spec fn cycle_effects(s: MachineState, inst: u64, lov: Option<u32>, c: CycleView, s2: MachineState) -> bool {
        &&& c.reads.len() == 2
        &&& c.reads[0] == RegAccess {
            reg: rs1_of(inst) as usize,
            ver: s.rver[rs1_of(inst) as int],
            val: s.regs[rs1_of(inst) as int],
        }
        &&& c.reads[1] == RegAccess {
            reg: rs2_of(inst) as usize,
            ver: s.rver[rs2_of(inst) as int],
            val: s.regs[rs2_of(inst) as int],
        }
        &&& rs1_of(inst) < NREG && rs2_of(inst) < NREG && rd_of(inst) < NREG
        &&& c.inst == inst
        &&& c.regver == s.rver
        &&& c.ramver == s.ramver
        &&& c.mem_addr < NRAM
        &&& match c.write {
            Some(w) => {
                &&& w.reg == rd_of(inst) as usize
                &&& w.ver == s.rver[w.reg as int] + 1
                &&& s2.rver[w.reg as int] == w.ver
                &&& s2.regs[w.reg as int] == w.val
                &&& forall|r: int|
                    0 <= r < NREG && r != w.reg ==> s2.rver[r] == s.rver[r] && s2.regs[r]
                        == s.regs[r]
            },
            None => s2.rver == s.rver && s2.regs == s.regs,
        }
        &&& match c.store {
            Some(e) => {
                &&& e.addr < NRAM
                &&& e.ver == s.ramver[e.addr as int] + 1
                &&& s2.ramver[e.addr as int] == e.ver
                &&& s2.mem[e.addr as int] == e.val
                &&& forall|a: int|
                    0 <= a < NRAM && a != e.addr ==> s2.ramver[a] == s.ramver[a] && s2.mem[a]
                        == s.mem[a]
            },
            None => s2.ramver == s.ramver && s2.mem == s.mem,
        }
        &&& match c.load {
            Some(l) => {
                &&& l.addr < NRAM
                &&& l.ver == s.ramver[l.addr as int]
                &&& lov is None ==> l.val == s.mem[l.addr as int]
            },
            None => true,
        }
}

/// What one step does to registers, versions and RAM.
pub proof fn lemma_step_effects(s: MachineState, inst: u64, lov: Option<u32>, k: nat)
    requires
        state_ok(s, k),
        k < usize::MAX,
    ensures
        cycle_effects(s, inst, lov, step(s, inst, lov).0, step(s, inst, lov).1),
{
    crate::vm32::interp::lemma_field_bounds(inst);
}

/// Cycle `t` of a run, abstracted to its effects.
pub proof fn lemma_cycle_facts(
    prog: spec_fn(u64) -> u64,
    ov: Seq<(u64, u64)>,
    lov: Seq<(usize, u32)>,
    im: Seq<u32>,
    n: nat,
    t: nat,
)
    requires
        im.len() == NRAM,
        t < n,
        n < usize::MAX,
    ensures
        cycle_effects(
            state_at(prog, ov, lov, im, t),
            word_at(prog, ov, lov, im, t),
            lookup_last(lov, t),
            run_n(prog, ov, lov, im, n).0[t as int],
            state_at(prog, ov, lov, im, t + 1),
        ),
        state_ok(state_at(prog, ov, lov, im, t), t),
{
    lemma_run_cycle(prog, ov, lov, im, n, t);
    lemma_states_ok(prog, ov, lov, im, t);
    lemma_step_effects(
        state_at(prog, ov, lov, im, t),
        word_at(prog, ov, lov, im, t),
        lookup_last(lov, t),
        t,
    );
}

/// Versions never decrease along a run.
pub proof fn lemma_versions_grow(
    prog: spec_fn(u64) -> u64,
    ov: Seq<(u64, u64)>,
    lov: Seq<(usize, u32)>,
    im: Seq<u32>,
    j: nat,
    k: nat,
)
    requires
        im.len() == NRAM,
        j <= k,
        k < usize::MAX,
    ensures
        forall|r: int|
            0 <= r < NREG ==> state_at(prog, ov, lov, im, j).rver[r] <= state_at(
                prog,
                ov,
                lov,
                im,
                k,
            ).rver[r],
        forall|a: int|
            0 <= a < NRAM ==> state_at(prog, ov, lov, im, j).ramver[a] <= state_at(
                prog,
                ov,
                lov,
                im,
                k,
            ).ramver[a],
    decreases k - j,
{
    if j < k {
        lemma_versions_grow(prog, ov, lov, im, j, (k - 1) as nat);
        lemma_run_cycle(prog, ov, lov, im, k, (k - 1) as nat);
        lemma_states_ok(prog, ov, lov, im, (k - 1) as nat);
        lemma_step_effects(
            state_at(prog, ov, lov, im, (k - 1) as nat),
            word_at(prog, ov, lov, im, (k - 1) as nat),
            lookup_last(lov, (k - 1) as nat),
            (k - 1) as nat,
        );
    }
}

pub open spec fn zero_regs() -> Seq<u32> {
    Seq::new(NREG as nat, |i: int| 0u32)
}

/// All versions of the state after `n` cycles stay below `VER_MAX`.
pub open spec fn versions_fit(s: MachineState) -> bool {
    &&& forall|r: int| 0 <= r < NREG ==> s.rver[r] < VER_MAX
    &&& forall|a: int| 0 <= a < NRAM ==> s.ramver[a] < VER_MAX
}

/// Before cycle `k`, each register's current version slot of the write log
/// holds its current value, and each RAM word's current version slot holds
/// its current contents.
pub open spec fn logs_current(
    cs: Seq<CycleView>,
    im: Seq<u32>,
    s: MachineState,
    k: nat,
) -> bool {
    &&& forall|r: int|
        0 <= r < NREG ==> reg_wlog(zero_regs(), cs, k)[wlog_slot(r as usize, s.rver[r])]
            == s.regs[r] as u64
    &&& forall|a: int|
        0 <= a < NRAM ==> ram_wlog(im, cs, k)[wlog_slot(a as usize, s.ramver[a])] == s.mem[a]
            as u64
}

proof fn lemma_slot_distinct(r1: usize, v1: usize, r2: usize, v2: usize)
    requires
        v1 < VER_MAX,
        v2 < VER_MAX,
        (r1, v1) != (r2, v2),
    ensures
        wlog_slot(r1, v1) != wlog_slot(r2, v2),
{
}

proof fn lemma_reg_wlog_len(cs: Seq<CycleView>, k: nat)
    ensures
        reg_wlog(zero_regs(), cs, k).len() == NREG * VER_MAX,
    decreases k,
{
    if k > 0 {
        lemma_reg_wlog_len(cs, (k - 1) as nat);
    } else {
        assert(reg_wlog(zero_regs(), cs, 0) == crate::vm32::pipeline::reg_wlog_base(zero_regs()));
    }
}

proof fn lemma_ram_wlog_len(im: Seq<u32>, cs: Seq<CycleView>, k: nat)
    ensures
        ram_wlog(im, cs, k).len() == NRAM * VER_MAX,
    decreases k,
{
    if k > 0 {
        lemma_ram_wlog_len(im, cs, (k - 1) as nat);
    } else {
        assert(ram_wlog(im, cs, 0) == crate::vm32::pipeline::ram_wlog_base(im));
    }
}

/// The logs track the current values at every cycle of a run whose versions fit.
proof fn lemma_logs_current(
    prog: spec_fn(u64) -> u64,
    ov: Seq<(u64, u64)>,
    im: Seq<u32>,
    n: nat,
    k: nat,
)
    requires
        im.len() == NRAM,
        k <= n,
        n < usize::MAX,
        versions_fit(state_at(prog, ov, seq![], im, n)),
    ensures
        logs_current(run_n(prog, ov, seq![], im, n).0, im, state_at(prog, ov, seq![], im, k), k),
    decreases k,
{
    let lov = seq![];
    let cs = run_n(prog, ov, lov, im, n).0;
    let fin = state_at(prog, ov, lov, im, n);
    lemma_reg_wlog_len(cs, k);
    lemma_ram_wlog_len(im, cs, k);
    if k == 0 {
        let s = state_at(prog, ov, lov, im, 0);
        assert forall|r: int| 0 <= r < NREG implies reg_wlog(zero_regs(), cs, 0)[wlog_slot(
            r as usize,
            s.rver[r],
        )] == s.regs[r] as u64 by {
            assert(wlog_slot(r as usize, 0) / VER_MAX as int == r);
        }
        assert forall|a: int| 0 <= a < NRAM implies ram_wlog(im, cs, 0)[wlog_slot(
            a as usize,
            s.ramver[a],
        )] == s.mem[a] as u64 by {
            assert(wlog_slot(a as usize, 0) / VER_MAX as int == a);
        }
    } else {
        let j = (k - 1) as nat;
        lemma_logs_current(prog, ov, im, n, j);
        lemma_run_cycle(prog, ov, lov, im, n, j);
        lemma_states_ok(prog, ov, lov, im, j);
        lemma_versions_grow(prog, ov, lov, im, k, n);
        let s = state_at(prog, ov, lov, im, j);
        let s2 = state_at(prog, ov, lov, im, k);
        let inst = word_at(prog, ov, lov, im, j);
        lemma_step_effects(s, inst, lookup_last(lov, j), j);
        let c = cs[j as int];
        assert(lookup_last(lov, j) is None);
        let wj = reg_wlog(zero_regs(), cs, j);
        let mj = ram_wlog(im, cs, j);
        lemma_reg_wlog_len(cs, j);
        lemma_ram_wlog_len(im, cs, j);
        assert(reg_wlog(zero_regs(), cs, k) == match c.write {
            Some(wr) => if wlog_slot(wr.reg, wr.ver) < NREG * VER_MAX {
                wj.update(wlog_slot(wr.reg, wr.ver), wr.val as u64)
            } else {
                wj
            },
            None => wj,
        });
        assert(ram_wlog(im, cs, k) == match c.store {
            Some(st) => if wlog_slot(st.addr, st.ver) < NRAM * VER_MAX {
                mj.update(wlog_slot(st.addr, st.ver), st.val as u64)
            } else {
                mj
            },
            None => mj,
        });
        assert forall|r: int| 0 <= r < NREG implies reg_wlog(zero_regs(), cs, k)[wlog_slot(
            r as usize,
            s2.rver[r],
        )] == s2.regs[r] as u64 by {
            assert(s2.rver[r] <= fin.rver[r] < VER_MAX);
            assert(s.rver[r] <= s2.rver[r]);
            assert(wj[wlog_slot(r as usize, s.rver[r])] == s.regs[r] as u64);
            match c.write {
                Some(w) => {
                    assert(s2.rver[w.reg as int] <= fin.rver[w.reg as int] < VER_MAX);
                    assert(wlog_slot(w.reg, w.ver) < NREG * VER_MAX);
                    if r != w.reg {
                        lemma_slot_distinct(r as usize, s2.rver[r], w.reg, w.ver);
                    }
                },
                None => {},
            }
        }
        assert forall|a: int| 0 <= a < NRAM implies ram_wlog(im, cs, k)[wlog_slot(
            a as usize,
            s2.ramver[a],
        )] == s2.mem[a] as u64 by {
            assert(s2.ramver[a] <= fin.ramver[a] < VER_MAX);
            assert(s.ramver[a] <= s2.ramver[a]);
            assert(mj[wlog_slot(a as usize, s.ramver[a])] == s.mem[a] as u64);
            match c.store {
                Some(e) => {
                    assert(s2.ramver[e.addr as int] <= fin.ramver[e.addr as int] < VER_MAX);
                    assert(wlog_slot(e.addr, e.ver) < NRAM * VER_MAX);
                    if a != e.addr {
                        lemma_slot_distinct(a as usize, s2.ramver[a], e.addr, e.ver);
                    }
                },
                None => {},
            }
        }
    }
}

/// Later cycles never overwrite a log slot whose version was already reached.
proof fn lemma_logs_stable(
    prog: spec_fn(u64) -> u64,
    ov: Seq<(u64, u64)>,
    im: Seq<u32>,
    n: nat,
    k: nat,
    j: nat,
)
    requires
        im.len() == NRAM,
        k <= j <= n,
        n < usize::MAX,
        versions_fit(state_at(prog, ov, seq![], im, n)),
    ensures
        forall|r: usize, v: usize|
            r < NREG && v <= state_at(prog, ov, seq![], im, k).rver[r as int] ==> reg_wlog(
                zero_regs(),
                run_n(prog, ov, seq![], im, n).0,
                j,
            )[#[trigger] wlog_slot(r, v)] == reg_wlog(
                zero_regs(),
                run_n(prog, ov, seq![], im, n).0,
                k,
            )[wlog_slot(r, v)],
        forall|a: usize, v: usize|
            a < NRAM && v <= state_at(prog, ov, seq![], im, k).ramver[a as int] ==> ram_wlog(
                im,
                run_n(prog, ov, seq![], im, n).0,
                j,
            )[#[trigger] wlog_slot(a, v)] == ram_wlog(
                im,
                run_n(prog, ov, seq![], im, n).0,
                k,
            )[wlog_slot(a, v)],
    decreases j - k,
{
    let lov = seq![];
    let cs = run_n(prog, ov, lov, im, n).0;
    if k < j {
        let i = (j - 1) as nat;
        lemma_logs_stable(prog, ov, im, n, k, i);
        lemma_run_cycle(prog, ov, lov, im, n, i);
        lemma_states_ok(prog, ov, lov, im, i);
        lemma_versions_grow(prog, ov, lov, im, k, i);
        lemma_versions_grow(prog, ov, lov, im, j, n);
        let s = state_at(prog, ov, lov, im, i);
        lemma_step_effects(s, word_at(prog, ov, lov, im, i), lookup_last(lov, i), i);
        let c = cs[i as int];
        let sk = state_at(prog, ov, lov, im, k);
        let fin = state_at(prog, ov, lov, im, n);
        let si2 = state_at(prog, ov, lov, im, j);
        let wi = reg_wlog(zero_regs(), cs, i);
        let mi = ram_wlog(im, cs, i);
        lemma_reg_wlog_len(cs, i);
        lemma_ram_wlog_len(im, cs, i);
        assert(lookup_last(lov, i) is None);
        assert(reg_wlog(zero_regs(), cs, j) == match c.write {
            Some(wr) => if wlog_slot(wr.reg, wr.ver) < NREG * VER_MAX {
                wi.update(wlog_slot(wr.reg, wr.ver), wr.val as u64)
            } else {
                wi
            },
            None => wi,
        });
        assert(ram_wlog(im, cs, j) == match c.store {
            Some(st) => if wlog_slot(st.addr, st.ver) < NRAM * VER_MAX {
                mi.update(wlog_slot(st.addr, st.ver), st.val as u64)
            } else {
                mi
            },
            None => mi,
        });
        assert forall|r: usize, v: usize|
            r < NREG && v <= sk.rver[r as int] implies reg_wlog(zero_regs(), cs, j)[wlog_slot(r, v)]
            == reg_wlog(zero_regs(), cs, k)[wlog_slot(r, v)] by {
            assert(sk.rver[r as int] <= s.rver[r as int]);
            assert(s.rver[r as int] <= fin.rver[r as int] < VER_MAX);
            match c.write {
                Some(w) => {
                    assert(si2.rver[w.reg as int] <= fin.rver[w.reg as int] < VER_MAX);
                    lemma_slot_distinct(r, v, w.reg, w.ver);
                },
                None => {},
            }
        }
        assert forall|a: usize, v: usize|
            a < NRAM && v <= sk.ramver[a as int] implies ram_wlog(im, cs, j)[wlog_slot(a, v)]
            == ram_wlog(im, cs, k)[wlog_slot(a, v)] by {
            assert(sk.ramver[a as int] <= s.ramver[a as int]);
            assert(s.ramver[a as int] <= fin.ramver[a as int] < VER_MAX);
            match c.store {
                Some(e) => {
                    assert(si2.ramver[e.addr as int] <= fin.ramver[e.addr as int] < VER_MAX);
                    lemma_slot_distinct(a, v, e.addr, e.ver);
                },
                None => {},
            }
        }
    }
}


/// The register write log after the writes of the first `k` cycles, in the
/// state before cycle `k`.
pub open spec fn reg_log_ok(
    init: Seq<u32>,
    cs: Seq<CycleView>,
    s: MachineState,
    k: nat,
) -> bool {
    let w = reg_wlog(init, cs, k);
    &&& w.len() == NREG * VER_MAX
    &&& forall|r: usize| r < NREG ==> #[trigger] w[wlog_slot(r, 0)] == init[r as int] as u64
    &&& forall|t: int|
        0 <= t < k ==> match (#[trigger] cs[t]).write {
            Some(wr) => w[wlog_slot(wr.reg, wr.ver)] == wr.val as u64,
            None => true,
        }
    &&& forall|r: usize, v: usize|
        r < NREG && s.rver[r as int] < v < VER_MAX ==> #[trigger] w[wlog_slot(r, v)] == 0
}

proof fn lemma_reg_log_upto(
    prog: spec_fn(u64) -> u64,
    ov: Seq<(u64, u64)>,
    lov: Seq<(usize, u32)>,
    im: Seq<u32>,
    init: Seq<u32>,
    n: nat,
    k: nat,
)
    requires
        im.len() == NRAM,
        init.len() == NREG,
        k <= n,
        n < usize::MAX,
        forall|r: int| 0 <= r < NREG ==> state_at(prog, ov, lov, im, n).rver[r] < VER_MAX,
    ensures
        reg_log_ok(init, run_n(prog, ov, lov, im, n).0, state_at(prog, ov, lov, im, k), k),
    decreases k,
{
    let cs = run_n(prog, ov, lov, im, n).0;
    if k == 0 {
        let w = reg_wlog(init, cs, 0);
        assert(w == crate::vm32::pipeline::reg_wlog_base(init));
        let s = state_at(prog, ov, lov, im, 0);
        assert forall|r: usize| r < NREG implies #[trigger] w[wlog_slot(r, 0)] == init[r as int] as u64 by {
            assert(wlog_slot(r, 0) / VER_MAX as int == r);
        }
        assert forall|r: usize, v: usize| r < NREG && s.rver[r as int] < v < VER_MAX implies #[trigger] w[wlog_slot(
            r,
            v,
        )] == 0 by {
            assert(wlog_slot(r, v) % VER_MAX as int == v);
        }
    } else {
        let j = (k - 1) as nat;
        lemma_reg_log_upto(prog, ov, lov, im, init, n, j);
        lemma_cycle_facts(prog, ov, lov, im, n, j);
        lemma_run_len(prog, ov, lov, im, n);
        lemma_versions_grow(prog, ov, lov, im, k, n);
        let s = state_at(prog, ov, lov, im, j);
        let s2 = state_at(prog, ov, lov, im, k);
        let fin = state_at(prog, ov, lov, im, n);
        let c = cs[j as int];
        let wj = reg_wlog(init, cs, j);
        let w = reg_wlog(init, cs, k);
        assert(w == match c.write {
            Some(wr) => if wlog_slot(wr.reg, wr.ver) < NREG * VER_MAX {
                wj.update(wlog_slot(wr.reg, wr.ver), wr.val as u64)
            } else {
                wj
            },
            None => wj,
        });
        match c.write {
            Some(wr) => {
                assert(s2.rver[wr.reg as int] <= fin.rver[wr.reg as int] < VER_MAX);
                assert(wlog_slot(wr.reg, wr.ver) < NREG * VER_MAX);
                assert forall|r: usize| r < NREG implies #[trigger] w[wlog_slot(r, 0)] == init[r as int]
                    as u64 by {
                    lemma_slot_distinct(r, 0, wr.reg, wr.ver);
                }
                assert forall|t: int| 0 <= t < k implies match (#[trigger] cs[t]).write {
                    Some(w2) => w[wlog_slot(w2.reg, w2.ver)] == w2.val as u64,
                    None => true,
                } by {
                    if t < j {
                        match cs[t].write {
                            Some(w2) => {
                                lemma_cycle_facts(prog, ov, lov, im, n, t as nat);
                                lemma_versions_grow(prog, ov, lov, im, (t + 1) as nat, j);
                                let st2 = state_at(prog, ov, lov, im, (t + 1) as nat);
                                assert(w2.ver == st2.rver[w2.reg as int]);
                                assert(st2.rver[w2.reg as int] <= s.rver[w2.reg as int]);
                                lemma_slot_distinct(w2.reg, w2.ver, wr.reg, wr.ver);
                            },
                            None => {},
                        }
                    }
                }
                assert forall|r: usize, v: usize| r < NREG && s2.rver[r as int] < v < VER_MAX implies #[trigger] w[wlog_slot(
                    r,
                    v,
                )] == 0 by {
                    lemma_slot_distinct(r, v, wr.reg, wr.ver);
                }
            },
            None => {
                assert forall|t: int| 0 <= t < k implies match (#[trigger] cs[t]).write {
                    Some(w2) => w[wlog_slot(w2.reg, w2.ver)] == w2.val as u64,
                    None => true,
                } by {
                    if t < j {
                    }
                }
            },
        }
    }
}

/// Law (register write log): for any initial registers `init`, program
/// overrides and load overrides, on a run whose register versions stay below
/// `VER_MAX`: version 0 of each register holds `init[r]`, every write of the
/// run holds its value at its `(register, version)` slot (no later write
/// lands on it), and every slot above a register's final version is 0. A
/// write to x0 logs 0, so x0's row holds only zeros when `init[0]` is 0.
pub proof fn lemma_reg_wlog_slots(
    prog: spec_fn(u64) -> u64,
    ov: Seq<(u64, u64)>,
    lov: Seq<(usize, u32)>,
    im: Seq<u32>,
    init: Seq<u32>,
    n: nat,
)
    requires
        im.len() == NRAM,
        init.len() == NREG,
        n < usize::MAX,
        forall|r: int| 0 <= r < NREG ==> state_at(prog, ov, lov, im, n).rver[r] < VER_MAX,
    ensures
        reg_log_ok(init, run_n(prog, ov, lov, im, n).0, state_at(prog, ov, lov, im, n), n),
        forall|t: int|
            0 <= t < n ==> match (#[trigger] run_n(prog, ov, lov, im, n).0[t]).write {
                Some(wr) => wr.reg == 0 ==> wr.val == 0,
                None => true,
            },
{
    lemma_reg_log_upto(prog, ov, lov, im, init, n, n);
    let cs = run_n(prog, ov, lov, im, n).0;
    assert forall|t: int| 0 <= t < n implies match (#[trigger] cs[t]).write {
        Some(wr) => wr.reg == 0 ==> wr.val == 0,
        None => true,
    } by {
        lemma_cycle_facts(prog, ov, lov, im, n, t as nat);
        lemma_states_ok(prog, ov, lov, im, (t + 1) as nat);
    }
}

/// Law (the register write log of a traced run): for a trace that
/// `run_program` returned (its cycles are the run's first `n` cycles) and any
/// initial registers `init`, when the run's register versions stay below
/// `VER_MAX`, the log `build_reg_wlog(init, trace)` returns,
/// `reg_wlog(init, cycle_views(trace.cycles), n)`, has `NREG * VER_MAX`
/// slots, holds `init[r]` at version 0 of each register, holds every write
/// of the trace at its `(register, version)` slot, is 0 above each
/// register's final version, and logs 0 for every write to x0.
pub proof fn lemma_reg_wlog_of_trace(
    prog: spec_fn(u64) -> u64,
    ov: Seq<(u64, u64)>,
    lov: Seq<(usize, u32)>,
    im: Seq<u32>,
    init: Seq<u32>,
    trace: Trace,
)
    requires
        im.len() == NRAM,
        init.len() == NREG,
        trace.cycles@.len() < usize::MAX,
        trace.cycles@.map_values(|c: Cycle| c@) == run_n(prog, ov, lov, im, trace.cycles@.len()).0,
        forall|r: int|
            0 <= r < NREG ==> state_at(prog, ov, lov, im, trace.cycles@.len()).rver[r] < VER_MAX,
    ensures
        reg_log_ok(
            init,
            cycle_views(trace.cycles@),
            state_at(prog, ov, lov, im, trace.cycles@.len()),
            trace.cycles@.len(),
        ),
        forall|t: int|
            0 <= t < trace.cycles@.len() ==> match (#[trigger] cycle_views(trace.cycles@)[t]).write {
                Some(wr) => wr.reg == 0 ==> wr.val == 0,
                None => true,
            },
{
    assert(cycle_views(trace.cycles@) == trace.cycles@.map_values(|c: Cycle| c@));
    lemma_reg_wlog_slots(prog, ov, lov, im, init, trace.cycles@.len());
}

/// Every claim of `cl` names a slot of `log` holding the claimed value.
pub open spec fn satisfied(log: Seq<u64>, cl: Seq<(usize, u64)>) -> bool {
    forall|i: int| 0 <= i < cl.len() ==> (#[trigger] cl[i]).0 < log.len() && log[cl[i].0 as int] == cl[i].1
}

proof fn lemma_satisfied_concat(log: Seq<u64>, a: Seq<(usize, u64)>, b: Seq<(usize, u64)>)
    requires
        satisfied(log, a),
        satisfied(log, b),
    ensures
        satisfied(log, a + b),
{
    assert forall|i: int| 0 <= i < (a + b).len() implies (#[trigger] (a + b)[i]).0 < log.len()
        && log[(a + b)[i].0 as int] == (a + b)[i].1 by {
        if i < a.len() {
            assert((a + b)[i] == a[i]);
        } else {
            assert((a + b)[i] == b[i - a.len()]);
        }
    }
}

proof fn lemma_io_column(init: Seq<u32>, cs: Seq<CycleView>, fr: Seq<u32>, fv: Seq<usize>, k: nat, t: nat)
    requires
        k < 20,
        t < cs.len(),
    ensures
        io_at(inout_of(init, cs, fr, fv), k, cs.len(), t) == column_value(cs[t as int], k as int),
{
    let n = cs.len();
    let i = k * n + t;
    assert(i < 20 * n && i % n == t && i / n == k) by (nonlinear_arith)
        requires
            k < 20,
            t < n,
            i == k * n + t,
    ;
}

/// The register claims of one cycle of an honest run hold in the final register log.
#[verifier::rlimit(40)]
proof fn lemma_cycle_reg_claims(prog: spec_fn(u64) -> u64, ov: Seq<(u64, u64)>, im: Seq<u32>, n: nat, t: nat)
    requires
        im.len() == NRAM,
        t < n,
        n < usize::MAX,
        versions_fit(state_at(prog, ov, seq![], im, n)),
    ensures
        ({
            let cs = run_n(prog, ov, seq![], im, n).0;
            let fin = state_at(prog, ov, seq![], im, n);
            let io = inout_of(zero_regs(), cs, fin.regs, fin.ramver);
            satisfied(reg_wlog(zero_regs(), cs, n), reg_claims_of(io, n, t))
        }),
{
    let lov: Seq<(usize, u32)> = seq![];
    let cs = run_n(prog, ov, lov, im, n).0;
    lemma_run_len(prog, ov, lov, im, n);
    let fin = state_at(prog, ov, lov, im, n);
    let io = inout_of(zero_regs(), cs, fin.regs, fin.ramver);
    let s = state_at(prog, ov, lov, im, t);
    let s2 = state_at(prog, ov, lov, im, t + 1);
    let inst = word_at(prog, ov, lov, im, t);
    lemma_cycle_facts(prog, ov, lov, im, n, t);
    lemma_versions_grow(prog, ov, lov, im, t, n);
    lemma_versions_grow(prog, ov, lov, im, t + 1, n);
    lemma_logs_current(prog, ov, im, n, t);
    lemma_logs_current(prog, ov, im, n, t + 1);
    lemma_logs_stable(prog, ov, im, n, t, n);
    lemma_logs_stable(prog, ov, im, n, t + 1, n);
    lemma_reg_wlog_len(cs, n);
    let c = cs[t as int];
    let rl = reg_wlog(zero_regs(), cs, n);
    lemma_io_column(zero_regs(), cs, fin.regs, fin.ramver, 2, t);
    lemma_io_column(zero_regs(), cs, fin.regs, fin.ramver, 3, t);
    lemma_io_column(zero_regs(), cs, fin.regs, fin.ramver, 4, t);
    lemma_io_column(zero_regs(), cs, fin.regs, fin.ramver, 5, t);
    lemma_io_column(zero_regs(), cs, fin.regs, fin.ramver, 6, t);
    lemma_io_column(zero_regs(), cs, fin.regs, fin.ramver, 7, t);
    lemma_io_column(zero_regs(), cs, fin.regs, fin.ramver, 8, t);
    lemma_io_column(zero_regs(), cs, fin.regs, fin.ramver, 9, t);
    lemma_io_column(zero_regs(), cs, fin.regs, fin.ramver, 10, t);
    lemma_io_column(zero_regs(), cs, fin.regs, fin.ramver, 11, t);
    let rs1 = rs1_of(inst) as usize;
    let rs2 = rs2_of(inst) as usize;
    assert(s.rver[rs1 as int] <= fin.rver[rs1 as int] < VER_MAX);
    assert(s.rver[rs2 as int] <= fin.rver[rs2 as int] < VER_MAX);
    assert(rl[wlog_slot(rs1, s.rver[rs1 as int])] == s.regs[rs1 as int] as u64);
    assert(rl[wlog_slot(rs2, s.rver[rs2 as int])] == s.regs[rs2 as int] as u64);
    match c.write {
        Some(w) => {
            assert(s2.rver[w.reg as int] <= fin.rver[w.reg as int] < VER_MAX);
            assert(rl[wlog_slot(w.reg, w.ver)] == s2.regs[w.reg as int] as u64);
        },
        None => {},
    }
}

/// The RAM claims of one cycle of an honest run hold in the final RAM log.
#[verifier::rlimit(40)]
proof fn lemma_cycle_ram_claims(prog: spec_fn(u64) -> u64, ov: Seq<(u64, u64)>, im: Seq<u32>, n: nat, t: nat)
    requires
        im.len() == NRAM,
        t < n,
        n < usize::MAX,
        versions_fit(state_at(prog, ov, seq![], im, n)),
    ensures
        ({
            let cs = run_n(prog, ov, seq![], im, n).0;
            let fin = state_at(prog, ov, seq![], im, n);
            let io = inout_of(zero_regs(), cs, fin.regs, fin.ramver);
            satisfied(ram_wlog(im, cs, n), ram_claims_of(io, n, t))
        }),
{
    let lov: Seq<(usize, u32)> = seq![];
    let cs = run_n(prog, ov, lov, im, n).0;
    lemma_run_len(prog, ov, lov, im, n);
    let fin = state_at(prog, ov, lov, im, n);
    let io = inout_of(zero_regs(), cs, fin.regs, fin.ramver);
    let s = state_at(prog, ov, lov, im, t);
    let s2 = state_at(prog, ov, lov, im, t + 1);
    lemma_cycle_facts(prog, ov, lov, im, n, t);
    assert(lookup_last(lov, t) is None);
    lemma_versions_grow(prog, ov, lov, im, t, n);
    lemma_versions_grow(prog, ov, lov, im, t + 1, n);
    lemma_logs_current(prog, ov, im, n, t);
    lemma_logs_current(prog, ov, im, n, t + 1);
    lemma_logs_stable(prog, ov, im, n, t, n);
    lemma_logs_stable(prog, ov, im, n, t + 1, n);
    lemma_ram_wlog_len(im, cs, n);
    let c = cs[t as int];
    let ml = ram_wlog(im, cs, n);
    lemma_io_column(zero_regs(), cs, fin.regs, fin.ramver, 12, t);
    lemma_io_column(zero_regs(), cs, fin.regs, fin.ramver, 13, t);
    lemma_io_column(zero_regs(), cs, fin.regs, fin.ramver, 14, t);
    lemma_io_column(zero_regs(), cs, fin.regs, fin.ramver, 15, t);
    lemma_io_column(zero_regs(), cs, fin.regs, fin.ramver, 16, t);
    lemma_io_column(zero_regs(), cs, fin.regs, fin.ramver, 17, t);
    lemma_io_column(zero_regs(), cs, fin.regs, fin.ramver, 18, t);
    lemma_io_column(zero_regs(), cs, fin.regs, fin.ramver, 19, t);
    match c.load {
        Some(l) => {
            assert(s.ramver[l.addr as int] <= fin.ramver[l.addr as int] < VER_MAX);
            assert(ml[wlog_slot(l.addr, l.ver)] == s.mem[l.addr as int] as u64);
        },
        None => {},
    }
    match c.store {
        Some(e) => {
            assert(s2.ramver[e.addr as int] <= fin.ramver[e.addr as int] < VER_MAX);
            assert(ml[wlog_slot(e.addr, e.ver)] == s2.mem[e.addr as int] as u64);
        },
        None => {},
    }
}

proof fn lemma_claims_upto(prog: spec_fn(u64) -> u64, ov: Seq<(u64, u64)>, im: Seq<u32>, n: nat, k: nat)
    requires
        im.len() == NRAM,
        k <= n,
        n < usize::MAX,
        versions_fit(state_at(prog, ov, seq![], im, n)),
    ensures
        ({
            let cs = run_n(prog, ov, seq![], im, n).0;
            let fin = state_at(prog, ov, seq![], im, n);
            let io = inout_of(zero_regs(), cs, fin.regs, fin.ramver);
            &&& satisfied(reg_wlog(zero_regs(), cs, n), reg_claims(io, n, k))
            &&& satisfied(ram_wlog(im, cs, n), ram_claims(io, n, k))
        }),
    decreases k,
{
    if k > 0 {
        let cs = run_n(prog, ov, seq![], im, n).0;
        let fin = state_at(prog, ov, seq![], im, n);
        let io = inout_of(zero_regs(), cs, fin.regs, fin.ramver);
        lemma_claims_upto(prog, ov, im, n, (k - 1) as nat);
        lemma_cycle_reg_claims(prog, ov, im, n, (k - 1) as nat);
        lemma_cycle_ram_claims(prog, ov, im, n, (k - 1) as nat);
        lemma_satisfied_concat(
            reg_wlog(zero_regs(), cs, n),
            reg_claims(io, n, (k - 1) as nat),
            reg_claims_of(io, n, (k - 1) as nat),
        );
        lemma_satisfied_concat(
            ram_wlog(im, cs, n),
            ram_claims(io, n, (k - 1) as nat),
            ram_claims_of(io, n, (k - 1) as nat),
        );
    }
}

/// Law (completeness of the register and RAM lookups): on a run without load
/// overrides whose versions stay below `VER_MAX`, every register claim and
/// every RAM claim rebuilt from the honest inout vector names a slot of the
/// corresponding write log that holds exactly the claimed value.
pub proof fn lemma_honest_claims_hold(prog: spec_fn(u64) -> u64, ov: Seq<(u64, u64)>, im: Seq<u32>, n: nat)
    requires
        im.len() == NRAM,
        n < usize::MAX,
        versions_fit(state_at(prog, ov, seq![], im, n)),
    ensures
        ({
            let cs = run_n(prog, ov, seq![], im, n).0;
            let fin = state_at(prog, ov, seq![], im, n);
            let io = inout_of(zero_regs(), cs, fin.regs, fin.ramver);
            &&& satisfied(reg_wlog(zero_regs(), cs, n), reg_claims(io, n, n))
            &&& satisfied(ram_wlog(im, cs, n), ram_claims(io, n, n))
        }),
{
    lemma_claims_upto(prog, ov, im, n, n);
}


/// Law (completeness of the fetch lookup): the word executed in any cycle
/// whose pc has a row in the fetch table (an overridden address below 256, or a multiple of 4 up to
/// `HALT_ADDR`) is exactly that row of the table.
pub proof fn lemma_fetch_claim_holds(
    prog: spec_fn(u64) -> u64,
    ov: Seq<(u64, u64)>,
    lov: Seq<(usize, u32)>,
    im: Seq<u32>,
    n: nat,
    t: nat,
)
    requires
        im.len() == NRAM,
        t < n,
        n < usize::MAX,
        ({
            let pc = run_n(prog, ov, lov, im, n).0[t as int].pc;
            pc < FETCH_ROWS && (lookup_first(ov, pc) is Some || (pc % 4 == 0 && pc <= HALT_ADDR))
        }),
    ensures
        ({
            let c = run_n(prog, ov, lov, im, n).0[t as int];
            fetch_table(prog, ov)[c.pc as int] == c.inst
        }),
{
    lemma_run_cycle(prog, ov, lov, im, n, t);
    lemma_cycle_facts(prog, ov, lov, im, n, t);
    let c = run_n(prog, ov, lov, im, n).0[t as int];
    let s = state_at(prog, ov, lov, im, t);
    assert(c.pc == s.pc);
    assert((c.pc as int) as u64 == c.pc);
}

/// Law (output triplet): after the run, the write-log row of every register
/// and every RAM word at its final version holds its final value.
pub proof fn lemma_final_rows(prog: spec_fn(u64) -> u64, ov: Seq<(u64, u64)>, im: Seq<u32>, n: nat)
    requires
        im.len() == NRAM,
        n < usize::MAX,
        versions_fit(state_at(prog, ov, seq![], im, n)),
    ensures
        ({
            let cs = run_n(prog, ov, seq![], im, n).0;
            let fin = state_at(prog, ov, seq![], im, n);
            &&& forall|r: int|
                0 <= r < NREG ==> reg_wlog(zero_regs(), cs, n)[wlog_slot(r as usize, fin.rver[r])]
                    == fin.regs[r] as u64
            &&& forall|a: int|
                0 <= a < NRAM ==> ram_wlog(im, cs, n)[wlog_slot(a as usize, fin.ramver[a])]
                    == fin.mem[a] as u64
        }),
{
    lemma_logs_current(prog, ov, im, n, n);
}

} // verus!
