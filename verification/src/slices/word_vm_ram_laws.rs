//! The write logs of a run of the word VM with RAM are consistent with the
//! run: every register read and write a cycle records finds its value at its
//! `(register, version)` slot of the register log, and every load and store
//! at its `(word, version)` slot of the RAM log.

use vstd::prelude::*;
use crate::slices::word_vm_ram::{
    VmState, NREG, NRAM, VER_MAX, cycle_ok, halts_at, inst_at_pc, is_load, is_store, lookup_last_u64, ram_log,
    reg_log, run_n, state_at, step,
};

verus! {

/// Every register and every RAM word stays below `VER_MAX` versions during
/// the first `n` cycles.
pub open spec fn versions_fit(init: Seq<u64>, im: Seq<u64>, ov: Seq<(u64, u64)>, n: nat) -> bool {
    &&& forall|t: nat, r: int|
        t <= n && 0 <= r < NREG ==> #[trigger] state_at(init, im, ov, seq![], t).rver[r] < VER_MAX
    &&& forall|t: nat, a: int|
        t <= n && 0 <= a < NRAM ==> #[trigger] state_at(init, im, ov, seq![], t).ramver[a] < VER_MAX
}

/// The log slot of row `r` at version `v`.
pub open spec fn slot(r: int, v: int) -> int {
    r * VER_MAX + v
}

pub open spec fn run_ok(init: Seq<u64>, im: Seq<u64>, ov: Seq<(u64, u64)>, n: nat) -> bool {
    forall|t: nat|
        t < n ==> cycle_ok(
            #[trigger] state_at(init, im, ov, seq![], t),
            inst_at_pc(ov, state_at(init, im, ov, seq![], t).pc),
        )
}

/// The state after cycle `t` is one step from the state before it.
proof fn lemma_next(init: Seq<u64>, im: Seq<u64>, ov: Seq<(u64, u64)>, t: nat)
    ensures
        ({
            let s = state_at(init, im, ov, seq![], t);
            let st = step(s, inst_at_pc(ov, s.pc), None);
            &&& state_at(init, im, ov, seq![], t + 1) == st.1
            &&& run_n(init, im, ov, seq![], t + 1).0 == run_n(init, im, ov, seq![], t).0.push(st.0)
        }),
{
    assert(lookup_last_u64(seq![], t) == None::<u64>);
}

proof fn lemma_run_len(init: Seq<u64>, im: Seq<u64>, ov: Seq<(u64, u64)>, k: nat)
    ensures
        run_n(init, im, ov, seq![], k).0.len() == k,
    decreases k,
{
    if k > 0 {
        lemma_run_len(init, im, ov, (k - 1) as nat);
    }
}

proof fn lemma_run_prefix(init: Seq<u64>, im: Seq<u64>, ov: Seq<(u64, u64)>, k: nat, n: nat)
    requires
        k <= n,
    ensures
        run_n(init, im, ov, seq![], n).0.take(k as int) == run_n(init, im, ov, seq![], k).0,
    decreases n,
{
    lemma_run_len(init, im, ov, n);
    lemma_run_len(init, im, ov, k);
    if k < n {
        lemma_run_prefix(init, im, ov, k, (n - 1) as nat);
        lemma_run_len(init, im, ov, (n - 1) as nat);
        lemma_next(init, im, ov, (n - 1) as nat);
        assert(run_n(init, im, ov, seq![], n).0.take(k as int) =~= run_n(init, im, ov, seq![], (n - 1) as nat).0.take(
            k as int,
        ));
    } else {
        assert(run_n(init, im, ov, seq![], n).0.take(k as int) =~= run_n(init, im, ov, seq![], n).0);
    }
}

proof fn lemma_shape(init: Seq<u64>, im: Seq<u64>, ov: Seq<(u64, u64)>, n: nat, t: nat)
    requires
        init.len() == NREG,
        im.len() == NRAM,
        run_ok(init, im, ov, n),
        t <= n,
    ensures
        state_at(init, im, ov, seq![], t).regs.len() == NREG,
        state_at(init, im, ov, seq![], t).rver.len() == NREG,
        state_at(init, im, ov, seq![], t).mem.len() == NRAM,
        state_at(init, im, ov, seq![], t).ramver.len() == NRAM,
    decreases t,
{
    if t > 0 {
        let p = (t - 1) as nat;
        lemma_shape(init, im, ov, n, p);
        lemma_next(init, im, ov, p);
        assert(cycle_ok(state_at(init, im, ov, seq![], p), inst_at_pc(ov, state_at(init, im, ov, seq![], p).pc)));
    }
}

proof fn lemma_versions_grow(init: Seq<u64>, im: Seq<u64>, ov: Seq<(u64, u64)>, n: nat, t: nat, u: nat)
    requires
        init.len() == NREG,
        im.len() == NRAM,
        run_ok(init, im, ov, n),
        versions_fit(init, im, ov, n),
        t <= u <= n,
    ensures
        forall|r: int|
            0 <= r < NREG ==> state_at(init, im, ov, seq![], t).rver[r] <= #[trigger] state_at(
                init,
                im,
                ov,
                seq![],
                u,
            ).rver[r],
        forall|a: int|
            0 <= a < NRAM ==> state_at(init, im, ov, seq![], t).ramver[a] <= #[trigger] state_at(
                init,
                im,
                ov,
                seq![],
                u,
            ).ramver[a],
    decreases u - t,
{
    if u > t {
        let p = (u - 1) as nat;
        lemma_versions_grow(init, im, ov, n, t, p);
        lemma_shape(init, im, ov, n, p);
        lemma_next(init, im, ov, p);
        let s = state_at(init, im, ov, seq![], p);
        let inst = inst_at_pc(ov, s.pc);
        assert(cycle_ok(s, inst));
        let st = step(s, inst, None);
        if st.0.write is Some {
            let rd = st.0.write.unwrap().reg as int;
            assert(0 <= rd < NREG);
            assert(s.rver[rd] < VER_MAX);
        }
        if st.0.store is Some {
            let a = st.0.store.unwrap().addr as int;
            assert(0 <= a < NRAM);
            assert(s.ramver[a] < VER_MAX);
        }
    }
}

/// After `t` cycles, each register's and each RAM word's slot at its current
/// version holds its current value, and both logs keep their lengths.
proof fn lemma_logs_current(init: Seq<u64>, im: Seq<u64>, ov: Seq<(u64, u64)>, n: nat, t: nat)
    requires
        init.len() == NREG,
        im.len() == NRAM,
        run_ok(init, im, ov, n),
        versions_fit(init, im, ov, n),
        t <= n,
    ensures
        ({
            let cs = run_n(init, im, ov, seq![], t).0;
            let s = state_at(init, im, ov, seq![], t);
            &&& reg_log(init, cs).len() == NREG * VER_MAX
            &&& ram_log(im, cs).len() == NRAM * VER_MAX
            &&& forall|r: int| 0 <= r < NREG ==> reg_log(init, cs)[slot(r, s.rver[r] as int)] == #[trigger] s.regs[r]
            &&& forall|a: int| 0 <= a < NRAM ==> ram_log(im, cs)[slot(a, s.ramver[a] as int)] == #[trigger] s.mem[a]
        }),
    decreases t,
{
    let cs = run_n(init, im, ov, seq![], t).0;
    let s1 = state_at(init, im, ov, seq![], t);
    lemma_shape(init, im, ov, n, t);
    if t == 0 {
        assert forall|r: int| 0 <= r < NREG implies reg_log(init, cs)[slot(r, s1.rver[r] as int)] == #[trigger] s1.regs[r] by {
            assert(slot(r, 0) / 8 == r && slot(r, 0) % 8 == 0);
        }
        assert forall|a: int| 0 <= a < NRAM implies ram_log(im, cs)[slot(a, s1.ramver[a] as int)] == #[trigger] s1.mem[a] by {
            assert(slot(a, 0) / 8 == a && slot(a, 0) % 8 == 0);
        }
    } else {
        let p = (t - 1) as nat;
        lemma_logs_current(init, im, ov, n, p);
        lemma_shape(init, im, ov, n, p);
        lemma_run_len(init, im, ov, p);
        lemma_next(init, im, ov, p);
        let s = state_at(init, im, ov, seq![], p);
        let inst = inst_at_pc(ov, s.pc);
        assert(cycle_ok(s, inst));
        let st = step(s, inst, None);
        assert(cs.drop_last() =~= run_n(init, im, ov, seq![], p).0);
        assert(cs.last() == st.0);
        if st.0.write is Some {
            let rd = st.0.write.unwrap().reg as int;
            assert(0 <= rd < NREG);
            assert(s1.rver[rd] < VER_MAX);
        }
        if st.0.store is Some {
            let a = st.0.store.unwrap().addr as int;
            assert(0 <= a < NRAM);
            assert(s1.ramver[a] < VER_MAX);
        }
        assert forall|r: int| 0 <= r < NREG implies reg_log(init, cs)[slot(r, s1.rver[r] as int)] == #[trigger] s1.regs[r] by {
            assert(s.rver[r] < VER_MAX);
            assert(s1.rver[r] < VER_MAX);
        }
        assert forall|a: int| 0 <= a < NRAM implies ram_log(im, cs)[slot(a, s1.ramver[a] as int)] == #[trigger] s1.mem[a] by {
            assert(s.ramver[a] < VER_MAX);
            assert(s1.ramver[a] < VER_MAX);
        }
    }
}

/// A register slot at or below the register's version at `t` keeps its value
/// from `t` to `k`.
proof fn lemma_reg_stable(init: Seq<u64>, im: Seq<u64>, ov: Seq<(u64, u64)>, n: nat, t: nat, k: nat, r: int, v: int)
    requires
        init.len() == NREG,
        im.len() == NRAM,
        run_ok(init, im, ov, n),
        versions_fit(init, im, ov, n),
        t <= k <= n,
        0 <= r < NREG,
        0 <= v <= state_at(init, im, ov, seq![], t).rver[r],
    ensures
        reg_log(init, run_n(init, im, ov, seq![], k).0)[slot(r, v)] == reg_log(
            init,
            run_n(init, im, ov, seq![], t).0,
        )[slot(r, v)],
    decreases k - t,
{
    if k > t {
        let p = (k - 1) as nat;
        lemma_reg_stable(init, im, ov, n, t, p, r, v);
        lemma_logs_current(init, im, ov, n, p);
        lemma_versions_grow(init, im, ov, n, t, p);
        lemma_shape(init, im, ov, n, p);
        lemma_run_len(init, im, ov, p);
        lemma_next(init, im, ov, p);
        let s = state_at(init, im, ov, seq![], p);
        let inst = inst_at_pc(ov, s.pc);
        assert(cycle_ok(s, inst));
        let st = step(s, inst, None);
        let cs = run_n(init, im, ov, seq![], k).0;
        assert(cs.drop_last() =~= run_n(init, im, ov, seq![], p).0);
        assert(cs.last() == st.0);
        assert(state_at(init, im, ov, seq![], t).rver[r] < VER_MAX);
        if st.0.write is Some {
            let rd = st.0.write.unwrap().reg as int;
            assert(0 <= rd < NREG);
            assert(state_at(init, im, ov, seq![], k).rver[rd] < VER_MAX);
            assert(s.rver[r] >= state_at(init, im, ov, seq![], t).rver[r]);
            assert(slot(rd, st.0.write.unwrap().ver as int) != slot(r, v));
        }
    }
}

/// A RAM slot at or below the word's version at `t` keeps its value from `t`
/// to `k`.
proof fn lemma_ram_stable(init: Seq<u64>, im: Seq<u64>, ov: Seq<(u64, u64)>, n: nat, t: nat, k: nat, a: int, v: int)
    requires
        init.len() == NREG,
        im.len() == NRAM,
        run_ok(init, im, ov, n),
        versions_fit(init, im, ov, n),
        t <= k <= n,
        0 <= a < NRAM,
        0 <= v <= state_at(init, im, ov, seq![], t).ramver[a],
    ensures
        ram_log(im, run_n(init, im, ov, seq![], k).0)[slot(a, v)] == ram_log(
            im,
            run_n(init, im, ov, seq![], t).0,
        )[slot(a, v)],
    decreases k - t,
{
    if k > t {
        let p = (k - 1) as nat;
        lemma_ram_stable(init, im, ov, n, t, p, a, v);
        lemma_logs_current(init, im, ov, n, p);
        lemma_versions_grow(init, im, ov, n, t, p);
        lemma_shape(init, im, ov, n, p);
        lemma_run_len(init, im, ov, p);
        lemma_next(init, im, ov, p);
        let s = state_at(init, im, ov, seq![], p);
        let inst = inst_at_pc(ov, s.pc);
        assert(cycle_ok(s, inst));
        let st = step(s, inst, None);
        let cs = run_n(init, im, ov, seq![], k).0;
        assert(cs.drop_last() =~= run_n(init, im, ov, seq![], p).0);
        assert(cs.last() == st.0);
        assert(state_at(init, im, ov, seq![], t).ramver[a] < VER_MAX);
        if st.0.store is Some {
            let b = st.0.store.unwrap().addr as int;
            assert(0 <= b < NRAM);
            assert(state_at(init, im, ov, seq![], k).ramver[b] < VER_MAX);
            assert(s.ramver[a] >= state_at(init, im, ov, seq![], t).ramver[a]);
            assert(slot(b, st.0.store.unwrap().ver as int) != slot(a, v));
        }
    }
}

/// Law (completeness of the register and RAM lookups): on a run without load
/// overrides whose registers and RAM words stay below `VER_MAX` versions,
/// every register read and write a cycle records finds its value at its slot
/// of the register log, and every load and store at its slot of the RAM log.
pub proof fn lemma_accesses_in_logs(init: Seq<u64>, im: Seq<u64>, ov: Seq<(u64, u64)>, n: nat)
    requires
        init.len() == NREG,
        im.len() == NRAM,
        halts_at(init, im, ov, seq![], n),
        versions_fit(init, im, ov, n),
    ensures
        ({
            let cs = run_n(init, im, ov, seq![], n).0;
            let rl = reg_log(init, cs);
            let ml = ram_log(im, cs);
            &&& cs.len() == n
            &&& forall|t: int, j: int|
                0 <= t < n && 0 <= j < 2 ==> rl[slot(
                    (#[trigger] cs[t].reads[j]).reg as int,
                    cs[t].reads[j].ver as int,
                )] == cs[t].reads[j].val
            &&& forall|t: int|
                0 <= t < n && (#[trigger] cs[t]).write is Some ==> rl[slot(
                    cs[t].write.unwrap().reg as int,
                    cs[t].write.unwrap().ver as int,
                )] == cs[t].write.unwrap().val
            &&& forall|t: int|
                0 <= t < n && (#[trigger] cs[t]).load is Some ==> ml[slot(
                    cs[t].load.unwrap().addr as int,
                    cs[t].load.unwrap().ver as int,
                )] == cs[t].load.unwrap().val
            &&& forall|t: int|
                0 <= t < n && (#[trigger] cs[t]).store is Some ==> ml[slot(
                    cs[t].store.unwrap().addr as int,
                    cs[t].store.unwrap().ver as int,
                )] == cs[t].store.unwrap().val
        }),
{
    let cs = run_n(init, im, ov, seq![], n).0;
    lemma_run_len(init, im, ov, n);
    assert(run_ok(init, im, ov, n));
    assert forall|t: int| 0 <= t < n implies #[trigger] cs[t] == step(
        state_at(init, im, ov, seq![], t as nat),
        inst_at_pc(ov, state_at(init, im, ov, seq![], t as nat).pc),
        None,
    ).0 by {
        let tt = t as nat;
        lemma_run_prefix(init, im, ov, (tt + 1) as nat, n);
        lemma_run_len(init, im, ov, tt);
        lemma_next(init, im, ov, tt);
        assert(cs[t] == run_n(init, im, ov, seq![], (tt + 1) as nat).0[t]);
    }
    assert forall|t: int, j: int| 0 <= t < n && 0 <= j < 2 implies reg_log(init, cs)[slot(
        (#[trigger] cs[t].reads[j]).reg as int,
        cs[t].reads[j].ver as int,
    )] == cs[t].reads[j].val by {
        let tt = t as nat;
        lemma_shape(init, im, ov, n, tt);
        let s = state_at(init, im, ov, seq![], tt);
        assert(cycle_ok(s, inst_at_pc(ov, s.pc)));
        lemma_logs_current(init, im, ov, n, tt);
        let r = cs[t].reads[j].reg as int;
        lemma_reg_stable(init, im, ov, n, tt, n, r, s.rver[r] as int);
        assert(reg_log(init, cs)[slot(r, s.rver[r] as int)] == reg_log(init, run_n(init, im, ov, seq![], tt).0)[slot(
            r,
            s.rver[r] as int,
        )]);
    }
    assert forall|t: int| 0 <= t < n && (#[trigger] cs[t]).write is Some implies reg_log(init, cs)[slot(
        cs[t].write.unwrap().reg as int,
        cs[t].write.unwrap().ver as int,
    )] == cs[t].write.unwrap().val by {
        let tt = t as nat;
        lemma_shape(init, im, ov, n, tt);
        lemma_next(init, im, ov, tt);
        let s = state_at(init, im, ov, seq![], tt);
        assert(cycle_ok(s, inst_at_pc(ov, s.pc)));
        let s1 = state_at(init, im, ov, seq![], (tt + 1) as nat);
        let rd = cs[t].write.unwrap().reg as int;
        assert(0 <= rd < NREG);
        assert(s1.rver[rd] == cs[t].write.unwrap().ver);
        assert(s1.regs[rd] == cs[t].write.unwrap().val);
        lemma_logs_current(init, im, ov, n, (tt + 1) as nat);
        lemma_reg_stable(init, im, ov, n, (tt + 1) as nat, n, rd, s1.rver[rd] as int);
        assert(reg_log(init, cs)[slot(rd, s1.rver[rd] as int)] == reg_log(
            init,
            run_n(init, im, ov, seq![], (tt + 1) as nat).0,
        )[slot(rd, s1.rver[rd] as int)]);
    }
    assert forall|t: int| 0 <= t < n && (#[trigger] cs[t]).load is Some implies ram_log(im, cs)[slot(
        cs[t].load.unwrap().addr as int,
        cs[t].load.unwrap().ver as int,
    )] == cs[t].load.unwrap().val by {
        let tt = t as nat;
        lemma_shape(init, im, ov, n, tt);
        let s = state_at(init, im, ov, seq![], tt);
        assert(cycle_ok(s, inst_at_pc(ov, s.pc)));
        let a = cs[t].load.unwrap().addr as int;
        assert(0 <= a < NRAM);
        lemma_logs_current(init, im, ov, n, tt);
        lemma_ram_stable(init, im, ov, n, tt, n, a, s.ramver[a] as int);
        assert(ram_log(im, cs)[slot(a, s.ramver[a] as int)] == ram_log(im, run_n(init, im, ov, seq![], tt).0)[slot(
            a,
            s.ramver[a] as int,
        )]);
    }
    assert forall|t: int| 0 <= t < n && (#[trigger] cs[t]).store is Some implies ram_log(im, cs)[slot(
        cs[t].store.unwrap().addr as int,
        cs[t].store.unwrap().ver as int,
    )] == cs[t].store.unwrap().val by {
        let tt = t as nat;
        lemma_shape(init, im, ov, n, tt);
        lemma_next(init, im, ov, tt);
        let s = state_at(init, im, ov, seq![], tt);
        assert(cycle_ok(s, inst_at_pc(ov, s.pc)));
        let s1 = state_at(init, im, ov, seq![], (tt + 1) as nat);
        let a = cs[t].store.unwrap().addr as int;
        assert(0 <= a < NRAM);
        assert(s1.ramver[a] == cs[t].store.unwrap().ver);
        assert(s1.mem[a] == cs[t].store.unwrap().val);
        lemma_logs_current(init, im, ov, n, (tt + 1) as nat);
        lemma_ram_stable(init, im, ov, n, (tt + 1) as nat, n, a, s1.ramver[a] as int);
        assert(ram_log(im, cs)[slot(a, s1.ramver[a] as int)] == ram_log(im, run_n(init, im, ov, seq![], (tt + 1) as nat).0)[slot(
            a,
            s1.ramver[a] as int,
        )]);
    }
}

} // verus!
