//! The register write log of a minimal-word-VM run is consistent with the
//! run: every read a cycle records finds its value at its `(register,
//! version)` slot of the log, and so does every write.

use vstd::prelude::*;
use crate::slices::word_vm::{
    CycleView, VmState, NREG, VER_MAX, cycle_ok, halts_at, inst_at_pc, run_n, state_at, step, write_log,
    write_value, sgn7_val,
};
use crate::bits::{bv_add64, bv_fields, bv_signed7};

verus! {

/// Every register stays below `VER_MAX` versions during the first `n` cycles.
pub open spec fn versions_fit(init: Seq<u64>, ov: Seq<(u64, u64)>, n: nat) -> bool {
    forall|t: nat, r: int| t <= n && 0 <= r < NREG ==> #[trigger] state_at(init, ov, t).ver[r] < VER_MAX
}

/// The log slot of register `r` at version `v`.
pub open spec fn slot(r: int, v: int) -> int {
    r * VER_MAX + v
}

proof fn lemma_run_len(init: Seq<u64>, ov: Seq<(u64, u64)>, k: nat)
    ensures
        run_n(init, ov, k).0.len() == k,
    decreases k,
{
    if k > 0 {
        lemma_run_len(init, ov, (k - 1) as nat);
    }
}

/// The records of the first `k` cycles are a prefix of those of the first `n`.
proof fn lemma_run_prefix(init: Seq<u64>, ov: Seq<(u64, u64)>, k: nat, n: nat)
    requires
        k <= n,
    ensures
        run_n(init, ov, n).0.take(k as int) == run_n(init, ov, k).0,
    decreases n,
{
    lemma_run_len(init, ov, n);
    lemma_run_len(init, ov, k);
    if k < n {
        lemma_run_prefix(init, ov, k, (n - 1) as nat);
        lemma_run_len(init, ov, (n - 1) as nat);
        assert(run_n(init, ov, n).0.take(k as int) =~= run_n(init, ov, (n - 1) as nat).0.take(k as int));
    } else {
        assert(run_n(init, ov, n).0.take(k as int) =~= run_n(init, ov, n).0);
    }
}

/// Every state up to `n` holds eight registers and eight versions, and every
/// cycle before `n` is executable.
pub open spec fn run_ok(init: Seq<u64>, ov: Seq<(u64, u64)>, n: nat) -> bool {
    forall|t: nat|
        t < n ==> cycle_ok(#[trigger] state_at(init, ov, t), inst_at_pc(ov, state_at(init, ov, t).pc))
}

proof fn lemma_shape(init: Seq<u64>, ov: Seq<(u64, u64)>, n: nat, t: nat)
    requires
        init.len() == NREG,
        run_ok(init, ov, n),
        t <= n,
    ensures
        state_at(init, ov, t).regs.len() == NREG,
        state_at(init, ov, t).ver.len() == NREG,
    decreases t,
{
    if t > 0 {
        lemma_shape(init, ov, n, (t - 1) as nat);
        assert(cycle_ok(state_at(init, ov, (t - 1) as nat), inst_at_pc(ov, state_at(init, ov, (t - 1) as nat).pc)));
    }
}

/// Versions never decrease along a run.
proof fn lemma_versions_grow(init: Seq<u64>, ov: Seq<(u64, u64)>, n: nat, t: nat, u: nat, r: int)
    requires
        init.len() == NREG,
        run_ok(init, ov, n),
        versions_fit(init, ov, n),
        t <= u <= n,
        0 <= r < NREG,
    ensures
        state_at(init, ov, t).ver[r] <= state_at(init, ov, u).ver[r],
    decreases u - t,
{
    if u > t {
        lemma_versions_grow(init, ov, n, t, (u - 1) as nat, r);
        lemma_shape(init, ov, n, (u - 1) as nat);
        assert(cycle_ok(state_at(init, ov, (u - 1) as nat), inst_at_pc(ov, state_at(init, ov, (u - 1) as nat).pc)));
        assert(state_at(init, ov, (u - 1) as nat).ver[r] < VER_MAX);
        let s = state_at(init, ov, (u - 1) as nat);
        let inst = inst_at_pc(ov, s.pc);
        let st = step(s, inst);
        assert(state_at(init, ov, u) == st.1);
        match write_value(s, inst) {
            Some(w) => {
                let rd = st.0.write.unwrap().reg as int;
                assert(0 <= rd < NREG);
                assert(state_at(init, ov, (u - 1) as nat).ver[rd] < VER_MAX);
            },
            None => {},
        }
    }
}

proof fn lemma_slot_distinct(r1: int, v1: int, r2: int, v2: int)
    requires
        0 <= v1 < VER_MAX,
        0 <= v2 < VER_MAX,
        r1 != r2 || v1 != v2,
    ensures
        slot(r1, v1) != slot(r2, v2),
{
}

/// After `t` cycles, each register's slot at its current version holds its value.
proof fn lemma_log_current(init: Seq<u64>, ov: Seq<(u64, u64)>, n: nat, t: nat)
    requires
        init.len() == NREG,
        run_ok(init, ov, n),
        versions_fit(init, ov, n),
        t <= n,
    ensures
        write_log(init, run_n(init, ov, t).0).len() == NREG * VER_MAX,
        forall|r: int|
            0 <= r < NREG ==> write_log(init, run_n(init, ov, t).0)[slot(r, state_at(init, ov, t).ver[r] as int)]
                == #[trigger] state_at(init, ov, t).regs[r],
    decreases t,
{
    let cs = run_n(init, ov, t).0;
    lemma_shape(init, ov, n, t);
    if t == 0 {
        assert forall|r: int| 0 <= r < NREG implies write_log(init, cs)[slot(r, state_at(init, ov, t).ver[r] as int)]
            == #[trigger] state_at(init, ov, t).regs[r] by {
            assert(state_at(init, ov, 0).ver[r] == 0);
            assert(slot(r, 0) / 4 == r && slot(r, 0) % 4 == 0);
        }
    } else {
        let p = (t - 1) as nat;
        lemma_log_current(init, ov, n, p);
        lemma_shape(init, ov, n, p);
        lemma_run_len(init, ov, p);
        let s = state_at(init, ov, p);
        let inst = inst_at_pc(ov, s.pc);
        assert(cycle_ok(s, inst));
        let st = step(s, inst);
        assert(run_n(init, ov, t).0 == run_n(init, ov, p).0.push(st.0));
        assert(cs.drop_last() =~= run_n(init, ov, p).0);
        let prev = write_log(init, run_n(init, ov, p).0);
        match write_value(s, inst) {
            Some(v) => {
                let rd = st.0.write.unwrap().reg as int;
                assert(state_at(init, ov, t).ver[rd] < VER_MAX);
                assert(0 <= slot(rd, s.ver[rd] + 1) < NREG * VER_MAX);
            },
            None => {},
        }
        assert forall|r: int| 0 <= r < NREG implies write_log(init, cs)[slot(r, state_at(init, ov, t).ver[r] as int)]
            == #[trigger] state_at(init, ov, t).regs[r] by {
            assert(state_at(init, ov, p).ver[r] < VER_MAX);
            assert(state_at(init, ov, t).ver[r] < VER_MAX);
            match write_value(s, inst) {
                Some(v) => {
                    let rd = st.0.write.unwrap().reg as int;
                    assert(state_at(init, ov, t).ver[rd] < VER_MAX);
                    if r != rd {
                        lemma_slot_distinct(rd, s.ver[rd] + 1, r, s.ver[r] as int);
                    }
                },
                None => {},
            }
        }
    }
}

/// A slot that no cycle in `[t, k)` writes keeps its value from `t` to `k`.
proof fn lemma_log_stable(init: Seq<u64>, ov: Seq<(u64, u64)>, n: nat, t: nat, k: nat, r: int, v: int)
    requires
        init.len() == NREG,
        run_ok(init, ov, n),
        versions_fit(init, ov, n),
        t <= k <= n,
        0 <= r < NREG,
        0 <= v <= state_at(init, ov, t).ver[r],
    ensures
        write_log(init, run_n(init, ov, k).0)[slot(r, v)] == write_log(init, run_n(init, ov, t).0)[slot(r, v)],
    decreases k - t,
{
    if k > t {
        let p = (k - 1) as nat;
        lemma_log_stable(init, ov, n, t, p, r, v);
        lemma_log_current(init, ov, n, p);
        lemma_shape(init, ov, n, p);
        lemma_shape(init, ov, n, t);
        let s = state_at(init, ov, p);
        let inst = inst_at_pc(ov, s.pc);
        assert(cycle_ok(s, inst));
        let st = step(s, inst);
        assert(run_n(init, ov, k).0 == run_n(init, ov, p).0.push(st.0));
        lemma_run_len(init, ov, p);
        assert(run_n(init, ov, k).0.drop_last() =~= run_n(init, ov, p).0);
        match write_value(s, inst) {
            Some(w) => {
                let rd = st.0.write.unwrap().reg as int;
                lemma_versions_grow(init, ov, n, t, p, r);
                lemma_versions_grow(init, ov, n, t, p, rd);
                assert(state_at(init, ov, k).ver[rd] < VER_MAX);
                assert(state_at(init, ov, t).ver[r] < VER_MAX);
                lemma_slot_distinct(rd, s.ver[rd] + 1, r, v);
            },
            None => {},
        }
    }
}

/// Law (completeness of the register lookups): on a run whose registers
/// stay below `VER_MAX` versions, every read and every write a cycle records
/// finds its value at its `(register, version)` slot of the run's write log.
pub proof fn lemma_accesses_in_log(init: Seq<u64>, ov: Seq<(u64, u64)>, n: nat)
    requires
        init.len() == NREG,
        halts_at(init, ov, n),
        versions_fit(init, ov, n),
    ensures
        ({
            let cs = run_n(init, ov, n).0;
            let log = write_log(init, cs);
            &&& cs.len() == n
            &&& forall|t: int, j: int|
                0 <= t < n && 0 <= j < 2 ==> log[slot(
                    (#[trigger] cs[t].reads[j]).reg as int,
                    cs[t].reads[j].ver as int,
                )] == cs[t].reads[j].val
            &&& forall|t: int|
                0 <= t < n && (#[trigger] cs[t]).write is Some ==> log[slot(
                    cs[t].write.unwrap().reg as int,
                    cs[t].write.unwrap().ver as int,
                )] == cs[t].write.unwrap().val
        }),
{
    let cs = run_n(init, ov, n).0;
    lemma_run_len(init, ov, n);
    assert(run_ok(init, ov, n));
    assert forall|t: int, j: int| 0 <= t < n && 0 <= j < 2 implies write_log(init, cs)[slot(
        (#[trigger] cs[t].reads[j]).reg as int,
        cs[t].reads[j].ver as int,
    )] == cs[t].reads[j].val by {
        let tt = t as nat;
        lemma_run_prefix(init, ov, (tt + 1) as nat, n);
        lemma_run_len(init, ov, tt);
        lemma_shape(init, ov, n, tt);
        let s = state_at(init, ov, tt);
        let inst = inst_at_pc(ov, s.pc);
        assert(cycle_ok(s, inst));
        let st = step(s, inst);
        assert(run_n(init, ov, (tt + 1) as nat).0 == run_n(init, ov, tt).0.push(st.0));
        assert(cs[t] == run_n(init, ov, (tt + 1) as nat).0[t]);
        assert(cs[t] == st.0);
        let r = cs[t].reads[j].reg as int;
        lemma_log_current(init, ov, n, tt);
        lemma_log_stable(init, ov, n, tt, n, r, s.ver[r] as int);
    }
    assert forall|t: int| 0 <= t < n && (#[trigger] cs[t]).write is Some implies write_log(init, cs)[slot(
        cs[t].write.unwrap().reg as int,
        cs[t].write.unwrap().ver as int,
    )] == cs[t].write.unwrap().val by {
        let tt = t as nat;
        lemma_run_prefix(init, ov, (tt + 1) as nat, n);
        lemma_run_len(init, ov, tt);
        lemma_shape(init, ov, n, tt);
        lemma_shape(init, ov, n, (tt + 1) as nat);
        let s = state_at(init, ov, tt);
        let inst = inst_at_pc(ov, s.pc);
        assert(cycle_ok(s, inst));
        let st = step(s, inst);
        assert(run_n(init, ov, (tt + 1) as nat).0 == run_n(init, ov, tt).0.push(st.0));
        assert(cs[t] == run_n(init, ov, (tt + 1) as nat).0[t]);
        assert(cs[t] == st.0);
        let rd = cs[t].write.unwrap().reg as int;
        assert(state_at(init, ov, (tt + 1) as nat) == st.1);
        assert(write_value(s, inst) is Some);
        assert(0 <= rd < NREG);
        assert(st.1.ver[rd] == cs[t].write.unwrap().ver);
        assert(st.1.regs[rd] == cs[t].write.unwrap().val);
        lemma_log_current(init, ov, n, (tt + 1) as nat);
        lemma_log_stable(init, ov, n, (tt + 1) as nat, n, rd, st.1.ver[rd] as int);
    }
}

/// Law (`addi` sign-extends its immediate): a cycle executing the word with
/// opcode `0x13`, `rd = inst[11:7]`, `rs1 = inst[19:15]` and 7-bit immediate
/// `imm7 = inst[31:25]` writes to `rd` the value of `rs1` plus `imm7` read as
/// two's complement (`imm7 - 128` when bit 6 is set), modulo `2^64`; the
/// other registers keep their values.
pub proof fn lemma_addi_sign_extends(s: VmState, inst: u64)
    requires
        s.regs.len() == NREG,
        inst & 0x7f == 0x13,
        (inst >> 7) & 0x1f < NREG,
        (inst >> 15) & 0x1f < NREG,
    ensures
        ({
            let rd = ((inst >> 7) & 0x1f) as int;
            let rs1 = ((inst >> 15) & 0x1f) as int;
            let imm7 = ((inst >> 25) & 0x7f) as int;
            let delta = if imm7 >= 64 {
                imm7 - 128
            } else {
                imm7
            };
            let s2 = step(s, inst).1;
            &&& s2.regs[rd] as int == (s.regs[rs1] as int + delta) % 0x1_0000_0000_0000_0000
            &&& forall|r: int| 0 <= r < NREG && r != rd ==> s2.regs[r] == s.regs[r]
        }),
{
    let imm = (inst >> 25) & 0x7f;
    bv_fields(inst);
    let x = s.regs[((inst >> 15) & 0x1f) as int];
    assert(imm < 128 && (imm & 0x40 != 0) == (imm >= 64));
    let y = sgn7_val(imm) as u64;
    bv_signed7(imm, 0, 0);
    if imm >= 64 {
        assert((((imm as i64) - 128) as i64) as u64 == imm + 0xffff_ffff_ffff_ff80);
        assert(y as int == imm as int - 128 + 0x1_0000_0000_0000_0000);
    } else {
        assert(y as int == imm as int);
    }
    let v = x.wrapping_add(y);
    assert(v as int == (x as int + y as int) % 0x1_0000_0000_0000_0000);
}

/// Law (`add` and `beq`): a cycle executing `add` (opcode 0x33) writes
/// `(rs1 + rs2) mod 2^64` to `rd`; a cycle executing `beq` (opcode 0x63)
/// writes no register and, from pc `p` (below `2^62`), goes to
/// `(p + off) mod 2^64` when `rs1 == rs2`, `off` being the 7-bit immediate
/// `inst[31:25]` read as two's complement, and to `p + 4` otherwise.
pub proof fn lemma_add_and_beq(s: VmState, inst: u64)
    requires
        s.regs.len() == NREG,
        (inst >> 7) & 0x1f < NREG,
        (inst >> 15) & 0x1f < NREG,
        (inst >> 20) & 0x1f < NREG,
        s.pc < 0x4000_0000_0000_0000,
    ensures
        ({
            let op = inst & 0x7f;
            let rd = ((inst >> 7) & 0x1f) as int;
            let x = s.regs[((inst >> 15) & 0x1f) as int];
            let y = s.regs[((inst >> 20) & 0x1f) as int];
            let imm7 = ((inst >> 25) & 0x7f) as int;
            let off = if imm7 >= 64 {
                imm7 - 128
            } else {
                imm7
            };
            let s2 = step(s, inst).1;
            &&& op == 0x33 ==> s2.regs[rd] as int == (x as int + y as int) % 0x1_0000_0000_0000_0000
            &&& op == 0x63 ==> s2.regs == s.regs && s2.pc as int == (if x == y {
                (s.pc as int + off) % 0x1_0000_0000_0000_0000
            } else {
                s.pc as int + 4
            })
        }),
{
    let imm = (inst >> 25) & 0x7f;
    bv_fields(inst);
    assert(imm < 128 && (imm & 0x40 != 0) == (imm >= 64));
    let x = s.regs[((inst >> 15) & 0x1f) as int];
    let y = s.regs[((inst >> 20) & 0x1f) as int];
    bv_add64(x, y);
    let p = s.pc;
    let d = sgn7_val(imm);
    let t = ((p as i64) + d) as u64;
    assert(-64 <= d < 64);
    bv_signed7(imm, p, d);
    assert(t as int == (p as int + d as int) % 0x1_0000_0000_0000_0000);
    assert(p.wrapping_add(4) as int == p as int + 4);
}

} // verus!
