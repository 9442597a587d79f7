//! Register read-write consistency on a time-ordered register table. The
//! program
//!   addi x1, x0, 5; addi x2, x0, 3; add x1, x1, x2;
//!   addi x2, x0, 7; add x1, x1, x2; addi x5, x1, 1
//! is run natively, recording one access per timestamp: every register read
//! observes the register's current value and every write records the new one.
//! The table `T[ts * NREG + reg]` then holds each register's value at each
//! timestamp, and each access is looked up at its own cell.

use vstd::prelude::*;
use crate::slices::time_ordered::{
    TimedAccess, access_claims, cell_of, cell_value, lemma_honest_lookups_hit, lemma_lookup_hits_iff_current,
    reads_see_latest, state_table_spec,
};

verus! {

pub const REG_X0: u64 = 0;
pub const REG_X1: u64 = 1;
pub const REG_X2: u64 = 2;
pub const REG_X5: u64 = 5;
pub const NREG: usize = 8;
/// Timestamps the register table covers (`TS_MAX * NREG` cells, a power of two).
pub const TS_MAX: usize = 16;

pub open spec fn wr(ts: usize, reg: usize, val: u64) -> TimedAccess {
    TimedAccess { ts, loc: reg, val, is_write: true }
}

pub open spec fn rd(ts: usize, reg: usize, val: u64) -> TimedAccess {
    TimedAccess { ts, loc: reg, val, is_write: false }
}

/// The accesses the program makes, one per timestamp.
pub open spec fn reg_trace() -> Seq<TimedAccess> {
    seq![
        wr(0, 1, 5),
        wr(1, 2, 3),
        rd(2, 1, 5),
        rd(3, 2, 3),
        wr(4, 1, 8),
        wr(5, 2, 7),
        rd(6, 1, 8),
        rd(7, 2, 7),
        wr(8, 1, 15),
        rd(9, 1, 15),
        wr(10, 5, 16),
    ]
}

/// The final register file: x1 = 15, x2 = 7, x5 = 16, the others 0.
pub open spec fn reg_final() -> Seq<u64> {
    seq![0, 15, 7, 0, 0, 16, 0, 0]
}

fn write_reg(regs: &mut [u64; NREG], acc: &mut Vec<TimedAccess>, ts: &mut usize, reg: u64, val: u64)
    requires
        reg < NREG,
        *old(ts) < usize::MAX,
    ensures
        final(regs)@ == old(regs)@.update(reg as int, val),
        final(acc)@ == old(acc)@.push(wr(*old(ts), reg as usize, val)),
        *final(ts) == *old(ts) + 1,
{
    regs[reg as usize] = val;
    acc.push(TimedAccess { ts: *ts, loc: reg as usize, val, is_write: true });
    *ts = *ts + 1;
}

fn read_reg(acc: &mut Vec<TimedAccess>, ts: &mut usize, reg: u64, val: u64)
    requires
        reg < NREG,
        *old(ts) < usize::MAX,
    ensures
        final(acc)@ == old(acc)@.push(rd(*old(ts), reg as usize, val)),
        *final(ts) == *old(ts) + 1,
{
    acc.push(TimedAccess { ts: *ts, loc: reg as usize, val, is_write: false });
    *ts = *ts + 1;
}

/// Runs the program natively: the final registers and the access trace.
pub fn run_program() -> (r: ([u64; NREG], Vec<TimedAccess>))
    ensures
        r.0@ == reg_final(),
        r.1@ == reg_trace(),
{
    let mut regs = [0u64; NREG];
    let mut acc: Vec<TimedAccess> = Vec::new();
    let mut ts: usize = 0;
    // addi x1, x0, 5
    write_reg(&mut regs, &mut acc, &mut ts, REG_X1, 5);
    // addi x2, x0, 3
    write_reg(&mut regs, &mut acc, &mut ts, REG_X2, 3);
    // add x1, x1, x2
    let a = regs[REG_X1 as usize];
    let b = regs[REG_X2 as usize];
    read_reg(&mut acc, &mut ts, REG_X1, a);
    read_reg(&mut acc, &mut ts, REG_X2, b);
    write_reg(&mut regs, &mut acc, &mut ts, REG_X1, a + b);
    // addi x2, x0, 7
    write_reg(&mut regs, &mut acc, &mut ts, REG_X2, 7);
    // add x1, x1, x2
    let a = regs[REG_X1 as usize];
    let b = regs[REG_X2 as usize];
    read_reg(&mut acc, &mut ts, REG_X1, a);
    read_reg(&mut acc, &mut ts, REG_X2, b);
    write_reg(&mut regs, &mut acc, &mut ts, REG_X1, a + b);
    // addi x5, x1, 1
    let a = regs[REG_X1 as usize];
    read_reg(&mut acc, &mut ts, REG_X1, a);
    write_reg(&mut regs, &mut acc, &mut ts, REG_X5, a + 1);
    proof {
        assert(regs@ =~= reg_final());
        assert(acc@ =~= reg_trace());
    }
    (regs, acc)
}

/// The trace with its first read of `loc` that observed `seen` changed to
/// claim `stale`; `None` when the trace has no such read.
pub open spec fn is_read_of(a: TimedAccess, loc: usize, seen: u64) -> bool {
    !a.is_write && a.loc == loc && a.val == seen
}

pub fn stale_read(acc: &[TimedAccess], loc: usize, seen: u64, stale: u64) -> (r: Option<Vec<TimedAccess>>)
    ensures
        match r {
            Some(v) => exists|i: int|
                0 <= i < acc@.len() && is_read_of(#[trigger] acc@[i], loc, seen) && (forall|j: int|
                    0 <= j < i ==> !is_read_of(#[trigger] acc@[j], loc, seen)) && v@ == acc@.update(
                    i,
                    TimedAccess { val: stale, ..acc@[i] },
                ),
            None => forall|i: int| 0 <= i < acc@.len() ==> !is_read_of(#[trigger] acc@[i], loc, seen),
        },
{
    let n = acc.len();
    let mut i: usize = 0;
    while i < n
        invariant
            i <= n,
            n == acc@.len(),
            forall|j: int| 0 <= j < i ==> !is_read_of(#[trigger] acc@[j], loc, seen),
        decreases n - i,
    {
        let a = acc[i];
        if !a.is_write && a.loc == loc && a.val == seen {
            let mut v: Vec<TimedAccess> = Vec::new();
            let mut k: usize = 0;
            while k < n
                invariant
                    k <= n,
                    n == acc@.len(),
                    i < n,
                    a == acc@[i as int],
                    v@.len() == k,
                    forall|q: int| 0 <= q < k ==> #[trigger] v@[q] == (if q == i { TimedAccess { val: stale, ..a } } else { acc@[q] }),
                decreases n - k,
            {
                if k == i {
                    v.push(TimedAccess { ts: a.ts, loc: a.loc, val: stale, is_write: a.is_write });
                } else {
                    v.push(acc[k]);
                }
                k = k + 1;
            }
            proof {
                assert(v@ =~= acc@.update(i as int, TimedAccess { val: stale, ..acc@[i as int] }));
                assert(is_read_of(acc@[i as int], loc, seen));
            }
            return Some(v);
        }
        i = i + 1;
    }
    None
}

/// The program's trace is consistent: every read observes the most recent
/// write of its register, so every lookup hits its cell of the register
/// table; the read of x1 that observed 15, changed to claim the overwritten
/// 5, misses its cell.
pub proof fn lemma_register_trace_consistent()
    ensures
        reads_see_latest(reg_trace()),
        forall|i: int|
            0 <= i < reg_trace().len() ==> state_table_spec(reg_trace(), TS_MAX as nat, NREG as nat)[
                #[trigger] access_claims(reg_trace(), NREG as nat)[i].0 as int] == access_claims(
                reg_trace(),
                NREG as nat,
            )[i].1,
        is_read_of(reg_trace()[9], 1, 15),
        forall|j: int| 0 <= j < 9 ==> !is_read_of(#[trigger] reg_trace()[j], 1, 15),
        state_table_spec(reg_trace(), TS_MAX as nat, NREG as nat)[cell_of(reg_trace()[9], NREG as nat)] != 5,
{
    let acc = reg_trace();
    reveal_with_fuel(crate::slices::time_ordered::apply_writes_at, 12);
    reveal_with_fuel(cell_value, 11);
    assert(cell_value(acc, 2, 1) == 5);
    assert(cell_value(acc, 3, 2) == 3);
    assert(cell_value(acc, 6, 1) == 8);
    assert(cell_value(acc, 7, 2) == 7);
    assert(cell_value(acc, 9, 1) == 15);
    assert forall|i: int| 0 <= i < acc.len() && !(#[trigger] acc[i]).is_write implies acc[i].val == cell_value(
        acc,
        acc[i].ts as nat,
        acc[i].loc as int,
    ) by {
        assert(i == 2 || i == 3 || i == 6 || i == 7 || i == 9);
    }
    assert forall|i: int, j: int|
        0 <= i < j < acc.len() && (#[trigger] acc[i]).is_write && (#[trigger] acc[j]).is_write implies acc[i].ts
        != acc[j].ts || acc[i].loc != acc[j].loc by {
        assert(acc[i].ts == i && acc[j].ts == j);
    }
    assert(crate::slices::time_ordered::accesses_in_table(acc, TS_MAX as nat, NREG as nat));
    lemma_honest_lookups_hit(acc, TS_MAX as nat, NREG as nat);
    lemma_lookup_hits_iff_current(acc, TS_MAX as nat, NREG as nat, 9);
    assert forall|j: int| 0 <= j < 9 implies !is_read_of(#[trigger] acc[j], 1, 15) by {
    }
}

} // verus!
