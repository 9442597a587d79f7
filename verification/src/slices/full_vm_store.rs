//! The read-modify-write full VM: `N` rounds of
//! `t = mem[0]; x1 += t; mem[0] = x1; i += 1; pc += 4` from `mem[0] = 2`.
//! Round `r` loads at timestamp `2r` and stores at `2r + 1`. The data table is
//! the time-ordered state table (`time_ordered::state_table`) of the trace
//! that first writes the initial value at every address at timestamp 0 and
//! then makes the rounds' loads and stores.

use vstd::prelude::*;
use crate::slices::time_ordered::{
    TimedAccess, access_claims, cell_value, lemma_honest_lookups_hit, reads_see_latest, state_table_spec,
};

verus! {

pub const PC_INC: u64 = 4;
/// Rounds.
pub const N: usize = 3;
pub const START_PC: u64 = 0x00;
pub const START_X1: u64 = 0x00;
/// Initial value of the data words.
pub const MEM_INIT: u64 = 2;
/// Data memory addresses.
pub const ADDR: usize = 4;
/// Timestamps of the state table.
pub const TS_MAX: usize = 8;
/// Address bits of the program table.
pub const FETCH_M: usize = 6;

/// `(mem[0], x1)` after `r` rounds: both double every round.
pub open spec fn rmw_state(r: nat) -> (u64, u64)
    decreases r,
{
    if r == 0 {
        (MEM_INIT, START_X1)
    } else {
        let (m, x) = rmw_state((r - 1) as nat);
        let nx = x.wrapping_add(m);
        (nx, nx)
    }
}

/// The native run: per-round loads and stores and the x1, i and pc chains.
pub struct RmwRun {
    pub load_vals: Vec<u64>,
    pub stores: Vec<u64>,
    pub x1_chain: Vec<u64>,
    pub i_chain: Vec<u64>,
    pub pc_chain: Vec<u64>,
}

pub fn rmw_rounds() -> (m: RmwRun)
    ensures
        m.load_vals@ == Seq::new(N as nat, |r: int| rmw_state(r as nat).0),
        m.stores@ == Seq::new(N as nat, |r: int| rmw_state((r + 1) as nat).1),
        m.x1_chain@ == Seq::new((N + 1) as nat, |r: int| rmw_state(r as nat).1),
        m.i_chain@ == Seq::new((N + 1) as nat, |r: int| r as u64),
        m.pc_chain@ == Seq::new((N + 1) as nat, |r: int| (START_PC + 4 * r) as u64),
        m.load_vals@ == seq![2u64, 2u64, 4u64],
        m.stores@ == seq![2u64, 4u64, 8u64],
{
    let mut load_vals: Vec<u64> = Vec::new();
    let mut stores: Vec<u64> = Vec::new();
    let mut x1_chain: Vec<u64> = Vec::new();
    x1_chain.push(START_X1);
    let mut i_chain: Vec<u64> = Vec::new();
    i_chain.push(0);
    let mut pc_chain: Vec<u64> = Vec::new();
    pc_chain.push(START_PC);
    let mut mem0: u64 = MEM_INIT;
    let mut t: usize = 0;
    while t < N
        invariant
            t <= N,
            mem0 == rmw_state(t as nat).0,
            load_vals@ == Seq::new(t as nat, |r: int| rmw_state(r as nat).0),
            stores@ == Seq::new(t as nat, |r: int| rmw_state((r + 1) as nat).1),
            x1_chain@ == Seq::new((t + 1) as nat, |r: int| rmw_state(r as nat).1),
            i_chain@ == Seq::new((t + 1) as nat, |r: int| r as u64),
            pc_chain@ == Seq::new((t + 1) as nat, |r: int| (START_PC + 4 * r) as u64),
        decreases N - t,
    {
        let lv = mem0;
        load_vals.push(lv);
        let last = x1_chain[x1_chain.len() - 1];
        let nx = last.wrapping_add(lv);
        x1_chain.push(nx);
        stores.push(nx);
        mem0 = nx;
        let ni = i_chain[i_chain.len() - 1] + 1;
        i_chain.push(ni);
        let np = pc_chain[pc_chain.len() - 1] + PC_INC;
        pc_chain.push(np);
        proof {
            assert(load_vals@ =~= Seq::new((t + 1) as nat, |r: int| rmw_state(r as nat).0));
            assert(stores@ =~= Seq::new((t + 1) as nat, |r: int| rmw_state((r + 1) as nat).1));
            assert(x1_chain@ =~= Seq::new((t + 2) as nat, |r: int| rmw_state(r as nat).1));
            assert(i_chain@ =~= Seq::new((t + 2) as nat, |r: int| r as u64));
            assert(pc_chain@ =~= Seq::new((t + 2) as nat, |r: int| (START_PC + 4 * r) as u64));
        }
        t = t + 1;
    }
    proof {
        reveal_with_fuel(rmw_state, 4);
        assert(load_vals@ =~= seq![2u64, 2u64, 4u64]);
        assert(stores@ =~= seq![2u64, 4u64, 8u64]);
    }
    RmwRun { load_vals, stores, x1_chain, i_chain, pc_chain }
}

/// The data-memory trace: the initial value written at every address at
/// timestamp 0, then for each round its load of word 0 at `2r` and its store
/// at `2r + 1`.
pub open spec fn rmw_trace_spec(loads: Seq<u64>, stores: Seq<u64>) -> Seq<TimedAccess> {
    Seq::new(
        ADDR as nat,
        |a: int| TimedAccess { ts: 0, loc: a as usize, val: MEM_INIT, is_write: true },
    ) + Seq::new(
        (2 * loads.len()) as nat,
        |j: int|
            if j % 2 == 0 {
                TimedAccess { ts: j as usize, loc: 0, val: loads[j / 2], is_write: false }
            } else {
                TimedAccess { ts: j as usize, loc: 0, val: stores[j / 2], is_write: true }
            },
    )
}

pub fn rmw_trace(loads: &[u64], stores: &[u64]) -> (t: Vec<TimedAccess>)
    requires
        loads@.len() == stores@.len(),
        2 * loads@.len() <= usize::MAX,
    ensures
        t@ == rmw_trace_spec(loads@, stores@),
{
    let mut t: Vec<TimedAccess> = Vec::new();
    let mut a: usize = 0;
    while a < ADDR
        invariant
            a <= ADDR,
            t@ == Seq::new(a as nat, |q: int| TimedAccess { ts: 0, loc: q as usize, val: MEM_INIT, is_write: true }),
        decreases ADDR - a,
    {
        t.push(TimedAccess { ts: 0, loc: a, val: MEM_INIT, is_write: true });
        proof {
            assert(t@ =~= Seq::new((a + 1) as nat, |q: int| TimedAccess { ts: 0, loc: q as usize, val: MEM_INIT, is_write: true }));
        }
        a = a + 1;
    }
    let ghost head = t@;
    let n = loads.len();
    let mut r: usize = 0;
    while r < n
        invariant
            r <= n,
            n == loads@.len(),
            loads@.len() == stores@.len(),
            2 * loads@.len() <= usize::MAX,
            head == Seq::new(ADDR as nat, |q: int| TimedAccess { ts: 0, loc: q as usize, val: MEM_INIT, is_write: true }),
            t@ == head + Seq::new(
                (2 * r) as nat,
                |j: int|
                    if j % 2 == 0 {
                        TimedAccess { ts: j as usize, loc: 0, val: loads@[j / 2], is_write: false }
                    } else {
                        TimedAccess { ts: j as usize, loc: 0, val: stores@[j / 2], is_write: true }
                    },
            ),
        decreases n - r,
    {
        t.push(TimedAccess { ts: 2 * r, loc: 0, val: loads[r], is_write: false });
        t.push(TimedAccess { ts: 2 * r + 1, loc: 0, val: stores[r], is_write: true });
        proof {
            let tail = Seq::new(
                (2 * (r + 1)) as nat,
                |j: int|
                    if j % 2 == 0 {
                        TimedAccess { ts: j as usize, loc: 0, val: loads@[j / 2], is_write: false }
                    } else {
                        TimedAccess { ts: j as usize, loc: 0, val: stores@[j / 2], is_write: true }
                    },
            );
            assert(tail[2 * r] == TimedAccess { ts: (2 * r) as usize, loc: 0, val: loads@[r as int], is_write: false });
            assert(tail[2 * r + 1] == TimedAccess { ts: (2 * r + 1) as usize, loc: 0, val: stores@[r as int], is_write: true });
            assert(t@ =~= head + tail);
        }
        r = r + 1;
    }
    t
}

/// Every load of the run reads the word's value at its timestamp, so every
/// lookup of the trace (the initial writes, the loads and the stores) finds
/// its value in the time-ordered table.
pub proof fn lemma_rmw_lookups_hit()
    ensures
        ({
            let acc = rmw_trace_spec(seq![2u64, 2u64, 4u64], seq![2u64, 4u64, 8u64]);
            &&& reads_see_latest(acc)
            &&& forall|i: int|
                0 <= i < acc.len() ==> state_table_spec(acc, TS_MAX as nat, ADDR as nat)[
                    #[trigger] access_claims(acc, ADDR as nat)[i].0 as int] == access_claims(acc, ADDR as nat)[i].1
        }),
{
    let acc = rmw_trace_spec(seq![2u64, 2u64, 4u64], seq![2u64, 4u64, 8u64]);
    let loads = seq![2u64, 2u64, 4u64];
    let stores = seq![2u64, 4u64, 8u64];
    assert(acc =~= seq![
        TimedAccess { ts: 0, loc: 0, val: 2, is_write: true },
        TimedAccess { ts: 0, loc: 1, val: 2, is_write: true },
        TimedAccess { ts: 0, loc: 2, val: 2, is_write: true },
        TimedAccess { ts: 0, loc: 3, val: 2, is_write: true },
        TimedAccess { ts: 0, loc: 0, val: 2, is_write: false },
        TimedAccess { ts: 1, loc: 0, val: 2, is_write: true },
        TimedAccess { ts: 2, loc: 0, val: 2, is_write: false },
        TimedAccess { ts: 3, loc: 0, val: 4, is_write: true },
        TimedAccess { ts: 4, loc: 0, val: 4, is_write: false },
        TimedAccess { ts: 5, loc: 0, val: 8, is_write: true },
    ]);
    reveal_with_fuel(crate::slices::time_ordered::apply_writes_at, 11);
    reveal_with_fuel(cell_value, 6);
    assert(cell_value(acc, 0, 0) == 2);
    assert(cell_value(acc, 2, 0) == 2);
    assert(cell_value(acc, 4, 0) == 4);
    assert forall|i: int| 0 <= i < acc.len() && !(#[trigger] acc[i]).is_write implies acc[i].val == cell_value(
        acc,
        acc[i].ts as nat,
        acc[i].loc as int,
    ) by {
        assert(i == 4 || i == 6 || i == 8);
    }
    assert forall|i: int, j: int|
        0 <= i < j < acc.len() && (#[trigger] acc[i]).is_write && (#[trigger] acc[j]).is_write implies acc[i].ts
        != acc[j].ts || acc[i].loc != acc[j].loc by {
    }
    assert(crate::slices::time_ordered::accesses_in_table(acc, TS_MAX as nat, ADDR as nat));
    lemma_honest_lookups_hit(acc, TS_MAX as nat, ADDR as nat);
}

} // verus!
