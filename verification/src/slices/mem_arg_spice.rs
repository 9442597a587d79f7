//! Memory consistency through a global timestamp and a time-ordered state
//! table, for any number of writes per address: address 1 is written three
//! times (0x11, 0x22, 0x33), address 2 twice (0x55, 0x66), then both are
//! loaded. Each store and each load is looked up at its `(ts, addr)` cell, so
//! a load must claim the most recent store to its address.

use vstd::prelude::*;
use crate::slices::time_ordered::{
    TimedAccess, access_claims, cell_of, cell_value, lemma_honest_lookups_hit, lemma_lookup_hits_iff_current,
    reads_see_latest, state_table_spec,
};

verus! {

/// Addresses `0..ADDR_SPACE`.
pub const ADDR_SPACE: usize = 4;
/// Timestamps `0..TS_MAX` (`TS_MAX * ADDR_SPACE` cells, a power of two).
pub const TS_MAX: usize = 8;

pub open spec fn store(ts: usize, addr: usize, val: u64) -> TimedAccess {
    TimedAccess { ts, loc: addr, val, is_write: true }
}

pub open spec fn load(ts: usize, addr: usize, val: u64) -> TimedAccess {
    TimedAccess { ts, loc: addr, val, is_write: false }
}

pub open spec fn spice_trace_spec() -> Seq<TimedAccess> {
    seq![
        store(0, 1, 0x11),
        store(1, 2, 0x55),
        store(2, 1, 0x22),
        store(3, 2, 0x66),
        store(4, 1, 0x33),
        load(5, 1, 0x33),
        load(6, 2, 0x66),
    ]
}

/// The memory access trace: five stores, then a load of each address.
pub fn spice_trace() -> (t: Vec<TimedAccess>)
    ensures
        t@ == spice_trace_spec(),
{
    let t = vec![
        TimedAccess { ts: 0, loc: 1, val: 0x11, is_write: true },
        TimedAccess { ts: 1, loc: 2, val: 0x55, is_write: true },
        TimedAccess { ts: 2, loc: 1, val: 0x22, is_write: true },
        TimedAccess { ts: 3, loc: 2, val: 0x66, is_write: true },
        TimedAccess { ts: 4, loc: 1, val: 0x33, is_write: true },
        TimedAccess { ts: 5, loc: 1, val: 0x33, is_write: false },
        TimedAccess { ts: 6, loc: 2, val: 0x66, is_write: false },
    ];
    proof {
        assert(t@ =~= spice_trace_spec());
    }
    t
}

/// The claims with the claim of every load of `addr` at timestamp `ts`
/// replaced by `stale`.
pub fn stale_claims(trace: &[TimedAccess], claims: &[u64], ts: usize, addr: usize, stale: u64) -> (r: Vec<u64>)
    requires
        claims@.len() == trace@.len(),
    ensures
        r@ == Seq::new(
            claims@.len(),
            |i: int|
                if trace@[i].ts == ts && trace@[i].loc == addr && !trace@[i].is_write {
                    stale
                } else {
                    claims@[i]
                },
        ),
{
    let n = claims.len();
    let mut r: Vec<u64> = Vec::new();
    let mut i: usize = 0;
    while i < n
        invariant
            i <= n,
            n == claims@.len(),
            claims@.len() == trace@.len(),
            r@.len() == i,
            forall|q: int|
                0 <= q < i ==> #[trigger] r@[q] == (if trace@[q].ts == ts && trace@[q].loc == addr && !trace@[q].is_write {
                    stale
                } else {
                    claims@[q]
                }),
        decreases n - i,
    {
        let a = trace[i];
        if a.ts == ts && a.loc == addr && !a.is_write {
            r.push(stale);
        } else {
            r.push(claims[i]);
        }
        i = i + 1;
    }
    proof {
        assert(r@ =~= Seq::new(
            claims@.len(),
            |i: int|
                if trace@[i].ts == ts && trace@[i].loc == addr && !trace@[i].is_write {
                    stale
                } else {
                    claims@[i]
                },
        ));
    }
    r
}

/// Every load of the trace reads the most recent store to its address, so
/// every store and load is found in the time-ordered table; the load of
/// address 1 at timestamp 5 claiming 0x11 (overwritten at timestamps 2 and 4)
/// is not.
pub proof fn lemma_spice_trace_consistent()
    ensures
        reads_see_latest(spice_trace_spec()),
        forall|i: int|
            0 <= i < spice_trace_spec().len() ==> state_table_spec(spice_trace_spec(), TS_MAX as nat, ADDR_SPACE as nat)[
                #[trigger] access_claims(spice_trace_spec(), ADDR_SPACE as nat)[i].0 as int] == access_claims(
                spice_trace_spec(),
                ADDR_SPACE as nat,
            )[i].1,
        state_table_spec(spice_trace_spec(), TS_MAX as nat, ADDR_SPACE as nat)[cell_of(
            spice_trace_spec()[5],
            ADDR_SPACE as nat,
        )] != 0x11,
{
    let acc = spice_trace_spec();
    reveal_with_fuel(crate::slices::time_ordered::apply_writes_at, 8);
    reveal_with_fuel(cell_value, 7);
    assert(cell_value(acc, 5, 1) == 0x33);
    assert(cell_value(acc, 6, 2) == 0x66);
    assert forall|i: int| 0 <= i < acc.len() && !(#[trigger] acc[i]).is_write implies acc[i].val == cell_value(
        acc,
        acc[i].ts as nat,
        acc[i].loc as int,
    ) by {
        assert(i == 5 || i == 6);
    }
    assert forall|i: int, j: int|
        0 <= i < j < acc.len() && (#[trigger] acc[i]).is_write && (#[trigger] acc[j]).is_write implies acc[i].ts
        != acc[j].ts || acc[i].loc != acc[j].loc by {
        assert(acc[i].ts == i && acc[j].ts == j);
    }
    assert(crate::slices::time_ordered::accesses_in_table(acc, TS_MAX as nat, ADDR_SPACE as nat));
    lemma_honest_lookups_hit(acc, TS_MAX as nat, ADDR_SPACE as nat);
    lemma_lookup_hits_iff_current(acc, TS_MAX as nat, ADDR_SPACE as nat, 5);
}

} // verus!
