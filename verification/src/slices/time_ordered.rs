//! Time-ordered state tables over an access trace. Every access carries a
//! global timestamp; the table holds, for each timestamp `ts` and location
//! `loc`, the value of `loc` as of `ts`: zero at first, then the value of the
//! last write to `loc` at each timestamp up to `ts`. An access is looked up at
//! its own `(ts, loc)` cell, so a read that claims anything but the most
//! recent write misses the table.

use vstd::prelude::*;
use crate::vm32::pipeline::{claims_match, lemma_claims_match_intro};

verus! {

/// One access of a trace: a read or a write of `loc` at timestamp `ts`.
#[derive(Clone, Copy, Debug, PartialEq, Eq, Structural)]
pub struct TimedAccess {
    pub ts: usize,
    pub loc: usize,
    pub val: u64,
    pub is_write: bool,
}

/// The value of `loc` after applying, in order, the writes of `acc[..n]`
/// made at timestamp `ts`, starting from `prev`.
pub open spec fn apply_writes_at(acc: Seq<TimedAccess>, n: nat, ts: int, loc: int, prev: u64) -> u64
    decreases n,
{
    if n == 0 {
        prev
    } else {
        let a = acc[n - 1];
        if a.is_write && a.ts == ts && a.loc == loc {
            a.val
        } else {
            apply_writes_at(acc, (n - 1) as nat, ts, loc, prev)
        }
    }
}

/// The value of `loc` as of timestamp `ts`: zero before any write, then the
/// last write (in trace order) at each timestamp up to and including `ts`.
pub open spec fn cell_value(acc: Seq<TimedAccess>, ts: nat, loc: int) -> u64
    decreases ts,
{
    let prev: u64 = if ts == 0 { 0 } else { cell_value(acc, (ts - 1) as nat, loc) };
    apply_writes_at(acc, acc.len(), ts as int, loc, prev)
}

/// The table itself: cell `ts * width + loc` holds `cell_value(acc, ts, loc)`.
pub open spec fn state_table_spec(acc: Seq<TimedAccess>, ts_max: nat, width: nat) -> Seq<u64> {
    Seq::new(ts_max * width, |k: int| cell_value(acc, (k / (width as int)) as nat, k % (width as int)))
}

/// The cell an access is looked up at.
pub open spec fn cell_of(a: TimedAccess, width: nat) -> int {
    a.ts * width + a.loc
}

/// One lookup per access, in trace order: its cell and the value it claims.
pub open spec fn access_claims(acc: Seq<TimedAccess>, width: nat) -> Seq<(usize, u64)> {
    Seq::new(acc.len(), |i: int| (cell_of(acc[i], width) as usize, acc[i].val))
}

/// Every write made before `ts_max` names a location below `width`.
pub open spec fn writes_in_range(acc: Seq<TimedAccess>, ts_max: nat, width: nat) -> bool {
    forall|i: int| 0 <= i < acc.len() && (#[trigger] acc[i]).is_write && acc[i].ts < ts_max ==> acc[i].loc < width
}

/// Every access lies inside the table.
pub open spec fn accesses_in_table(acc: Seq<TimedAccess>, ts_max: nat, width: nat) -> bool {
    forall|i: int| 0 <= i < acc.len() ==> (#[trigger] acc[i]).ts < ts_max && acc[i].loc < width
}

/// Every read claims the current value of its location.
pub open spec fn reads_see_latest(acc: Seq<TimedAccess>) -> bool {
    forall|i: int|
        0 <= i < acc.len() && !(#[trigger] acc[i]).is_write ==> acc[i].val == cell_value(acc, acc[i].ts as nat, acc[i].loc as int)
}

/// Builds the time-ordered state table of `acc` over `ts_max` timestamps and
/// `width` locations.
pub fn state_table(acc: &[TimedAccess], ts_max: usize, width: usize) -> (t: Vec<u64>)
    requires
        ts_max * width <= usize::MAX,
        writes_in_range(acc@, ts_max as nat, width as nat),
    ensures
        t@ == state_table_spec(acc@, ts_max as nat, width as nat),
{
    let ghost w = width as int;
    let mut t: Vec<u64> = Vec::new();
    let mut current: Vec<u64> = Vec::new();
    let mut l: usize = 0;
    while l < width
        invariant
            l <= width,
            current@.len() == l,
            forall|k: int| 0 <= k < l ==> current@[k] == 0,
        decreases width - l,
    {
        current.push(0);
        l = l + 1;
    }
    let n = acc.len();
    let mut ts: usize = 0;
    while ts < ts_max
        invariant
            ts <= ts_max,
            w == width as int,
            n == acc@.len(),
            ts_max * width <= usize::MAX,
            writes_in_range(acc@, ts_max as nat, width as nat),
            current@.len() == width,
            t@.len() == ts * width,
            forall|k: int| 0 <= k < t@.len() ==> #[trigger] t@[k] == cell_value(acc@, (k / w) as nat, k % w),
            forall|c: int| 0 <= c < width ==> #[trigger] current@[c] == (if ts == 0 { 0 } else { cell_value(acc@, (ts - 1) as nat, c) }),
        decreases ts_max - ts,
    {
        let ghost prev = current@;
        let mut j: usize = 0;
        while j < n
            invariant
                j <= n,
                n == acc@.len(),
                ts < ts_max,
                writes_in_range(acc@, ts_max as nat, width as nat),
                current@.len() == width,
                prev.len() == width,
                forall|c: int| 0 <= c < width ==> #[trigger] current@[c] == apply_writes_at(acc@, j as nat, ts as int, c, prev[c]),
            decreases n - j,
        {
            let a = acc[j];
            if a.ts == ts && a.is_write {
                assert(acc@[j as int].is_write && acc@[j as int].ts < ts_max);
                current.set(a.loc, a.val);
            }
            j = j + 1;
        }
        proof {
            assert forall|c: int| 0 <= c < width implies #[trigger] current@[c] == cell_value(acc@, ts as nat, c) by {
                assert(cell_value(acc@, ts as nat, c) == apply_writes_at(acc@, acc@.len(), ts as int, c, prev[c]));
            }
        }
        let ghost before = t@;
        let mut c: usize = 0;
        while c < width
            invariant
                c <= width,
                w == width as int,
                ts < ts_max,
                ts_max * width <= usize::MAX,
                current@.len() == width,
                before.len() == ts * width,
                t@.len() == ts * width + c,
                forall|k: int| 0 <= k < before.len() ==> #[trigger] t@[k] == before[k],
                forall|k: int| 0 <= k < before.len() ==> #[trigger] before[k] == cell_value(acc@, (k / w) as nat, k % w),
                forall|k: int| 0 <= k < c ==> #[trigger] t@[ts * width + k] == current@[k],
                forall|k: int| 0 <= k < width ==> #[trigger] current@[k] == cell_value(acc@, ts as nat, k),
            decreases width - c,
        {
            proof {
                assert((ts + 1) * width <= ts_max * width) by (nonlinear_arith)
                    requires
                        ts < ts_max,
                ;
                assert((ts + 1) * width == ts * width + width) by (nonlinear_arith);
            }
            t.push(current[c]);
            c = c + 1;
        }
        proof {
            assert((ts + 1) * width == ts * width + width) by (nonlinear_arith);
            assert forall|k: int| 0 <= k < t@.len() implies #[trigger] t@[k] == cell_value(acc@, (k / w) as nat, k % w) by {
                if k >= ts * width {
                    let c = k - ts * width;
                    assert(t@.len() == ts * width + width);
                    assert(0 <= c < w);
                    assert(k == (ts as int) * w + c);
                    vstd::arithmetic::div_mod::lemma_fundamental_div_mod_converse(k, w, ts as int, c);
                    assert(t@[ts * width + c] == current@[c]);
                } else {
                    assert(t@[k] == before[k]);
                }
            }
            assert forall|c: int| 0 <= c < width implies #[trigger] current@[c] == (if ts + 1 == 0 { 0 } else { cell_value(acc@, ts as nat, c) }) by {
            }
        }
        ts = ts + 1;
    }
    proof {
        assert(t@ =~= state_table_spec(acc@, ts_max as nat, width as nat));
    }
    t
}

/// One lookup per access, in trace order: the cell `ts * width + loc` and the
/// claimed value.
pub fn access_lookups(acc: &[TimedAccess], width: usize) -> (r: (Vec<Vec<usize>>, Vec<u64>))
    requires
        forall|i: int| 0 <= i < acc@.len() ==> cell_of(#[trigger] acc@[i], width as nat) <= usize::MAX,
    ensures
        claims_match(r.0@, r.1@, access_claims(acc@, width as nat)),
{
    let ghost cl = access_claims(acc@, width as nat);
    let mut idx: Vec<Vec<usize>> = Vec::new();
    let mut claims: Vec<u64> = Vec::new();
    let n = acc.len();
    let mut i: usize = 0;
    while i < n
        invariant
            i <= n,
            n == acc@.len(),
            cl == access_claims(acc@, width as nat),
            forall|q: int| 0 <= q < acc@.len() ==> cell_of(#[trigger] acc@[q], width as nat) <= usize::MAX,
            idx@.len() == i,
            claims@.len() == i,
            forall|q: int| 0 <= q < i ==> (#[trigger] idx@[q])@ =~= seq![cl[q].0],
            forall|q: int| 0 <= q < i ==> #[trigger] claims@[q] == cl[q].1,
        decreases n - i,
    {
        let a = acc[i];
        assert(cell_of(acc@[i as int], width as nat) <= usize::MAX);
        proof {
            assert(a.ts * width <= a.ts * width + a.loc);
        }
        let cell = a.ts * width + a.loc;
        let mut v: Vec<usize> = Vec::new();
        v.push(cell);
        let ghost before = idx@;
        idx.push(v);
        claims.push(a.val);
        proof {
            assert forall|q: int| 0 <= q < i + 1 implies (#[trigger] idx@[q])@ =~= seq![cl[q].0] by {
                if q < i {
                    assert(idx@[q] == before[q]);
                }
            }
        }
        i = i + 1;
    }
    proof {
        lemma_claims_match_intro(idx@, claims@, cl);
    }
    (idx, claims)
}

/// A write is what its cell holds, unless a later access of the trace writes
/// the same location at the same timestamp.
pub proof fn lemma_write_is_current(acc: Seq<TimedAccess>, i: int)
    requires
        0 <= i < acc.len(),
        acc[i].is_write,
        forall|j: int|
            i < j < acc.len() && (#[trigger] acc[j]).is_write ==> acc[j].ts != acc[i].ts || acc[j].loc != acc[i].loc,
    ensures
        cell_value(acc, acc[i].ts as nat, acc[i].loc as int) == acc[i].val,
{
    let ts = acc[i].ts as nat;
    let loc = acc[i].loc as int;
    let prev: u64 = if ts == 0 { 0 } else { cell_value(acc, (ts - 1) as nat, loc) };
    lemma_last_write_wins(acc, acc.len(), i, prev);
}

proof fn lemma_last_write_wins(acc: Seq<TimedAccess>, n: nat, i: int, prev: u64)
    requires
        0 <= i < n <= acc.len(),
        acc[i].is_write,
        forall|j: int|
            i < j < acc.len() && (#[trigger] acc[j]).is_write ==> acc[j].ts != acc[i].ts || acc[j].loc != acc[i].loc,
    ensures
        apply_writes_at(acc, n, acc[i].ts as int, acc[i].loc as int, prev) == acc[i].val,
    decreases n,
{
    if n - 1 != i {
        lemma_last_write_wins(acc, (n - 1) as nat, i, prev);
    }
}

/// The lookup of access `i` hits the table exactly when it claims the
/// current value of its location at its timestamp: an honest read or write
/// is found, a stale one is not.
pub proof fn lemma_lookup_hits_iff_current(acc: Seq<TimedAccess>, ts_max: nat, width: nat, i: int)
    requires
        0 <= i < acc.len(),
        acc[i].ts < ts_max,
        acc[i].loc < width,
    ensures
        0 <= cell_of(acc[i], width) < ts_max * width,
        (state_table_spec(acc, ts_max, width)[cell_of(acc[i], width)] == acc[i].val)
            <==> (acc[i].val == cell_value(acc, acc[i].ts as nat, acc[i].loc as int)),
{
    let a = acc[i];
    let k = cell_of(a, width);
    assert(k < ts_max * width) by (nonlinear_arith)
        requires
            k == a.ts * width + a.loc,
            a.ts < ts_max,
            a.loc < width,
    ;
    assert(0 <= k) by (nonlinear_arith)
        requires
            k == a.ts * width + a.loc,
    ;
    vstd::arithmetic::div_mod::lemma_fundamental_div_mod_converse(k, width as int, a.ts as int, a.loc as int);
}

/// On a trace whose reads all see the most recent write, and whose writes are
/// each the last one at their location and timestamp, every lookup hits its
/// cell of the state table.
pub proof fn lemma_honest_lookups_hit(acc: Seq<TimedAccess>, ts_max: nat, width: nat)
    requires
        ts_max * width <= usize::MAX,
        accesses_in_table(acc, ts_max, width),
        reads_see_latest(acc),
        forall|i: int, j: int|
            0 <= i < j < acc.len() && (#[trigger] acc[i]).is_write && (#[trigger] acc[j]).is_write ==> acc[i].ts
                != acc[j].ts || acc[i].loc != acc[j].loc,
    ensures
        forall|i: int|
            0 <= i < acc.len() ==> state_table_spec(acc, ts_max, width)[#[trigger] access_claims(acc, width)[i].0 as int]
                == access_claims(acc, width)[i].1,
{
    assert forall|i: int| 0 <= i < acc.len() implies state_table_spec(acc, ts_max, width)[#[trigger] access_claims(
        acc,
        width,
    )[i].0 as int] == access_claims(acc, width)[i].1 by {
        assert(acc[i].ts < ts_max && acc[i].loc < width);
        lemma_lookup_hits_iff_current(acc, ts_max, width, i);
        if acc[i].is_write {
            lemma_write_is_current(acc, i);
        }
    }
}

} // verus!
