//! Jolt-shaped trace rows and the memory accesses they yield.
//!
//! A row packs its operands into four slots whose meaning depends on the row
//! kind (loads and stores alias the register slots); the accessors recover
//! the logical values. Stores become versioned writes (the version counts the
//! earlier stores to the same address), loads become reads; the write log and
//! the read-state table of the memory argument are built from them.

use vstd::prelude::*;
use crate::vm32::pipeline::claims_match;
use std::collections::HashMap;

verus! {

#[derive(Clone, Copy, PartialEq, Eq, Debug, Structural)]
pub enum RowKind {
    NonMemory,
    Load,
    Store,
}

#[derive(Clone, Copy, Debug)]
pub struct JoltTraceRow {
    pub kind: RowKind,
    pub rs1_value: u64,
    /// rs2 value; the load address on a load row.
    pub rs2_value_or_load_addr: u64,
    /// rd before the write; the old memory word on a store row.
    pub rd_pre_or_store_pre: u64,
    /// rd after the write (the loaded word on a load row); the store address on a store row.
    pub rd_post_or_store_addr: u64,
}

impl JoltTraceRow {
    pub fn rs1_value(&self) -> (v: u64)
        ensures
            v == self.rs1_value,
    {
        self.rs1_value
    }

    pub open spec fn rs2_spec(self) -> u64 {
        match self.kind {
            RowKind::Load => 0,
            _ => self.rs2_value_or_load_addr,
        }
    }

    pub fn rs2_value(&self) -> (v: u64)
        ensures
            v == self.rs2_spec(),
    {
        match self.kind {
            RowKind::Load => 0,
            _ => self.rs2_value_or_load_addr,
        }
    }

    pub fn rd_pre_value(&self) -> (v: u64)
        ensures
            v == self.rd_pre_or_store_pre,
    {
        self.rd_pre_or_store_pre
    }

    pub open spec fn rd_write_spec(self) -> u64 {
        match self.kind {
            RowKind::Store => 0,
            _ => self.rd_post_or_store_addr,
        }
    }

    pub fn rd_write_value(&self) -> (v: u64)
        ensures
            v == self.rd_write_spec(),
    {
        match self.kind {
            RowKind::Store => 0,
            _ => self.rd_post_or_store_addr,
        }
    }

    pub open spec fn address_spec(self) -> u64 {
        match self.kind {
            RowKind::Load => self.rs2_value_or_load_addr,
            RowKind::Store => self.rd_post_or_store_addr,
            RowKind::NonMemory => 0,
        }
    }

    pub fn ram_address(&self) -> (v: u64)
        ensures
            v == self.address_spec(),
    {
        match self.kind {
            RowKind::Load => self.rs2_value_or_load_addr,
            RowKind::Store => self.rd_post_or_store_addr,
            RowKind::NonMemory => 0,
        }
    }

    pub open spec fn read_spec(self) -> u64 {
        match self.kind {
            RowKind::Load => self.rd_post_or_store_addr,
            RowKind::Store => self.rd_pre_or_store_pre,
            RowKind::NonMemory => 0,
        }
    }

    pub fn ram_read_value(&self) -> (v: u64)
        ensures
            v == self.read_spec(),
    {
        match self.kind {
            RowKind::Load => self.rd_post_or_store_addr,
            RowKind::Store => self.rd_pre_or_store_pre,
            RowKind::NonMemory => 0,
        }
    }

    pub open spec fn write_spec(self) -> u64 {
        match self.kind {
            RowKind::Load => self.rd_post_or_store_addr,
            RowKind::Store => self.rs2_value_or_load_addr,
            RowKind::NonMemory => 0,
        }
    }

    pub fn ram_write_value(&self) -> (v: u64)
        ensures
            v == self.write_spec(),
    {
        match self.kind {
            RowKind::Load => self.rd_post_or_store_addr,
            RowKind::Store => self.rs2_value_or_load_addr,
            RowKind::NonMemory => 0,
        }
    }
}

/// A memory access taken from a trace row.
#[derive(Clone, Copy, PartialEq, Eq, Debug, Structural)]
pub enum Access {
    Write { addr: u64, ver: u32, value: u64 },
    Read { addr: u64, value: u64 },
}

/// Number of store rows of `rows` at address `a`.
pub open spec fn stores_to(rows: Seq<JoltTraceRow>, a: u64) -> nat
    decreases rows.len(),
{
    if rows.len() == 0 {
        0
    } else {
        stores_to(rows.drop_last(), a) + (if rows.last().kind == RowKind::Store
            && rows.last().address_spec() == a {
            1nat
        } else {
            0nat
        })
    }
}

/// The accesses of `rows`, in order: a versioned write per store, a read per load.
pub open spec fn accesses(rows: Seq<JoltTraceRow>) -> Seq<Access>
    decreases rows.len(),
{
    if rows.len() == 0 {
        seq![]
    } else {
        let prev = accesses(rows.drop_last());
        let r = rows.last();
        match r.kind {
            RowKind::Store => prev.push(
                Access::Write {
                    addr: r.address_spec(),
                    ver: stores_to(rows.drop_last(), r.address_spec()) as u32,
                    value: r.write_spec(),
                },
            ),
            RowKind::Load => prev.push(Access::Read { addr: r.address_spec(), value: r.read_spec() }),
            RowKind::NonMemory => prev,
        }
    }
}

proof fn lemma_stores_bound(rows: Seq<JoltTraceRow>, a: u64)
    ensures
        stores_to(rows, a) <= rows.len(),
    decreases rows.len(),
{
    if rows.len() > 0 {
        lemma_stores_bound(rows.drop_last(), a);
    }
}

/// `vc` counts, for every address with a store among `rows`, its stores.
pub open spec fn counts_ok(vc: Map<u64, u32>, rows: Seq<JoltTraceRow>) -> bool {
    forall|a: u64|
        #[trigger] stores_to(rows, a) == (if vc.contains_key(a) {
            vc[a] as nat
        } else {
            0nat
        })
}

/// The store count `vc` gives `a`, 0 when it has none.
fn count_get(vc: &HashMap<u64, u32>, a: u64) -> (n: u32)
    ensures
        n == (if vc@.contains_key(a) {
            vc@[a]
        } else {
            0
        }),
{
    broadcast use vstd::std_specs::hash::group_hash_axioms;

    match vc.get(&a) {
        Some(n) => *n,
        None => 0,
    }
}

/// The memory accesses of a trace: a write per store (versioned by the
/// earlier stores to its address), a read per load.
pub fn accesses_of(trace: &[JoltTraceRow]) -> (acc: Vec<Access>)
    requires
        trace@.len() <= u32::MAX,
    ensures
        acc@ == accesses(trace@),
{
    broadcast use vstd::std_specs::hash::group_hash_axioms;

    let mut acc: Vec<Access> = Vec::new();
    let mut version_counter: HashMap<u64, u32> = HashMap::new();
    let mut i: usize = 0;
    while i < trace.len()
        invariant
            i <= trace@.len() <= u32::MAX,
            acc@ == accesses(trace@.take(i as int)),
            counts_ok(version_counter@, trace@.take(i as int)),
        decreases trace.len() - i,
    {
        let row = trace[i];
        let ghost pre = trace@.take(i as int);
        let ghost vc0 = version_counter@;
        assert(trace@.take(i + 1).drop_last() =~= pre);
        assert(trace@.take(i + 1).last() == row);
        match row.kind {
            RowKind::Store => {
                let addr = row.ram_address();
                let val = row.ram_write_value();
                let ver = count_get(&version_counter, addr);
                proof {
                    lemma_stores_bound(pre, addr);
                    assert(ver as nat == stores_to(pre, addr));
                }
                version_counter.insert(addr, ver + 1);
                acc.push(Access::Write { addr, ver, value: val });
            },
            RowKind::Load => {
                let addr = row.ram_address();
                let val = row.ram_read_value();
                acc.push(Access::Read { addr, value: val });
            },
            RowKind::NonMemory => {},
        }
        proof {
            let post = trace@.take(i + 1);
            assert forall|a: u64| #[trigger] stores_to(post, a) == (if version_counter@.contains_key(a) {
                version_counter@[a] as nat
            } else {
                0nat
            }) by {
                assert(stores_to(pre, a) == (if vc0.contains_key(a) {
                    vc0[a] as nat
                } else {
                    0nat
                }));
            }
        }
        i = i + 1;
    }
    assert(trace@.take(i as int) =~= trace@);
    acc
}

/// Write-log slot of a write: `(addr mod space) * versions + (ver mod versions)`.
pub open spec fn write_slot(addr: u64, ver: u32, space: usize, versions: usize) -> int {
    ((addr as usize) & ((space - 1) as usize)) as int * versions + (ver as usize % versions) as int
}

/// The write log after the writes of `acc`.
pub open spec fn write_table(acc: Seq<Access>, space: usize, versions: usize) -> Seq<u64>
    decreases acc.len(),
{
    if acc.len() == 0 {
        Seq::new((space * versions) as nat, |i: int| 0u64)
    } else {
        let prev = write_table(acc.drop_last(), space, versions);
        match acc.last() {
            Access::Write { addr, ver, value } => prev.update(write_slot(addr, ver, space, versions), value),
            Access::Read { .. } => prev,
        }
    }
}

/// The read-state table: at each address slot the value of the last write there (0 when none).
pub open spec fn read_table(acc: Seq<Access>, space: usize) -> Seq<u64>
    decreases acc.len(),
{
    if acc.len() == 0 {
        Seq::new(space as nat, |i: int| 0u64)
    } else {
        let prev = read_table(acc.drop_last(), space);
        match acc.last() {
            Access::Write { addr, ver, value } => prev.update(
                ((addr as usize) & ((space - 1) as usize)) as int,
                value,
            ),
            Access::Read { .. } => prev,
        }
    }
}

proof fn lemma_mask_le(a: usize, m: usize)
    ensures
        a & m <= m,
{
    assert(a & m <= m) by (bit_vector);
}

/// The write log (`space * versions` slots) and the read-state table
/// (`space` slots) of the accesses: each write fills its write-log slot, and
/// each address slot of the read state holds the value of the last write
/// that lands there.
pub fn memory_tables(acc: &[Access], space: usize, versions: usize) -> (r: (Vec<u64>, Vec<u64>))
    requires
        space >= 1,
        versions >= 1,
        space * versions <= usize::MAX,
    ensures
        r.0@ == write_table(acc@, space, versions),
        r.1@ == read_table(acc@, space),
{
    let mut w: Vec<u64> = Vec::new();
    let mut i: usize = 0;
    while i < space * versions
        invariant
            space * versions <= usize::MAX,
            i <= space * versions,
            w@ == Seq::new(i as nat, |j: int| 0u64),
        decreases space * versions - i,
    {
        w.push(0);
        assert(w@ =~= Seq::new((i + 1) as nat, |j: int| 0u64));
        i = i + 1;
    }
    let mut t: Vec<u64> = Vec::new();
    let mut i: usize = 0;
    while i < space
        invariant
            i <= space,
            t@ == Seq::new(i as nat, |j: int| 0u64),
        decreases space - i,
    {
        t.push(0);
        assert(t@ =~= Seq::new((i + 1) as nat, |j: int| 0u64));
        i = i + 1;
    }
    assert(acc@.take(0) =~= Seq::<Access>::empty());
    let mut k: usize = 0;
    while k < acc.len()
        invariant
            k <= acc@.len(),
            space >= 1,
            versions >= 1,
            space * versions <= usize::MAX,
            w@ == write_table(acc@.take(k as int), space, versions),
            t@ == read_table(acc@.take(k as int), space),
            w@.len() == space * versions,
            t@.len() == space,
        decreases acc.len() - k,
    {
        assert(acc@.take(k + 1).drop_last() =~= acc@.take(k as int));
        assert(acc@.take(k + 1).last() == acc@[k as int]);
        match acc[k] {
            Access::Write { addr, ver, value } => {
                let slot = (addr as usize) & (space - 1);
                proof {
                    lemma_mask_le(addr as usize, (space - 1) as usize);
                    assert(slot * versions + versions <= space * versions) by (nonlinear_arith)
                        requires
                            slot <= space - 1,
                            versions >= 1,
                    ;
                }
                let idx = slot * versions + (ver as usize % versions);
                w.set(idx, value);
                t.set(slot, value);
            },
            Access::Read { .. } => {},
        }
        k = k + 1;
    }
    assert(acc@.take(k as int) =~= acc@);
    (w, t)
}

/// Write-log lookups of the writes of `acc`, in order: (slot, value).
pub open spec fn write_claims(acc: Seq<Access>, space: usize, versions: usize) -> Seq<(usize, u64)>
    decreases acc.len(),
{
    if acc.len() == 0 {
        seq![]
    } else {
        let prev = write_claims(acc.drop_last(), space, versions);
        match acc.last() {
            Access::Write { addr, ver, value } => prev.push(
                (write_slot(addr, ver, space, versions) as usize, value),
            ),
            Access::Read { .. } => prev,
        }
    }
}

/// Read-state lookups of the reads of `acc`, in order: (address slot, value).
pub open spec fn read_claims(acc: Seq<Access>, space: usize) -> Seq<(usize, u64)>
    decreases acc.len(),
{
    if acc.len() == 0 {
        seq![]
    } else {
        let prev = read_claims(acc.drop_last(), space);
        match acc.last() {
            Access::Read { addr, value } => prev.push(
                ((addr as usize) & ((space - 1) as usize), value),
            ),
            Access::Write { .. } => prev,
        }
    }
}

/// The lookups of the memory argument: each write looks up its write-log
/// slot with its value, each read looks up its address slot in the read
/// state with its value.
pub fn lookups_of(acc: &[Access], space: usize, versions: usize) -> (r: (
    Vec<Vec<usize>>,
    Vec<u64>,
    Vec<Vec<usize>>,
    Vec<u64>,
))
    requires
        space >= 1,
        versions >= 1,
        space * versions <= usize::MAX,
    ensures
        claims_match(r.0@, r.1@, write_claims(acc@, space, versions)),
        claims_match(r.2@, r.3@, read_claims(acc@, space)),
{
    let mut s_idx: Vec<Vec<usize>> = Vec::new();
    let mut s_val: Vec<u64> = Vec::new();
    let mut l_idx: Vec<Vec<usize>> = Vec::new();
    let mut l_val: Vec<u64> = Vec::new();
    assert(acc@.take(0) =~= Seq::<Access>::empty());
    let mut k: usize = 0;
    while k < acc.len()
        invariant
            k <= acc@.len(),
            space >= 1,
            versions >= 1,
            space * versions <= usize::MAX,
            claims_match(s_idx@, s_val@, write_claims(acc@.take(k as int), space, versions)),
            claims_match(l_idx@, l_val@, read_claims(acc@.take(k as int), space)),
        decreases acc.len() - k,
    {
        assert(acc@.take(k + 1).drop_last() =~= acc@.take(k as int));
        assert(acc@.take(k + 1).last() == acc@[k as int]);
        let ghost s0 = s_idx@;
        let ghost l0 = l_idx@;
        match acc[k] {
            Access::Write { addr, ver, value } => {
                let slot = (addr as usize) & (space - 1);
                proof {
                    lemma_mask_le(addr as usize, (space - 1) as usize);
                    assert(slot * versions + versions <= space * versions) by (nonlinear_arith)
                        requires
                            slot <= space - 1,
                            versions >= 1,
                    ;
                }
                let mut v: Vec<usize> = Vec::new();
                v.push(slot * versions + (ver as usize % versions));
                s_idx.push(v);
                s_val.push(value);
            },
            Access::Read { addr, value } => {
                let mut v: Vec<usize> = Vec::new();
                v.push((addr as usize) & (space - 1));
                l_idx.push(v);
                l_val.push(value);
            },
        }
        proof {
            let wc = write_claims(acc@.take(k + 1), space, versions);
            assert forall|i: int| 0 <= i < wc.len() implies (#[trigger] s_idx@[i])@ == seq![wc[i].0]
                && s_val@[i] == wc[i].1 by {
                if i < s0.len() {
                    assert(s_idx@[i] == s0[i]);
                }
                assert(s_idx@[i]@ =~= seq![wc[i].0]);
            }
            assert(claims_match(s_idx@, s_val@, wc));
            let rc = read_claims(acc@.take(k + 1), space);
            assert forall|i: int| 0 <= i < rc.len() implies (#[trigger] l_idx@[i])@ == seq![rc[i].0]
                && l_val@[i] == rc[i].1 by {
                if i < l0.len() {
                    assert(l_idx@[i] == l0[i]);
                }
                assert(l_idx@[i]@ =~= seq![rc[i].0]);
            }
            assert(claims_match(l_idx@, l_val@, rc));
        }
        k = k + 1;
    }
    assert(acc@.take(k as int) =~= acc@);
    (s_idx, s_val, l_idx, l_val)
}

} // verus!
