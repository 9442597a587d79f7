//! The memory table of a store/load argument: `2^nbits` slots, each store
//! writing its value at slot `addr mod 2^nbits` (later stores win, unwritten
//! slots are 0). Stores and loads both look up `(slot, value)` in this one
//! table, so a load can only claim a value that some store left in memory.

use vstd::prelude::*;
use crate::vm32::pipeline::{claims_match, lemma_claims_match_intro};

verus! {

pub open spec fn slot_mask(nbits: nat) -> usize {
    ((1usize << nbits) - 1) as usize
}

pub open spec fn slot_of(addr: usize, nbits: nat) -> int {
    (addr & slot_mask(nbits)) as int
}

/// The table after the stores `writes`, in order.
pub open spec fn slot_table_spec(writes: Seq<(usize, u64)>, nbits: nat) -> Seq<u64>
    decreases writes.len(),
{
    if writes.len() == 0 {
        Seq::new(vstd::arithmetic::power2::pow2(nbits), |i: int| 0u64)
    } else {
        let (addr, value) = writes.last();
        slot_table_spec(writes.drop_last(), nbits).update(slot_of(addr, nbits), value)
    }
}

/// The lookups of `ops`, in order: (slot, value).
pub open spec fn slot_claims(ops: Seq<(usize, u64)>, nbits: nat) -> Seq<(usize, u64)> {
    Seq::new(ops.len(), |j: int| (slot_of(ops[j].0, nbits) as usize, ops[j].1))
}

proof fn lemma_mask_facts(addr: usize, nbits: usize)
    requires
        nbits < 31,
    ensures
        (1usize << nbits) >= 1,
        slot_mask(nbits as nat) == (1usize << nbits) - 1,
        addr & slot_mask(nbits as nat) < (1usize << nbits),
{
    assert((1usize << nbits) >= 1 && (addr & (((1usize << nbits) - 1) as usize)) < (1usize << nbits)) by (bit_vector)
        requires
            nbits < 31,
    ;
}

proof fn lemma_size_is_pow2(nbits: usize)
    requires
        nbits < 31,
    ensures
        (1usize << nbits) as nat == vstd::arithmetic::power2::pow2(nbits as nat),
{
    vstd::bits::lemma_u64_pow2_no_overflow(nbits as nat);
    vstd::arithmetic::power2::lemma_pow2_strictly_increases(nbits as nat, 31);
    vstd::arithmetic::power2::lemma2_to64();
    vstd::bits::lemma_u64_shl_is_mul(1, nbits as u64);
    assert((1usize << nbits) as u64 == 1u64 << (nbits as u64)) by (bit_vector)
        requires
            nbits < 31,
    ;
}

proof fn lemma_table_len(writes: Seq<(usize, u64)>, nbits: nat)
    requires
        nbits < 31,
    ensures
        slot_table_spec(writes, nbits).len() == vstd::arithmetic::power2::pow2(nbits),
    decreases writes.len(),
{
    if writes.len() > 0 {
        lemma_table_len(writes.drop_last(), nbits);
        lemma_mask_facts(writes.last().0, nbits as usize);
        lemma_size_is_pow2(nbits as usize);
    }
}

/// The memory table of `2^nbits` slots after the stores `writes`.
pub fn slot_table(writes: &[(usize, u64)], nbits: usize) -> (t: Vec<u64>)
    requires
        nbits < 31,
    ensures
        t@ == slot_table_spec(writes@, nbits as nat),
{
    proof {
        lemma_mask_facts(0, nbits);
        lemma_size_is_pow2(nbits);
    }
    let size: usize = 1usize << nbits;
    let mask: usize = size - 1;
    let mut t: Vec<u64> = Vec::new();
    let mut i: usize = 0;
    while i < size
        invariant
            i <= size,
            t@ == Seq::new(i as nat, |q: int| 0u64),
        decreases size - i,
    {
        t.push(0);
        i = i + 1;
    }
    assert(t@ =~= slot_table_spec(writes@.take(0), nbits as nat));
    let n = writes.len();
    let mut k: usize = 0;
    while k < n
        invariant
            k <= n,
            n == writes@.len(),
            nbits < 31,
            size == (1usize << nbits),
            mask == slot_mask(nbits as nat),
            size as nat == vstd::arithmetic::power2::pow2(nbits as nat),
            t@ == slot_table_spec(writes@.take(k as int), nbits as nat),
        decreases n - k,
    {
        let (addr, value) = writes[k];
        proof {
            lemma_mask_facts(addr, nbits);
            lemma_table_len(writes@.take(k as int), nbits as nat);
            assert(writes@.take(k + 1).drop_last() =~= writes@.take(k as int));
            assert(writes@.take(k + 1).last() == writes@[k as int]);
        }
        t.set(addr & mask, value);
        k = k + 1;
    }
    assert(writes@.take(n as int) =~= writes@);
    t
}

/// The lookups of `ops` (stores or loads), in order.
pub fn slot_lookups(ops: &[(usize, u64)], nbits: usize) -> (r: (Vec<Vec<usize>>, Vec<u64>))
    requires
        nbits < 31,
    ensures
        claims_match(r.0@, r.1@, slot_claims(ops@, nbits as nat)),
{
    let ghost cl = slot_claims(ops@, nbits as nat);
    proof {
        lemma_mask_facts(0, nbits);
    }
    let mask: usize = (1usize << nbits) - 1;
    let mut idx: Vec<Vec<usize>> = Vec::new();
    let mut vals: Vec<u64> = Vec::new();
    let n = ops.len();
    let mut j: usize = 0;
    while j < n
        invariant
            j <= n,
            n == ops@.len(),
            mask == slot_mask(nbits as nat),
            cl == slot_claims(ops@, nbits as nat),
            idx@.len() == j,
            vals@.len() == j,
            forall|q: int| 0 <= q < j ==> (#[trigger] idx@[q])@ =~= seq![cl[q].0],
            forall|q: int| 0 <= q < j ==> #[trigger] vals@[q] == cl[q].1,
        decreases n - j,
    {
        let (addr, value) = ops[j];
        let mut v: Vec<usize> = Vec::new();
        v.push(addr & mask);
        let ghost before = idx@;
        idx.push(v);
        vals.push(value);
        proof {
            assert forall|q: int| 0 <= q < j + 1 implies (#[trigger] idx@[q])@ =~= seq![cl[q].0] by {
                if q < j {
                    assert(idx@[q] == before[q]);
                }
            }
        }
        j = j + 1;
    }
    proof {
        lemma_claims_match_intro(idx@, vals@, cl);
    }
    (idx, vals)
}

/// A store is found in the memory table unless a later store lands on the
/// same slot; a load is found exactly when it claims the value the table
/// holds at its slot.
pub proof fn lemma_last_store_hits(writes: Seq<(usize, u64)>, nbits: nat, j: int)
    requires
        0 <= j < writes.len(),
        nbits < 31,
        forall|k: int| j < k < writes.len() ==> slot_of(#[trigger] writes[k].0, nbits) != slot_of(writes[j].0, nbits),
    ensures
        0 <= slot_of(writes[j].0, nbits) < slot_table_spec(writes, nbits).len(),
        slot_table_spec(writes, nbits)[slot_of(writes[j].0, nbits)] == writes[j].1,
    decreases writes.len(),
{
    lemma_mask_facts(writes[j].0, nbits as usize);
    lemma_size_is_pow2(nbits as usize);
    lemma_table_len(writes, nbits);
    lemma_mask_facts(writes.last().0, nbits as usize);
    lemma_table_len(writes.drop_last(), nbits);
    if j < writes.len() - 1 {
        let w = writes.drop_last();
        assert forall|k: int| j < k < w.len() implies slot_of(#[trigger] w[k].0, nbits) != slot_of(w[j].0, nbits) by {
            assert(w[k] == writes[k]);
        }
        lemma_last_store_hits(w, nbits, j);
    }
}

} // verus!
