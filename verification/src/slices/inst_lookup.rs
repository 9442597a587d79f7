//! Instruction lookups against the AND truth table. For `nbits`-bit
//! operands the table has `2^(2 nbits)` entries: index `rs1 | (rs2 << nbits)`
//! holds `rs1 & rs2`. Each `and` row of a trace looks up its operand pair
//! with its result.

use vstd::prelude::*;
use crate::vm32::pipeline::{claims_match, lemma_claims_match_intro};

verus! {

pub open spec fn low_mask(n: u32) -> u32 {
    ((1u32 << n) - 1) as u32
}

/// The table entry at index `i`: the AND of its two operand fields.
pub open spec fn and_entry(i: u32, n: u32) -> u32 {
    (i & low_mask(n)) & ((i >> n) & low_mask(n))
}

/// The index of an operand pair.
pub open spec fn pair_index(rs1: u32, rs2: u32, n: u32) -> u32 {
    (rs1 & low_mask(n)) | ((rs2 & low_mask(n)) << n)
}

/// The lookups of a trace of `and` rows: (index of the operand pair, result).
pub open spec fn and_claims(trace: Seq<(u32, u32)>, n: u32) -> Seq<(usize, u64)> {
    Seq::new(
        trace.len(),
        |j: int|
            (
                pair_index(trace[j].0, trace[j].1, n) as usize,
                ((trace[j].0 & low_mask(n)) & (trace[j].1 & low_mask(n))) as u64,
            ),
    )
}

/// The AND truth table over `nbits`-bit operand pairs.
pub fn and_table(nbits: u32) -> (t: Vec<u64>)
    requires
        1 <= nbits <= 15,
    ensures
        t@.len() == (1u32 << (2 * nbits)),
        forall|i: int| 0 <= i < t@.len() ==> #[trigger] t@[i] == and_entry(i as u32, nbits) as u64,
{
    proof {
        assert(1u32 << nbits >= 1) by (bit_vector)
            requires
                nbits <= 15,
        ;
    }
    let mask: u32 = (1u32 << nbits) - 1;
    let size: u32 = 1u32 << (2 * nbits);
    let mut t: Vec<u64> = Vec::new();
    let mut i: u32 = 0;
    while i < size
        invariant
            i <= size,
            1 <= nbits <= 15,
            mask == low_mask(nbits),
            t@.len() == i,
            forall|q: int| 0 <= q < i ==> #[trigger] t@[q] == and_entry(q as u32, nbits) as u64,
        decreases size - i,
    {
        let rs1 = i & mask;
        let rs2 = (i >> nbits) & mask;
        t.push((rs1 & rs2) as u64);
        i = i + 1;
    }
    t
}

/// The lookups of a trace of `and` rows, in order.
pub fn and_lookups(trace: &[(u32, u32)], nbits: u32) -> (r: (Vec<Vec<usize>>, Vec<u64>))
    requires
        1 <= nbits <= 15,
    ensures
        claims_match(r.0@, r.1@, and_claims(trace@, nbits)),
{
    let ghost cl = and_claims(trace@, nbits);
    proof {
        assert(1u32 << nbits >= 1) by (bit_vector)
            requires
                nbits <= 15,
        ;
    }
    let mask: u32 = (1u32 << nbits) - 1;
    let mut idx: Vec<Vec<usize>> = Vec::new();
    let mut claims: Vec<u64> = Vec::new();
    let n = trace.len();
    let mut j: usize = 0;
    while j < n
        invariant
            j <= n,
            n == trace@.len(),
            1 <= nbits <= 15,
            mask == low_mask(nbits),
            cl == and_claims(trace@, nbits),
            idx@.len() == j,
            claims@.len() == j,
            forall|q: int| 0 <= q < j ==> (#[trigger] idx@[q])@ =~= seq![cl[q].0],
            forall|q: int| 0 <= q < j ==> #[trigger] claims@[q] == cl[q].1,
        decreases n - j,
    {
        let (rs1, rs2) = trace[j];
        let mut v: Vec<usize> = Vec::new();
        v.push(((rs1 & mask) | ((rs2 & mask) << nbits)) as usize);
        let ghost before = idx@;
        idx.push(v);
        claims.push(((rs1 & mask) & (rs2 & mask)) as u64);
        proof {
            assert forall|q: int| 0 <= q < j + 1 implies (#[trigger] idx@[q])@ =~= seq![cl[q].0] by {
                if q < j {
                    assert(idx@[q] == before[q]);
                }
            }
        }
        j = j + 1;
    }
    proof {
        lemma_claims_match_intro(idx@, claims@, cl);
    }
    (idx, claims)
}

proof fn lemma_pair_fields(a: u32, b: u32, n: u32)
    requires
        1 <= n <= 15,
    ensures
        pair_index(a, b, n) & low_mask(n) == a & low_mask(n),
        (pair_index(a, b, n) >> n) & low_mask(n) == b & low_mask(n),
        pair_index(a, b, n) < (1u32 << (2 * n)),
{
    assert(((a & (((1u32 << n) - 1) as u32)) | ((b & (((1u32 << n) - 1) as u32)) << n)) & (((1u32 << n) - 1) as u32)
        == a & (((1u32 << n) - 1) as u32)) by (bit_vector)
        requires
            1 <= n <= 15,
    ;
    assert((((a & (((1u32 << n) - 1) as u32)) | ((b & (((1u32 << n) - 1) as u32)) << n)) >> n) & (((1u32 << n) - 1) as u32)
        == b & (((1u32 << n) - 1) as u32)) by (bit_vector)
        requires
            1 <= n <= 15,
    ;
    assert(((a & (((1u32 << n) - 1) as u32)) | ((b & (((1u32 << n) - 1) as u32)) << n)) < (1u32 << (2 * n)))
        by (bit_vector)
        requires
            1 <= n <= 15,
    ;
}

/// Every lookup of an `and` trace lies inside the table and finds its result
/// there: the table entry at an operand pair's index is the AND of the pair.
pub proof fn lemma_and_lookups_hit(trace: Seq<(u32, u32)>, nbits: u32)
    requires
        1 <= nbits <= 15,
    ensures
        forall|j: int|
            0 <= j < trace.len() ==> {
                let c = #[trigger] and_claims(trace, nbits)[j];
                &&& c.0 < (1u32 << (2 * nbits))
                &&& and_entry(c.0 as u32, nbits) as u64 == c.1
            },
{
    assert forall|j: int| 0 <= j < trace.len() implies {
        let c = #[trigger] and_claims(trace, nbits)[j];
        &&& c.0 < (1u32 << (2 * nbits))
        &&& and_entry(c.0 as u32, nbits) as u64 == c.1
    } by {
        lemma_pair_fields(trace[j].0, trace[j].1, nbits);
    }
}

} // verus!
