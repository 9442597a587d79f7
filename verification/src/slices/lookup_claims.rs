//! Lookup claims rebuilt from a flat inout vector laid out column by column
//! (`column * t_len + cycle`), for the small word VMs whose write logs keep
//! `stride` version slots per register or RAM word.
//!
//! Columns: 0 instruction, 1 pc, 2..4 rs1 (reg, ver, val), 5..7 rs2,
//! 8..10 write (reg, ver, val), 11 write flag; with RAM also 12..14 load
//! (addr, ver, val), 15 load flag, 16..18 store, 19 store flag.

use vstd::prelude::*;
use crate::vm32::circuit::{
    io_slot, io_inst, io_pc, io_rd1_reg, io_rd1_ver, io_rd1_val, io_rd2_reg, io_rd2_ver, io_rd2_val,
    io_wr_reg, io_wr_ver, io_wr_val, io_wr_iswrite, io_ld_addr, io_ld_ver, io_ld_val, io_is_load,
    io_st_addr, io_st_ver, io_st_val, io_is_store,
};
use crate::vm32::pipeline::{io_at, fetch_claim, claims_match, index_fits, lemma_column_index};

verus! {

/// Table index of `(row, ver)` with `stride` slots per row.
pub open spec fn slot_of(row: u64, ver: u64, stride: nat) -> int {
    (row as usize) as int * stride + (ver as usize) as int
}

/// Register-table claims of cycle `t`: the two reads, then the write when flagged.
pub open spec fn reg_claims_at(io: Seq<u64>, tl: nat, t: nat, stride: nat) -> Seq<(usize, u64)> {
    let r1 = (slot_of(io_at(io, 2, tl, t), io_at(io, 3, tl, t), stride) as usize, io_at(io, 4, tl, t));
    let r2 = (slot_of(io_at(io, 5, tl, t), io_at(io, 6, tl, t), stride) as usize, io_at(io, 7, tl, t));
    let w = (slot_of(io_at(io, 8, tl, t), io_at(io, 9, tl, t), stride) as usize, io_at(io, 10, tl, t));
    if io_at(io, 11, tl, t) != 0 {
        seq![r1, r2, w]
    } else {
        seq![r1, r2]
    }
}

/// RAM-table claims of cycle `t`: the load when flagged, then the store when flagged.
pub open spec fn ram_claims_at(io: Seq<u64>, tl: nat, t: nat, stride: nat) -> Seq<(usize, u64)> {
    let l = (slot_of(io_at(io, 12, tl, t), io_at(io, 13, tl, t), stride) as usize, io_at(io, 14, tl, t));
    let s = (slot_of(io_at(io, 16, tl, t), io_at(io, 17, tl, t), stride) as usize, io_at(io, 18, tl, t));
    (if io_at(io, 15, tl, t) != 0 {
        seq![l]
    } else {
        seq![]
    }) + (if io_at(io, 19, tl, t) != 0 {
        seq![s]
    } else {
        seq![]
    })
}

pub open spec fn reg_claims_upto(io: Seq<u64>, tl: nat, k: nat, stride: nat) -> Seq<(usize, u64)>
    decreases k,
{
    if k == 0 {
        seq![]
    } else {
        reg_claims_upto(io, tl, (k - 1) as nat, stride) + reg_claims_at(io, tl, (k - 1) as nat, stride)
    }
}

pub open spec fn ram_claims_upto(io: Seq<u64>, tl: nat, k: nat, stride: nat) -> Seq<(usize, u64)>
    decreases k,
{
    if k == 0 {
        seq![]
    } else {
        ram_claims_upto(io, tl, (k - 1) as nat, stride) + ram_claims_at(io, tl, (k - 1) as nat, stride)
    }
}

/// The table indices of cycle `t`'s claims do not overflow.
pub open spec fn slots_fit_at(io: Seq<u64>, tl: nat, t: nat, stride: nat, ram: bool) -> bool {
    &&& slot_of(io_at(io, 2, tl, t), io_at(io, 3, tl, t), stride) <= usize::MAX
    &&& slot_of(io_at(io, 5, tl, t), io_at(io, 6, tl, t), stride) <= usize::MAX
    &&& slot_of(io_at(io, 8, tl, t), io_at(io, 9, tl, t), stride) <= usize::MAX
    &&& ram ==> slot_of(io_at(io, 12, tl, t), io_at(io, 13, tl, t), stride) <= usize::MAX
    &&& ram ==> slot_of(io_at(io, 16, tl, t), io_at(io, 17, tl, t), stride) <= usize::MAX
}

pub open spec fn slots_fit(io: Seq<u64>, tl: nat, stride: nat, ram: bool) -> bool {
    forall|t: nat| t < tl ==> #[trigger] slots_fit_at(io, tl, t, stride, ram)
}

/// Whether `row * stride + ver < rows * stride`, computed without overflow.
pub(crate) fn row_slot_below(row: usize, ver: usize, rows: usize, stride: usize) -> (r: bool)
    requires
        rows <= 64,
        stride <= 128,
    ensures
        r == ((row as int) * (stride as int) + (ver as int) < (rows as int) * (stride as int)),
{
    if row >= rows {
        proof {
            assert(row as int * stride as int >= rows as int * stride as int) by (nonlinear_arith)
                requires
                    row >= rows,
            ;
        }
        false
    } else {
        proof {
            assert(row as int * stride as int <= rows as int * stride as int) by (nonlinear_arith)
                requires
                    row <= rows,
            ;
            assert(rows as int * stride as int <= 64 * 128) by (nonlinear_arith)
                requires
                    rows <= 64,
                    stride <= 128,
            ;
        }
        let hi = rows * stride;
        let lo = row * stride;
        ver < hi - lo
    }
}

/// Run-time form of the requirements of `claims_by_columns`: the vector
/// holds the 12 (with `ram`, 20) columns of `t_len` cycles and every lookup
/// index fits a `usize`.
pub fn slots_fit_check(io: &[u64], t_len: usize, stride: usize, ram: bool) -> (r: bool)
    ensures
        r == ((if ram {
            20int
        } else {
            12int
        }) * t_len <= io@.len() && slots_fit(io@, t_len as nat, stride as nat, ram)),
{
    let len = io.len();
    let cols: usize = if ram {
        20
    } else {
        12
    };
    let need = match t_len.checked_mul(cols) {
        Some(n) => n,
        None => {
            proof {
                assert(cols * t_len == t_len * cols) by (nonlinear_arith);
            }
            return false;
        },
    };
    proof {
        assert(cols * t_len == t_len * cols) by (nonlinear_arith);
    }
    if need > len {
        return false;
    }
    let ghost tl = t_len as nat;
    let ghost sn = stride as nat;
    let pairs: [(usize, usize); 5] = [(2, 3), (5, 6), (8, 9), (12, 13), (16, 17)];
    let npairs: usize = if ram {
        5
    } else {
        3
    };
    assert(forall|p: int| 0 <= p < npairs ==> pairs@[p].0 < cols && pairs@[p].1 < cols);
    let mut t: usize = 0;
    while t < t_len
        invariant
            t <= t_len,
            tl == t_len,
            sn == stride,
            len == io@.len(),
            cols == (if ram {
                20usize
            } else {
                12usize
            }),
            npairs == (if ram {
                5usize
            } else {
                3usize
            }),
            cols * t_len <= io@.len(),
            pairs@ == seq![(2usize, 3usize), (5, 6), (8, 9), (12, 13), (16, 17)],
            forall|p: int| 0 <= p < npairs ==> pairs@[p].0 < cols && pairs@[p].1 < cols,
            forall|u: nat| u < t ==> #[trigger] slots_fit_at(io@, tl, u, sn, ram),
        decreases t_len - t,
    {
        let mut ok = true;
        let mut q: usize = 0;
        while q < npairs
            invariant
                q <= npairs,
                t < t_len,
                tl == t_len,
                sn == stride,
                len == io@.len(),
                cols == (if ram {
                    20usize
                } else {
                    12usize
                }),
                npairs == (if ram {
                    5usize
                } else {
                    3usize
                }),
                cols * t_len <= io@.len(),
                pairs@ == seq![(2usize, 3usize), (5, 6), (8, 9), (12, 13), (16, 17)],
                forall|p: int| 0 <= p < npairs ==> pairs@[p].0 < cols && pairs@[p].1 < cols,
                ok <==> forall|p: int| 0 <= p < q ==> slot_of(
                    io_at(io@, pairs@[p].0 as nat, tl, t as nat),
                    io_at(io@, pairs@[p].1 as nat, tl, t as nat),
                    sn,
                ) <= usize::MAX,
            decreases npairs - q,
        {
            let (rk, vk) = pairs[q];
            proof {
                lemma_column_index(rk as nat, cols as nat, tl, t as nat);
                lemma_column_index(vk as nat, cols as nat, tl, t as nat);
            }
            let fits = index_fits(io[rk * t_len + t], io[vk * t_len + t], stride);
            ok = ok && fits;
            q = q + 1;
        }
        if !ok {
            proof {
                assert(!slots_fit_at(io@, tl, t as nat, sn, ram));
            }
            return false;
        }
        proof {
            assert(slots_fit_at(io@, tl, t as nat, sn, ram));
        }
        t = t + 1;
    }
    true
}

fn slot_index(row: u64, ver: u64, stride: usize) -> (r: usize)
    requires
        slot_of(row, ver, stride as nat) <= usize::MAX,
    ensures
        r == slot_of(row, ver, stride as nat),
{
    (row as usize) * stride + ver as usize
}

fn push_one(idxs: &mut Vec<Vec<usize>>, vals: &mut Vec<u64>, idx: usize, val: u64)
    ensures
        final(idxs)@.len() == old(idxs)@.len() + 1,
        final(idxs)@.drop_last() == old(idxs)@,
        final(idxs)@.last()@ == seq![idx],
        final(vals)@ == old(vals)@.push(val),
{
    let mut v: Vec<usize> = Vec::new();
    v.push(idx);
    assert(v@ =~= seq![idx]);
    idxs.push(v);
    vals.push(val);
    assert(final(idxs)@.drop_last() =~= old(idxs)@);
}

/// Append the register claims of cycle `t`.
fn push_reg_claims(
    reg_idxs: &mut Vec<Vec<usize>>,
    reg_vals: &mut Vec<u64>,
    inout: &[u64],
    t_len: usize,
    t: usize,
    stride: usize,
    ram: bool,
)
    requires
        t < t_len,
        12 * t_len <= inout@.len(),
        slots_fit(inout@, t_len as nat, stride as nat, ram),
        claims_match(old(reg_idxs)@, old(reg_vals)@, reg_claims_upto(inout@, t_len as nat, t as nat, stride as nat)),
    ensures
        claims_match(final(reg_idxs)@, final(reg_vals)@, reg_claims_upto(inout@, t_len as nat, (t + 1) as nat, stride as nat)),
{
    let ghost io = inout@;
    let ghost tl = t_len as nat;
    let ghost sd = stride as nat;
    let n = inout.len();
    assert(11 * t_len + t < 12 * t_len <= n);
    let ghost r0 = reg_idxs@;
    let ghost c0 = reg_claims_upto(io, tl, t as nat, sd);
    assert(slots_fit_at(io, tl, t as nat, sd, ram));
    let i1 = slot_index(inout[io_rd1_reg(t_len, t)], inout[io_rd1_ver(t_len, t)], stride);
    push_one(reg_idxs, reg_vals, i1, inout[io_rd1_val(t_len, t)]);
    let i2 = slot_index(inout[io_rd2_reg(t_len, t)], inout[io_rd2_ver(t_len, t)], stride);
    push_one(reg_idxs, reg_vals, i2, inout[io_rd2_val(t_len, t)]);
    if inout[io_wr_iswrite(t_len, t)] != 0 {
        let i3 = slot_index(inout[io_wr_reg(t_len, t)], inout[io_wr_ver(t_len, t)], stride);
        push_one(reg_idxs, reg_vals, i3, inout[io_wr_val(t_len, t)]);
    }
    let ghost cl = reg_claims_upto(io, tl, (t + 1) as nat, sd);
    assert(cl == c0 + reg_claims_at(io, tl, t as nat, sd));
    assert(io_at(io, 11, tl, t as nat) == inout@[io_slot(11, tl, t as nat) as int]);
    assert(reg_idxs@.len() == cl.len());
    assert(reg_vals@.len() == cl.len());
    assert forall|i: int| 0 <= i < cl.len() implies (#[trigger] reg_idxs@[i])@ == seq![cl[i].0]
        && reg_vals@[i] == cl[i].1 by {
        if i < c0.len() {
            assert(reg_idxs@[i] == r0[i]);
        }
        assert(reg_idxs@[i]@ =~= seq![cl[i].0]);
    }
    assert(claims_match(reg_idxs@, reg_vals@, cl));
}

/// Append the RAM claims of cycle `t`.
fn push_ram_claims(
    ram_idxs: &mut Vec<Vec<usize>>,
    ram_vals: &mut Vec<u64>,
    inout: &[u64],
    t_len: usize,
    t: usize,
    stride: usize,
)
    requires
        t < t_len,
        20 * t_len <= inout@.len(),
        slots_fit(inout@, t_len as nat, stride as nat, true),
        claims_match(old(ram_idxs)@, old(ram_vals)@, ram_claims_upto(inout@, t_len as nat, t as nat, stride as nat)),
    ensures
        claims_match(final(ram_idxs)@, final(ram_vals)@, ram_claims_upto(inout@, t_len as nat, (t + 1) as nat, stride as nat)),
{
    let ghost io = inout@;
    let ghost tl = t_len as nat;
    let ghost sd = stride as nat;
    let n = inout.len();
    assert(19 * t_len + t < 20 * t_len <= n);
    assert(slots_fit_at(io, tl, t as nat, sd, true));
    let ghost m0 = ram_idxs@;
    let ghost d0 = ram_claims_upto(io, tl, t as nat, sd);
    if inout[io_is_load(t_len, t)] != 0 {
        let i4 = slot_index(inout[io_ld_addr(t_len, t)], inout[io_ld_ver(t_len, t)], stride);
        push_one(ram_idxs, ram_vals, i4, inout[io_ld_val(t_len, t)]);
    }
    let ghost m1 = ram_idxs@;
    if inout[io_is_store(t_len, t)] != 0 {
        let i5 = slot_index(inout[io_st_addr(t_len, t)], inout[io_st_ver(t_len, t)], stride);
        push_one(ram_idxs, ram_vals, i5, inout[io_st_val(t_len, t)]);
    }
    let ghost cl = ram_claims_upto(io, tl, (t + 1) as nat, sd);
    assert(cl == d0 + ram_claims_at(io, tl, t as nat, sd));
    assert(ram_idxs@.len() == cl.len());
    assert(ram_vals@.len() == cl.len());
    assert forall|i: int| 0 <= i < cl.len() implies (#[trigger] ram_idxs@[i])@ == seq![cl[i].0]
        && ram_vals@[i] == cl[i].1 by {
        if i < d0.len() {
            assert(ram_idxs@[i] == m0[i]);
        } else if i < m1.len() {
            assert(ram_idxs@[i] == m1[i]);
        }
        assert(ram_idxs@[i]@ =~= seq![cl[i].0]);
    }
    assert(claims_match(ram_idxs@, ram_vals@, cl));
}

/// Rebuild the fetch claims (pc -> instruction), the register claims and,
/// when `ram`, the RAM claims of every cycle from the inout columns.
pub fn claims_by_columns(inout: &[u64], t_len: usize, stride: usize, ram: bool) -> (r: (
    Vec<Vec<usize>>,
    Vec<u64>,
    Vec<Vec<usize>>,
    Vec<u64>,
    Vec<Vec<usize>>,
    Vec<u64>,
))
    requires
        (if ram {
            20 * t_len
        } else {
            12 * t_len
        }) <= inout@.len(),
        slots_fit(inout@, t_len as nat, stride as nat, ram),
    ensures
        claims_match(
            r.0@,
            r.1@,
            Seq::new(t_len as nat, |t: int| fetch_claim(inout@, t_len as nat, t as nat)),
        ),
        claims_match(r.2@, r.3@, reg_claims_upto(inout@, t_len as nat, t_len as nat, stride as nat)),
        ram ==> claims_match(r.4@, r.5@, ram_claims_upto(inout@, t_len as nat, t_len as nat, stride as nat)),
        !ram ==> r.4@.len() == 0 && r.5@.len() == 0,
{
    let ghost io = inout@;
    let ghost tl = t_len as nat;
    let ghost sd = stride as nat;
    let mut fetch_idxs: Vec<Vec<usize>> = Vec::new();
    let mut fetch_claims: Vec<u64> = Vec::new();
    let mut reg_idxs: Vec<Vec<usize>> = Vec::new();
    let mut reg_vals: Vec<u64> = Vec::new();
    let mut ram_idxs: Vec<Vec<usize>> = Vec::new();
    let mut ram_vals: Vec<u64> = Vec::new();
    let mut t: usize = 0;
    while t < t_len
        invariant
            t <= t_len,
            io == inout@,
            tl == t_len,
            sd == stride,
            (if ram {
                20 * t_len
            } else {
                12 * t_len
            }) <= io.len(),
            slots_fit(io, tl, sd, ram),
            claims_match(
                fetch_idxs@,
                fetch_claims@,
                Seq::new(t as nat, |i: int| fetch_claim(io, tl, i as nat)),
            ),
            claims_match(reg_idxs@, reg_vals@, reg_claims_upto(io, tl, t as nat, sd)),
            ram ==> claims_match(ram_idxs@, ram_vals@, ram_claims_upto(io, tl, t as nat, sd)),
            !ram ==> ram_idxs@.len() == 0 && ram_vals@.len() == 0,
        decreases t_len - t,
    {
        let n = inout.len();
        assert(t_len + t < 12 * t_len <= n);
        let ghost f0 = fetch_idxs@;
        let ghost fv0 = fetch_claims@;
        let inst = inout[io_inst(t_len, t)];
        let pc = inout[io_pc(t_len, t)];
        push_one(&mut fetch_idxs, &mut fetch_claims, pc as usize, inst);
        assert(claims_match(
            fetch_idxs@,
            fetch_claims@,
            Seq::new((t + 1) as nat, |i: int| fetch_claim(io, tl, i as nat)),
        )) by {
            let cl = Seq::new((t + 1) as nat, |i: int| fetch_claim(io, tl, i as nat));
            assert forall|i: int| 0 <= i < cl.len() implies (#[trigger] fetch_idxs@[i])@ =~= seq![
                cl[i].0,
            ] by {
                if i < t {
                    assert(fetch_idxs@[i] == f0[i]);
                }
            }
            assert forall|i: int| 0 <= i < cl.len() implies #[trigger] fetch_claims@[i] == cl[i].1 by {
                if i < t {
                    assert(fetch_claims@[i] == fv0[i]);
                    let _ = f0[i];
                }
            }
            crate::vm32::pipeline::lemma_claims_match_intro(fetch_idxs@, fetch_claims@, cl);
        }
        push_reg_claims(&mut reg_idxs, &mut reg_vals, inout, t_len, t, stride, ram);
        if ram {
            push_ram_claims(&mut ram_idxs, &mut ram_vals, inout, t_len, t, stride);
        }
        t = t + 1;
    }
    (fetch_idxs, fetch_claims, reg_idxs, reg_vals, ram_idxs, ram_vals)
}

} // verus!
