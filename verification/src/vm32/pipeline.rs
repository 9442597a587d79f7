//! Native side of the word-VM proof pipeline: the three lookup tables (fetch
//! table, register write log, RAM write log), the flat inout vector of an
//! honest run, and the lookup claims rebuilt from an inout vector.

use vstd::prelude::*;
use crate::vm32::isa::{NREG, NRAM, VER_MAX, M_FETCH, HALT_ADDR};
use crate::vm32::interp::{Cycle, CycleView, Trace, fetch_ok, program_of, lemma_field_bounds};
use crate::vm32::circuit::{
    io_slot, io_inst, io_pc, io_rd1_reg, io_rd1_ver, io_rd1_val, io_rd2_reg, io_rd2_ver, io_rd2_val,
    io_wr_reg, io_wr_ver, io_wr_val, io_wr_iswrite, io_ld_addr, io_ld_ver, io_ld_val, io_is_load,
    io_st_addr, io_st_ver, io_st_val, io_is_store,
};

verus! {

/// Rows of the fetch table.
pub const FETCH_ROWS: usize = 256;

/// Fetch table: the program's words at 0x00, 0x04, .., 0xc4, zero elsewhere,
/// with each overridden row replaced by the word the interpreter executes
/// there (the first override naming that address).
pub open spec fn fetch_table(prog: spec_fn(u64) -> u64, ov: Seq<(u64, u64)>) -> Seq<u64> {
    Seq::new(
        FETCH_ROWS as nat,
        |i: int|
            match crate::vm32::interp::lookup_first(ov, i as u64) {
                Some(w) => w,
                None => if i % 4 == 0 && i <= HALT_ADDR {
                    prog(i as u64)
                } else {
                    0
                },
            },
    )
}

/// Build the fetch table.
pub fn build_fetch_prog<F: Fn(u64) -> u64>(fetch: F, word_overrides: &[(u64, u64)]) -> (r: Vec<u64>)
    requires
        fetch_ok(fetch),
        forall|i: int| 0 <= i < word_overrides@.len() ==> word_overrides@[i].0 < FETCH_ROWS,
    ensures
        r@ == fetch_table(program_of(fetch), word_overrides@),
{
    let ghost prog = program_of(fetch);
    let mut t: Vec<u64> = vec![0u64; FETCH_ROWS];
    let mut mm: u64 = 0;
    while mm <= HALT_ADDR
        invariant
            fetch_ok(fetch),
            prog == program_of(fetch),
            mm % 4 == 0,
            mm <= HALT_ADDR + 4,
            t@.len() == FETCH_ROWS,
            forall|i: int|
                0 <= i < FETCH_ROWS ==> #[trigger] t@[i] == if i % 4 == 0 && i < mm {
                    prog(i as u64)
                } else {
                    0
                },
        decreases HALT_ADDR + 4 - mm,
    {
        let w = fetch(mm);
        proof {
            let c = choose|r: u64| fetch.ensures((mm,), r);
            assert(fetch.ensures((mm,), c));
        }
        t.set(mm as usize, w);
        mm = mm + 4;
    }
    // Overrides are written last to first, so the first one naming a row stays.
    let mut j: usize = word_overrides.len();
    assert(word_overrides@.skip(j as int) =~= Seq::<(u64, u64)>::empty());
    assert(t@ =~= fetch_table(prog, word_overrides@.skip(j as int)));
    while j > 0
        invariant
            j <= word_overrides@.len(),
            forall|i: int| 0 <= i < word_overrides@.len() ==> word_overrides@[i].0 < FETCH_ROWS,
            t@ == fetch_table(prog, word_overrides@.skip(j as int)),
        decreases j,
    {
        j = j - 1;
        let (a, w) = word_overrides[j];
        let ghost pre = word_overrides@.skip(j + 1);
        let ghost post = word_overrides@.skip(j as int);
        assert(post.drop_first() =~= pre);
        assert(post[0] == (a, w));
        t.set(a as usize, w);
        assert(t@ =~= fetch_table(prog, post));
    }
    assert(word_overrides@.skip(0) =~= word_overrides@);
    t
}

/// Write-log slot of (row, version).
pub open spec fn wlog_slot(row: usize, ver: usize) -> int {
    row as int * VER_MAX as int + ver as int
}

/// Register write log before any write: version 0 of register r holds `init[r]`.
pub open spec fn reg_wlog_base(init: Seq<u32>) -> Seq<u64> {
    Seq::new(
        (NREG * VER_MAX) as nat,
        |i: int|
            if i % VER_MAX as int == 0 {
                init[i / VER_MAX as int] as u64
            } else {
                0
            },
    )
}

/// Register write log after the writes of the first `k` cycles.
pub open spec fn reg_wlog(init: Seq<u32>, cs: Seq<CycleView>, k: nat) -> Seq<u64>
    decreases k,
{
    if k == 0 {
        reg_wlog_base(init)
    } else {
        let w = reg_wlog(init, cs, (k - 1) as nat);
        match cs[k - 1].write {
            Some(wr) => if wlog_slot(wr.reg, wr.ver) < NREG * VER_MAX {
                w.update(wlog_slot(wr.reg, wr.ver), wr.val as u64)
            } else {
                w
            },
            None => w,
        }
    }
}

/// RAM write log before any store: version 0 of word a holds `init_mem[a]`.
pub open spec fn ram_wlog_base(init_mem: Seq<u32>) -> Seq<u64> {
    Seq::new(
        (NRAM * VER_MAX) as nat,
        |i: int|
            if i % VER_MAX as int == 0 {
                init_mem[i / VER_MAX as int] as u64
            } else {
                0
            },
    )
}

/// RAM write log after the stores of the first `k` cycles.
pub open spec fn ram_wlog(init_mem: Seq<u32>, cs: Seq<CycleView>, k: nat) -> Seq<u64>
    decreases k,
{
    if k == 0 {
        ram_wlog_base(init_mem)
    } else {
        let w = ram_wlog(init_mem, cs, (k - 1) as nat);
        match cs[k - 1].store {
            Some(st) => if wlog_slot(st.addr, st.ver) < NRAM * VER_MAX {
                w.update(wlog_slot(st.addr, st.ver), st.val as u64)
            } else {
                w
            },
            None => w,
        }
    }
}

pub open spec fn cycle_views(cycles: Seq<Cycle>) -> Seq<CycleView> {
    cycles.map_values(|c: Cycle| c@)
}

/// Every register write of the trace lands inside the log.
pub open spec fn writes_in_log(cs: Seq<CycleView>) -> bool {
    forall|t: int|
        0 <= t < cs.len() && (#[trigger] cs[t]).write is Some ==> wlog_slot(
            cs[t].write.unwrap().reg,
            cs[t].write.unwrap().ver,
        ) < NREG * VER_MAX
}

/// Every store of the trace lands inside the log.
pub open spec fn stores_in_log(cs: Seq<CycleView>) -> bool {
    forall|t: int|
        0 <= t < cs.len() && (#[trigger] cs[t]).store is Some ==> wlog_slot(
            cs[t].store.unwrap().addr,
            cs[t].store.unwrap().ver,
        ) < NRAM * VER_MAX
}

/// Whether `row * VER_MAX + ver < rows * VER_MAX`.
fn slot_below(row: usize, ver: usize, rows: usize) -> (r: bool)
    requires
        rows <= NRAM,
    ensures
        r == (wlog_slot(row, ver) < rows * VER_MAX),
{
    if row >= rows {
        proof {
            assert(row as int * VER_MAX as int >= rows as int * VER_MAX as int) by (nonlinear_arith)
                requires
                    row >= rows,
            ;
        }
        false
    } else {
        proof {
            assert(row as int * VER_MAX as int <= (rows - 1) as int * VER_MAX as int) by (nonlinear_arith)
                requires
                    row <= rows - 1,
            ;
        }
        ver < rows * VER_MAX - row * VER_MAX
    }
}

/// Run-time form of the requirements of the table builders on a trace: every
/// cycle record is well formed (`records_ok`), and every register write and
/// every store lands inside its write log.
pub fn trace_fits_logs(trace: &Trace) -> (r: bool)
    ensures
        r == (records_ok(cycle_views(trace.cycles@)) && writes_in_log(cycle_views(trace.cycles@))
            && stores_in_log(cycle_views(trace.cycles@))),
{
    let ghost cs = cycle_views(trace.cycles@);
    let mut t: usize = 0;
    while t < trace.cycles.len()
        invariant
            t <= trace.cycles@.len(),
            cs == cycle_views(trace.cycles@),
            forall|u: int| 0 <= u < t ==> {
                &&& (#[trigger] cs[u]).reads.len() == 2
                &&& cs[u].regver.len() == NREG
                &&& cs[u].ramver.len() == NRAM
                &&& cs[u].mem_addr < NRAM
                &&& cs[u].ramver[cs[u].mem_addr as int] < usize::MAX
                &&& cs[u].write is Some ==> wlog_slot(cs[u].write.unwrap().reg, cs[u].write.unwrap().ver)
                    < NREG * VER_MAX
                &&& cs[u].store is Some ==> wlog_slot(cs[u].store.unwrap().addr, cs[u].store.unwrap().ver)
                    < NRAM * VER_MAX
            },
        decreases trace.cycles.len() - t,
    {
        let c = &trace.cycles[t];
        assert(cs[t as int] == c@);
        let ok_rec = c.reads.len() == 2 && c.mem_addr < NRAM && c.ramver[c.mem_addr] < usize::MAX;
        let ok_wr = match &c.write {
            Some(w) => slot_below(w.reg, w.ver, NREG),
            None => true,
        };
        let ok_st = match &c.store {
            Some(st) => slot_below(st.addr, st.ver, NRAM),
            None => true,
        };
        if !(ok_rec && ok_wr && ok_st) {
            proof {
                if !ok_rec {
                    assert(!records_ok(cs)) by {
                        assert(cs[t as int].reads.len() == 2 ==> !(cs[t as int].mem_addr < NRAM && cs[t as int].ramver[cs[t as int].mem_addr as int] < usize::MAX));
                    }
                } else if !ok_wr {
                    assert(!writes_in_log(cs)) by {
                        assert(cs[t as int].write is Some);
                    }
                } else {
                    assert(!stores_in_log(cs)) by {
                        assert(cs[t as int].store is Some);
                    }
                }
            }
            return false;
        }
        t = t + 1;
    }
    true
}

pub fn build_reg_wlog(init: &[u32; NREG], trace: &Trace) -> (r: Vec<u64>)
    requires
        writes_in_log(cycle_views(trace.cycles@)),
    ensures
        r@ == reg_wlog(init@, cycle_views(trace.cycles@), trace.cycles@.len()),
{
    let ghost cs = cycle_views(trace.cycles@);
    let mut w: Vec<u64> = vec![0u64; NREG * VER_MAX];
    let mut r: usize = 0;
    while r < NREG
        invariant
            r <= NREG,
            w@.len() == NREG * VER_MAX,
            forall|i: int|
                0 <= i < NREG * VER_MAX ==> #[trigger] w@[i] == if i % VER_MAX as int == 0 && (i / VER_MAX as int) < r {
                    init@[i / VER_MAX as int] as u64
                } else {
                    0
                },
        decreases NREG - r,
    {
        w.set(r * VER_MAX + 0, init[r] as u64);
        assert forall|i: int| 0 <= i < NREG * VER_MAX implies #[trigger] w@[i] == if i
            % VER_MAX as int == 0 && (i / VER_MAX as int) < r + 1 {
            init@[i / VER_MAX as int] as u64
        } else {
            0
        } by {
            if i == r * VER_MAX {
                assert(i / VER_MAX as int == r);
            } else {
                assert(i % VER_MAX as int == 0 && i / VER_MAX as int == r ==> i == r * VER_MAX);
            }
        }
        r = r + 1;
    }
    assert(w@ =~= reg_wlog_base(init@));
    let mut k: usize = 0;
    while k < trace.cycles.len()
        invariant
            k <= trace.cycles@.len(),
            cs == cycle_views(trace.cycles@),
            writes_in_log(cs),
            w@ == reg_wlog(init@, cs, k as nat),
            w@.len() == NREG * VER_MAX,
        decreases trace.cycles.len() - k,
    {
        assert(cs[k as int] == trace.cycles@[k as int]@);
        match &trace.cycles[k].write {
            Some(wr) => {
                assert(wlog_slot(wr.reg, wr.ver) < NREG * VER_MAX);
                w.set(wr.reg * VER_MAX + wr.ver, wr.val as u64);
            },
            None => {},
        }
        k = k + 1;
    }
    w
}

pub fn build_ram_wlog(init_mem: &[u32; NRAM], trace: &Trace) -> (r: Vec<u64>)
    requires
        stores_in_log(cycle_views(trace.cycles@)),
    ensures
        r@ == ram_wlog(init_mem@, cycle_views(trace.cycles@), trace.cycles@.len()),
{
    let ghost cs = cycle_views(trace.cycles@);
    let mut w: Vec<u64> = vec![0u64; NRAM * VER_MAX];
    let mut a: usize = 0;
    while a < NRAM
        invariant
            a <= NRAM,
            w@.len() == NRAM * VER_MAX,
            forall|i: int|
                0 <= i < NRAM * VER_MAX ==> #[trigger] w@[i] == if i % VER_MAX as int == 0 && (i / VER_MAX as int) < a {
                    init_mem@[i / VER_MAX as int] as u64
                } else {
                    0
                },
        decreases NRAM - a,
    {
        w.set(a * VER_MAX + 0, init_mem[a] as u64);
        assert forall|i: int| 0 <= i < NRAM * VER_MAX implies #[trigger] w@[i] == if i
            % VER_MAX as int == 0 && (i / VER_MAX as int) < a + 1 {
            init_mem@[i / VER_MAX as int] as u64
        } else {
            0
        } by {
            if i == a * VER_MAX {
                assert(i / VER_MAX as int == a);
            } else {
                assert(i % VER_MAX as int == 0 && i / VER_MAX as int == a ==> i == a * VER_MAX);
            }
        }
        a = a + 1;
    }
    assert(w@ =~= ram_wlog_base(init_mem@));
    let mut k: usize = 0;
    while k < trace.cycles.len()
        invariant
            k <= trace.cycles@.len(),
            cs == cycle_views(trace.cycles@),
            stores_in_log(cs),
            w@ == ram_wlog(init_mem@, cs, k as nat),
            w@.len() == NRAM * VER_MAX,
        decreases trace.cycles.len() - k,
    {
        assert(cs[k as int] == trace.cycles@[k as int]@);
        match &trace.cycles[k].store {
            Some(st) => {
                assert(wlog_slot(st.addr, st.ver) < NRAM * VER_MAX);
                w.set(st.addr * VER_MAX + st.ver, st.val as u64);
            },
            None => {},
        }
        k = k + 1;
    }
    w
}


/// Value of per-cycle column `k` (layout order of `circuit::io_*`) for an
/// honest cycle record; absent events fill their columns with the values the
/// circuit recomputes (version before/after at `mem_addr`, the rs2 value).
pub open spec fn column_value(c: CycleView, k: int) -> u64 {
    let rd = ((c.inst >> 7) & 0x1f) as int;
    if k == 0 {
        c.inst
    } else if k == 1 {
        c.pc
    } else if k == 2 {
        c.reads[0].reg as u64
    } else if k == 3 {
        c.reads[0].ver as u64
    } else if k == 4 {
        c.reads[0].val as u64
    } else if k == 5 {
        c.reads[1].reg as u64
    } else if k == 6 {
        c.reads[1].ver as u64
    } else if k == 7 {
        c.reads[1].val as u64
    } else if k == 8 {
        rd as u64
    } else if k == 9 {
        match c.write {
            Some(w) => w.ver as u64,
            None => c.regver[rd] as u64,
        }
    } else if k == 10 {
        match c.write {
            Some(w) => w.val as u64,
            None => 0,
        }
    } else if k == 11 {
        if c.write is Some {
            1
        } else {
            0
        }
    } else if k == 12 {
        match c.load {
            Some(l) => l.addr as u64,
            None => c.mem_addr as u64,
        }
    } else if k == 13 {
        match c.load {
            Some(l) => l.ver as u64,
            None => c.ramver[c.mem_addr as int] as u64,
        }
    } else if k == 14 {
        match c.load {
            Some(l) => l.val as u64,
            None => 0,
        }
    } else if k == 15 {
        if c.load is Some {
            1
        } else {
            0
        }
    } else if k == 16 {
        match c.store {
            Some(st) => st.addr as u64,
            None => c.mem_addr as u64,
        }
    } else if k == 17 {
        match c.store {
            Some(st) => st.ver as u64,
            None => (c.ramver[c.mem_addr as int] + 1) as u64,
        }
    } else if k == 18 {
        match c.store {
            Some(st) => st.val as u64,
            None => c.reads[1].val as u64,
        }
    } else {
        if c.store is Some {
            1
        } else {
            0
        }
    }
}

/// The flat inout vector of an honest run.
pub open spec fn inout_of(
    init: Seq<u32>,
    cs: Seq<CycleView>,
    final_regs: Seq<u32>,
    final_ramver: Seq<usize>,
) -> Seq<u64> {
    let tl = cs.len() as int;
    Seq::new(
        (20 * tl + 2 * NREG + NRAM + tl) as nat,
        |i: int|
            if i < 20 * tl {
                column_value(cs[i % tl], i / tl)
            } else if i < 20 * tl + NREG {
                init[i - 20 * tl] as u64
            } else if i < 20 * tl + 2 * NREG {
                final_regs[i - 20 * tl - NREG] as u64
            } else if i < 20 * tl + 2 * NREG + NRAM {
                final_ramver[i - 20 * tl - 2 * NREG] as u64
            } else {
                cs[i - 20 * tl - 2 * NREG - NRAM].m_q as u64
            },
    )
}

/// Cycle records of the shape `run_program` produces.
pub open spec fn records_ok(cs: Seq<CycleView>) -> bool {
    forall|t: int|
        0 <= t < cs.len() ==> {
            &&& (#[trigger] cs[t]).reads.len() == 2
            &&& cs[t].regver.len() == NREG
            &&& cs[t].ramver.len() == NRAM
            &&& cs[t].mem_addr < NRAM
            &&& cs[t].ramver[cs[t].mem_addr as int] < usize::MAX
        }
}

fn column_word(c: &Cycle, k: usize) -> (r: u64)
    requires
        c.reads@.len() == 2,
        c.mem_addr < NRAM,
        c.ramver[c.mem_addr as int] < usize::MAX,
        k < 20,
    ensures
        r == column_value(c@, k as int),
{
    let rd = ((c.inst >> 7) & 0x1f) as usize;
    proof {
        lemma_field_bounds(c.inst);
    }
    if k == 0 {
        c.inst
    } else if k == 1 {
        c.pc
    } else if k == 2 {
        c.reads[0].reg as u64
    } else if k == 3 {
        c.reads[0].ver as u64
    } else if k == 4 {
        c.reads[0].val as u64
    } else if k == 5 {
        c.reads[1].reg as u64
    } else if k == 6 {
        c.reads[1].ver as u64
    } else if k == 7 {
        c.reads[1].val as u64
    } else if k == 8 {
        rd as u64
    } else if k == 9 {
        match &c.write {
            Some(w) => w.ver as u64,
            None => c.regver[rd] as u64,
        }
    } else if k == 10 {
        match &c.write {
            Some(w) => w.val as u64,
            None => 0,
        }
    } else if k == 11 {
        if c.write.is_some() {
            1
        } else {
            0
        }
    } else if k == 12 {
        match c.load {
            Some(l) => l.addr as u64,
            None => c.mem_addr as u64,
        }
    } else if k == 13 {
        match c.load {
            Some(l) => l.ver as u64,
            None => c.ramver[c.mem_addr] as u64,
        }
    } else if k == 14 {
        match c.load {
            Some(l) => l.val as u64,
            None => 0,
        }
    } else if k == 15 {
        if c.load.is_some() {
            1
        } else {
            0
        }
    } else if k == 16 {
        match c.store {
            Some(st) => st.addr as u64,
            None => c.mem_addr as u64,
        }
    } else if k == 17 {
        match c.store {
            Some(st) => st.ver as u64,
            None => (c.ramver[c.mem_addr] + 1) as u64,
        }
    } else if k == 18 {
        match c.store {
            Some(st) => st.val as u64,
            None => c.reads[1].val as u64,
        }
    } else {
        if c.store.is_some() {
            1
        } else {
            0
        }
    }
}

/// The flat inout vector (circuit layout) of an honest run: the witness values
/// of the per-cycle event columns, the initial and final registers, the final
/// RAM versions and the advice quotients.
pub fn inout_from_trace(init: &[u32; NREG], trace: &Trace) -> (r: Vec<u64>)
    requires
        records_ok(cycle_views(trace.cycles@)),
        21 * trace.cycles@.len() + 2 * NREG + NRAM <= usize::MAX,
    ensures
        r@ == inout_of(init@, cycle_views(trace.cycles@), trace.final_regs@, trace.final_ramver@),
{
    let ghost cs = cycle_views(trace.cycles@);
    let tl = trace.cycles.len();
    let total = 21 * tl + 2 * NREG + NRAM;
    let mut out: Vec<u64> = vec![0u64; total];
    let ghost target = inout_of(init@, cs, trace.final_regs@, trace.final_ramver@);
    assert(target.len() == total);
    let mut k: usize = 0;
    while k < 20
        invariant
            k <= 20,
            tl == trace.cycles@.len(),
            total == 21 * tl + 2 * NREG + NRAM,
            cs == cycle_views(trace.cycles@),
            records_ok(cs),
            target == inout_of(init@, cs, trace.final_regs@, trace.final_ramver@),
            out@.len() == total,
            forall|i: int| 0 <= i < k * tl ==> out@[i] == target[i],
            forall|i: int| 20 * tl <= i < total ==> out@[i] == 0,
        decreases 20 - k,
    {
        let mut t: usize = 0;
        while t < tl
            invariant
                k < 20,
                t <= tl,
                tl == trace.cycles@.len(),
                total == 21 * tl + 2 * NREG + NRAM,
                cs == cycle_views(trace.cycles@),
                records_ok(cs),
                target == inout_of(init@, cs, trace.final_regs@, trace.final_ramver@),
                out@.len() == total,
                forall|i: int| 0 <= i < k * tl + t ==> out@[i] == target[i],
                forall|i: int| 20 * tl <= i < total ==> out@[i] == 0,
            decreases tl - t,
        {
            assert(k * tl + t < 20 * tl) by (nonlinear_arith)
                requires
                    k < 20,
                    t < tl,
            ;
            let ghost c = cs[t as int];
            assert(c == trace.cycles@[t as int]@);
            assert(c.reads.len() == 2);
            let v = column_word(&trace.cycles[t], k);
            let idx = k * tl + t;
            out.set(idx, v);
            assert((idx as int) % (tl as int) == t && (idx as int) / (tl as int) == k) by (nonlinear_arith)
                requires
                    idx == k * tl + t,
                    t < tl,
            ;
            t = t + 1;
        }
        assert((k + 1) * tl == k * tl + tl) by (nonlinear_arith);
        k = k + 1;
    }
    let base = 20 * tl;
    let mut r: usize = 0;
    while r < NREG
        invariant
            r <= NREG,
            base == 20 * tl,
            cs == cycle_views(trace.cycles@),
            tl == trace.cycles@.len(),
            total == 21 * tl + 2 * NREG + NRAM,
            target == inout_of(init@, cs, trace.final_regs@, trace.final_ramver@),
            out@.len() == total,
            forall|i: int| 0 <= i < base + r ==> out@[i] == target[i],
            forall|i: int| base + NREG <= i < base + NREG + r ==> out@[i] == target[i],
        decreases NREG - r,
    {
        out.set(base + r, init[r] as u64);
        out.set(base + NREG + r, trace.final_regs[r] as u64);
        r = r + 1;
    }
    assert forall|i: int| 0 <= i < base + 2 * NREG implies out@[i] == target[i] by {
        if i < base + NREG {
        } else {
        }
    }
    let mut a: usize = 0;
    while a < NRAM
        invariant
            a <= NRAM,
            base == 20 * tl,
            cs == cycle_views(trace.cycles@),
            tl == trace.cycles@.len(),
            total == 21 * tl + 2 * NREG + NRAM,
            target == inout_of(init@, cs, trace.final_regs@, trace.final_ramver@),
            out@.len() == total,
            forall|i: int| 0 <= i < base + 2 * NREG + a ==> out@[i] == target[i],
        decreases NRAM - a,
    {
        out.set(base + 2 * NREG + a, trace.final_ramver[a] as u64);
        a = a + 1;
    }
    let mut t: usize = 0;
    while t < tl
        invariant
            t <= tl,
            base == 20 * tl,
            tl == trace.cycles@.len(),
            cs == cycle_views(trace.cycles@),
            total == 21 * tl + 2 * NREG + NRAM,
            target == inout_of(init@, cs, trace.final_regs@, trace.final_ramver@),
            out@.len() == total,
            forall|i: int| 0 <= i < base + 2 * NREG + NRAM + t ==> out@[i] == target[i],
        decreases tl - t,
    {
        assert(cs[t as int] == trace.cycles@[t as int]@);
        out.set(base + 2 * NREG + NRAM + t, trace.cycles[t].m_q as u64);
        t = t + 1;
    }
    assert(out@ =~= target);
    out
}


/// Lookup index of (row, version) words read from the inout vector.
pub open spec fn claim_slot(row: u64, ver: u64) -> int {
    (row as usize) as int * VER_MAX as int + (ver as usize) as int
}

pub open spec fn io_at(io: Seq<u64>, k: nat, tl: nat, t: nat) -> u64 {
    io[io_slot(k, tl, t) as int]
}

/// Fetch claim of cycle `t`: (pc, instruction word).
pub open spec fn fetch_claim(io: Seq<u64>, tl: nat, t: nat) -> (usize, u64) {
    (io_at(io, 1, tl, t) as usize, io_at(io, 0, tl, t))
}

/// Register-table claims of cycle `t`: the two reads, then the write when flagged.
pub open spec fn reg_claims_of(io: Seq<u64>, tl: nat, t: nat) -> Seq<(usize, u64)> {
    let r1 = (claim_slot(io_at(io, 2, tl, t), io_at(io, 3, tl, t)) as usize, io_at(io, 4, tl, t));
    let r2 = (claim_slot(io_at(io, 5, tl, t), io_at(io, 6, tl, t)) as usize, io_at(io, 7, tl, t));
    let w = (claim_slot(io_at(io, 8, tl, t), io_at(io, 9, tl, t)) as usize, io_at(io, 10, tl, t));
    if io_at(io, 11, tl, t) != 0 {
        seq![r1, r2, w]
    } else {
        seq![r1, r2]
    }
}

/// RAM-table claims of cycle `t`: the read when flagged, then the write when flagged.
pub open spec fn ram_claims_of(io: Seq<u64>, tl: nat, t: nat) -> Seq<(usize, u64)> {
    let l = (claim_slot(io_at(io, 12, tl, t), io_at(io, 13, tl, t)) as usize, io_at(io, 14, tl, t));
    let st = (claim_slot(io_at(io, 16, tl, t), io_at(io, 17, tl, t)) as usize, io_at(io, 18, tl, t));
    (if io_at(io, 15, tl, t) != 0 {
        seq![l]
    } else {
        seq![]
    }) + (if io_at(io, 19, tl, t) != 0 {
        seq![st]
    } else {
        seq![]
    })
}

/// Register claims of the first `k` cycles, in cycle order.
pub open spec fn reg_claims(io: Seq<u64>, tl: nat, k: nat) -> Seq<(usize, u64)>
    decreases k,
{
    if k == 0 {
        seq![]
    } else {
        reg_claims(io, tl, (k - 1) as nat) + reg_claims_of(io, tl, (k - 1) as nat)
    }
}

/// RAM claims of the first `k` cycles, in cycle order.
pub open spec fn ram_claims(io: Seq<u64>, tl: nat, k: nat) -> Seq<(usize, u64)>
    decreases k,
{
    if k == 0 {
        seq![]
    } else {
        ram_claims(io, tl, (k - 1) as nat) + ram_claims_of(io, tl, (k - 1) as nat)
    }
}

/// The lookup indices of cycle `t`'s claims do not overflow.
pub open spec fn cycle_slots_fit(io: Seq<u64>, tl: nat, t: nat) -> bool {
    &&& claim_slot(io_at(io, 2, tl, t), io_at(io, 3, tl, t)) <= usize::MAX
    &&& claim_slot(io_at(io, 5, tl, t), io_at(io, 6, tl, t)) <= usize::MAX
    &&& claim_slot(io_at(io, 8, tl, t), io_at(io, 9, tl, t)) <= usize::MAX
    &&& claim_slot(io_at(io, 12, tl, t), io_at(io, 13, tl, t)) <= usize::MAX
    &&& claim_slot(io_at(io, 16, tl, t), io_at(io, 17, tl, t)) <= usize::MAX
}

/// The lookup indices of the inout vector's claims do not overflow.
pub open spec fn claim_slots_fit(io: Seq<u64>, tl: nat) -> bool {
    forall|t: nat| t < tl ==> #[trigger] cycle_slots_fit(io, tl, t)
}

/// Whether `row * stride + ver`, both read as `usize`, fits a `usize`.
pub(crate) fn index_fits(row: u64, ver: u64, stride: usize) -> (r: bool)
    ensures
        r == ((row as usize) as int * stride as int + (ver as usize) as int <= usize::MAX),
{
    let rw = row as usize;
    let v = ver as usize;
    match rw.checked_mul(stride) {
        Some(x) => x.checked_add(v).is_some(),
        None => {
            proof {
                assert(rw as int * stride as int + v as int >= rw as int * stride as int);
            }
            false
        },
    }
}

/// Position `k * t_len + t` of column `k` at cycle `t` lies below `cols * t_len`.
pub(crate) proof fn lemma_column_index(k: nat, cols: nat, t_len: nat, t: nat)
    requires
        k < cols,
        t < t_len,
    ensures
        k * t_len + t < cols * t_len,
{
    assert(k * t_len + t < cols * t_len) by (nonlinear_arith)
        requires
            k < cols,
            t < t_len,
    ;
}

/// Run-time form of the requirements of `claims_from_inout`: the vector holds
/// the 20 columns of `t_len` cycles and every claim index fits a `usize`.
pub fn claim_slots_fit_check(io: &[u64], t_len: usize) -> (r: bool)
    ensures
        r == (20 * t_len <= io@.len() && claim_slots_fit(io@, t_len as nat)),
{
    let len = io.len();
    let need = match t_len.checked_mul(20) {
        Some(n) => n,
        None => {
            proof {
                assert(20 * t_len == t_len * 20) by (nonlinear_arith);
            }
            return false;
        },
    };
    proof {
        assert(20 * t_len == t_len * 20) by (nonlinear_arith);
    }
    if need > io.len() {
        return false;
    }
    let ghost tl = t_len as nat;
    let mut t: usize = 0;
    while t < t_len
        invariant
            t <= t_len,
            tl == t_len,
            len == io@.len(),
            20 * t_len <= io@.len(),
            forall|u: nat| u < t ==> #[trigger] cycle_slots_fit(io@, tl, u),
        decreases t_len - t,
    {
        proof {
            lemma_column_index(17, 20, tl, t as nat);
            lemma_column_index(16, 20, tl, t as nat);
        }
        let mut ok = true;
        let pairs: [(usize, usize); 5] = [(2, 3), (5, 6), (8, 9), (12, 13), (16, 17)];
        assert(forall|p: int| 0 <= p < 5 ==> pairs@[p].0 < 20 && pairs@[p].1 < 20);
        let mut q: usize = 0;
        while q < 5
            invariant
                q <= 5,
                t < t_len,
                tl == t_len,
                len == io@.len(),
                20 * t_len <= io@.len(),
                pairs@ == seq![(2usize, 3usize), (5, 6), (8, 9), (12, 13), (16, 17)],
                forall|p: int| 0 <= p < 5 ==> pairs@[p].0 < 20 && pairs@[p].1 < 20,
                ok <==> forall|p: int| 0 <= p < q ==> claim_slot(
                    io_at(io@, pairs@[p].0 as nat, tl, t as nat),
                    io_at(io@, pairs@[p].1 as nat, tl, t as nat),
                ) <= usize::MAX,
            decreases 5 - q,
        {
            let (rk, vk) = pairs[q];
            proof {
                lemma_column_index(rk as nat, 20, tl, t as nat);
                lemma_column_index(vk as nat, 20, tl, t as nat);
            }
            let fits = index_fits(io[rk * t_len + t], io[vk * t_len + t], VER_MAX);
            ok = ok && fits;
            q = q + 1;
        }
        if !ok {
            proof {
                assert(!cycle_slots_fit(io@, tl, t as nat));
            }
            return false;
        }
        proof {
            assert(cycle_slots_fit(io@, tl, t as nat));
        }
        t = t + 1;
    }
    true
}

/// A claim list held as index vectors and claimed values.
pub open spec fn claims_match(idxs: Seq<Vec<usize>>, vals: Seq<u64>, cl: Seq<(usize, u64)>) -> bool {
    &&& idxs.len() == cl.len()
    &&& vals.len() == cl.len()
    &&& forall|i: int| 0 <= i < cl.len() ==> (#[trigger] idxs[i])@ == seq![cl[i].0] && vals[i] == cl[i].1
}

/// `claims_match` from its element-wise statement.
pub proof fn lemma_claims_match_intro(idxs: Seq<Vec<usize>>, vals: Seq<u64>, cl: Seq<(usize, u64)>)
    requires
        idxs.len() == cl.len(),
        vals.len() == cl.len(),
        forall|i: int| 0 <= i < cl.len() ==> (#[trigger] idxs[i])@ =~= seq![cl[i].0],
        forall|i: int| 0 <= i < cl.len() ==> #[trigger] vals[i] == cl[i].1,
    ensures
        claims_match(idxs, vals, cl),
{
    assert forall|i: int| 0 <= i < cl.len() implies (#[trigger] idxs[i])@ == seq![cl[i].0] && vals[i]
        == cl[i].1 by {
        assert(idxs[i]@ =~= seq![cl[i].0]);
        assert(vals[i] == cl[i].1);
    }
}

fn slot_from_words(row: u64, ver: u64) -> (r: usize)
    requires
        claim_slot(row, ver) <= usize::MAX,
    ensures
        r == claim_slot(row, ver),
{
    (row as usize) * VER_MAX + ver as usize
}

fn push_claim(idxs: &mut Vec<Vec<usize>>, vals: &mut Vec<u64>, idx: usize, val: u64)
    ensures
        final(idxs)@.len() == old(idxs)@.len() + 1,
        final(idxs)@.drop_last() == old(idxs)@,
        final(idxs)@.last()@ == seq![idx],
        final(vals)@ == old(vals)@.push(val),
{
    let mut v: Vec<usize> = Vec::new();
    v.push(idx);
    assert(v@ =~= seq![idx]);
    idxs.push(v);
    vals.push(val);
    assert(final(idxs)@.drop_last() =~= old(idxs)@);
}

/// Rebuild every lookup claim from a flat inout vector (not from a native
/// trace): per cycle a fetch claim (pc -> instruction), register claims for
/// the rs1 and rs2 reads and the flagged write, and RAM claims for the flagged
/// load and store. Indices are `row * VER_MAX + version`.
#[verifier::spinoff_prover]
#[verifier::rlimit(40)]
pub fn claims_from_inout(inout_words: &[u64], t_len: usize) -> (r: (
    Vec<Vec<usize>>,
    Vec<u64>,
    Vec<Vec<usize>>,
    Vec<u64>,
    Vec<Vec<usize>>,
    Vec<u64>,
))
    requires
        20 * t_len <= inout_words@.len(),
        claim_slots_fit(inout_words@, t_len as nat),
    ensures
        claims_match(
            r.0@,
            r.1@,
            Seq::new(t_len as nat, |t: int| fetch_claim(inout_words@, t_len as nat, t as nat)),
        ),
        claims_match(r.2@, r.3@, reg_claims(inout_words@, t_len as nat, t_len as nat)),
        claims_match(r.4@, r.5@, ram_claims(inout_words@, t_len as nat, t_len as nat)),
{
    let ghost io = inout_words@;
    let ghost tl = t_len as nat;
    let mut fetch_idxs: Vec<Vec<usize>> = Vec::new();
    let mut fetch_claims: Vec<u64> = Vec::new();
    let mut reg_idxs: Vec<Vec<usize>> = Vec::new();
    let mut reg_vals: Vec<u64> = Vec::new();
    let mut ram_idxs: Vec<Vec<usize>> = Vec::new();
    let mut ram_vals: Vec<u64> = Vec::new();
    let mut t: usize = 0;
    while t < t_len
        invariant
            t <= t_len,
            io == inout_words@,
            tl == t_len,
            20 * t_len <= io.len(),
            claim_slots_fit(io, tl),
            claims_match(
                fetch_idxs@,
                fetch_claims@,
                Seq::new(t as nat, |i: int| fetch_claim(io, tl, i as nat)),
            ),
            claims_match(reg_idxs@, reg_vals@, reg_claims(io, tl, t as nat)),
            claims_match(ram_idxs@, ram_vals@, ram_claims(io, tl, t as nat)),
        decreases t_len - t,
    {
        assert(19 * t_len + t < 20 * t_len);
        let ghost f0 = fetch_idxs@;
        let ghost fv0 = fetch_claims@;
        let inst = inout_words[io_inst(t_len, t)];
        let pc = inout_words[io_pc(t_len, t)];
        push_claim(&mut fetch_idxs, &mut fetch_claims, pc as usize, inst);
        assert(claims_match(
            fetch_idxs@,
            fetch_claims@,
            Seq::new((t + 1) as nat, |i: int| fetch_claim(io, tl, i as nat)),
        )) by {
            let cl = Seq::new((t + 1) as nat, |i: int| fetch_claim(io, tl, i as nat));
            assert forall|i: int| 0 <= i < cl.len() implies (#[trigger] fetch_idxs@[i])@ =~= seq![
                cl[i].0,
            ] by {
                if i < t {
                    assert(fetch_idxs@[i] == f0[i]);
                }
            }
            assert forall|i: int| 0 <= i < cl.len() implies #[trigger] fetch_claims@[i] == cl[i].1 by {
                if i < t {
                    assert(fetch_claims@[i] == fv0[i]);
                    let _ = f0[i];
                }
            }
            lemma_claims_match_intro(fetch_idxs@, fetch_claims@, cl);
        }
        // register table
        let ghost r0 = reg_idxs@;
        let ghost rv0 = reg_vals@;
        let ghost c0 = reg_claims(io, tl, t as nat);
        assert(cycle_slots_fit(io, tl, t as nat));
        let i1 = slot_from_words(inout_words[io_rd1_reg(t_len, t)], inout_words[io_rd1_ver(t_len, t)]);
        push_claim(&mut reg_idxs, &mut reg_vals, i1, inout_words[io_rd1_val(t_len, t)]);
        let i2 = slot_from_words(inout_words[io_rd2_reg(t_len, t)], inout_words[io_rd2_ver(t_len, t)]);
        push_claim(&mut reg_idxs, &mut reg_vals, i2, inout_words[io_rd2_val(t_len, t)]);
        if inout_words[io_wr_iswrite(t_len, t)] != 0 {
            let i3 = slot_from_words(inout_words[io_wr_reg(t_len, t)], inout_words[io_wr_ver(t_len, t)]);
            push_claim(&mut reg_idxs, &mut reg_vals, i3, inout_words[io_wr_val(t_len, t)]);
        }
        assert(claims_match(reg_idxs@, reg_vals@, reg_claims(io, tl, (t + 1) as nat))) by {
            let cl = reg_claims(io, tl, (t + 1) as nat);
            assert(cl == c0 + reg_claims_of(io, tl, t as nat));
            assert forall|i: int| 0 <= i < cl.len() implies (#[trigger] reg_idxs@[i])@ =~= seq![
                cl[i].0,
            ] by {
                if i < c0.len() {
                    assert(reg_idxs@[i] == r0[i]);
                }
            }
            assert forall|i: int| 0 <= i < cl.len() implies #[trigger] reg_vals@[i] == cl[i].1 by {
                if i < c0.len() {
                    assert(reg_vals@[i] == rv0[i]);
                    let _ = r0[i];
                }
            }
            lemma_claims_match_intro(reg_idxs@, reg_vals@, cl);
        }
        // RAM table
        let ghost m0 = ram_idxs@;
        let ghost mv0 = ram_vals@;
        let ghost d0 = ram_claims(io, tl, t as nat);
        if inout_words[io_is_load(t_len, t)] != 0 {
            let i4 = slot_from_words(inout_words[io_ld_addr(t_len, t)], inout_words[io_ld_ver(t_len, t)]);
            push_claim(&mut ram_idxs, &mut ram_vals, i4, inout_words[io_ld_val(t_len, t)]);
        }
        let ghost m1 = ram_idxs@;
        if inout_words[io_is_store(t_len, t)] != 0 {
            let i5 = slot_from_words(inout_words[io_st_addr(t_len, t)], inout_words[io_st_ver(t_len, t)]);
            push_claim(&mut ram_idxs, &mut ram_vals, i5, inout_words[io_st_val(t_len, t)]);
        }
        assert(claims_match(ram_idxs@, ram_vals@, ram_claims(io, tl, (t + 1) as nat))) by {
            let cl = ram_claims(io, tl, (t + 1) as nat);
            assert(cl == d0 + ram_claims_of(io, tl, t as nat));
            assert forall|i: int| 0 <= i < cl.len() implies (#[trigger] ram_idxs@[i])@ =~= seq![
                cl[i].0,
            ] by {
                if i < d0.len() {
                    assert(ram_idxs@[i] == m0[i]);
                } else if i < m1.len() {
                    assert(ram_idxs@[i] == m1[i]);
                }
            }
            assert forall|i: int| 0 <= i < cl.len() implies #[trigger] ram_vals@[i] == cl[i].1 by {
                if i < d0.len() {
                    assert(ram_vals@[i] == mv0[i]);
                    let _ = m0[i];
                }
            }
            lemma_claims_match_intro(ram_idxs@, ram_vals@, cl);
        }
        t = t + 1;
    }
    (fetch_idxs, fetch_claims, reg_idxs, reg_vals, ram_idxs, ram_vals)
}

} // verus!
