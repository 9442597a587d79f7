//! The integrated zkVM program: initialise x1, x2, x5 = 4, x6 = 1, then loop
//! `add x1,x1,x2; add x2,x2,x6; sw x1,0(x0); lw x3,0(x0); beq x2,x5,end`
//! until x2 reaches 4, so x1 = 0+1+2+3 = 6 and every load reads the store
//! just before it. `run_program` yields the program table and the executed
//! rows.

use vstd::prelude::*;
pub use crate::encode::{
    OP_ADDI, OP_ADD, OP_LW, OP_SW, OP_BEQ, F3_ADD, F3_LW, F3_SW, F3_BEQ, REG_X0, REG_X1, REG_X2,
    REG_X3, REG_X5, REG_X6, enc_addi, enc_add, enc_lw, enc_sw, enc_beq, addi_word, add_word,
    lw_word, sw_word, beq_word,
};
pub use crate::slices::full_vm_multi::log2_ceil;
use crate::slices::time_ordered::TimedAccess;
use crate::vm32::pipeline::{claims_match, lemma_claims_match_intro};

verus! {

/// Bit width of the modelled words.
pub const BITS: usize = 8;
pub const PC_INC: u64 = 4;
pub const NREG: usize = 8;
/// Data memory addresses (0..3).
pub const MEM_AS: usize = 4;
/// Timestamps of the data-memory table.
pub const TS_MAX: usize = 8;
/// Address bits of the program table.
pub const FETCH_M: usize = 4;

#[derive(Clone, Copy, Debug, PartialEq, Eq, Structural)]
pub enum Op {
    Addi,
    Add,
    Lw,
    Sw,
    Beq,
}

/// One executed instruction.
#[derive(Clone, Copy, Debug, PartialEq, Eq, Structural)]
pub struct Row {
    pub pc: u64,
    pub op: Op,
    /// Register index of operand A.
    pub rs1: u64,
    /// Register index of operand B (add) or of the stored value.
    pub rs2: u64,
    pub rd: u64,
    /// Immediate (addi) or branch target offset.
    pub imm: u64,
    pub a: u64,
    pub b: u64,
    /// ALU result; the loaded or stored value for lw/sw; 1/0 for a taken/untaken beq.
    pub res: u64,
    pub mem_addr: u64,
    pub mem_store_val: u64,
    pub load_val: u64,
    pub taken: bool,
}

pub open spec fn plain_row(pc: u64, op: Op, rs1: u64, rs2: u64, rd: u64, imm: u64, a: u64, b: u64, res: u64) -> Row {
    Row { pc, op, rs1, rs2, rd, imm, a, b, res, mem_addr: 0, mem_store_val: 0, load_val: 0, taken: false }
}

/// Sum `0 + 1 + ... + (i - 1)`.
pub open spec fn tri(i: nat) -> nat
    decreases i,
{
    if i == 0 {
        0
    } else {
        tri((i - 1) as nat) + (i - 1) as nat
    }
}

/// The rows of loop iteration `i` (0-based): x1 = tri(i), x2 = i before it.
pub open spec fn iteration_rows(i: nat) -> Seq<Row> {
    let r1 = tri(i) as u64;
    let r2 = i as u64;
    let s = tri(i + 1) as u64;
    let n2 = (i + 1) as u64;
    let taken = n2 == 4;
    seq![
        plain_row(0x10, Op::Add, REG_X1, REG_X2, REG_X1, 0, r1, r2, s),
        plain_row(0x14, Op::Add, REG_X2, REG_X6, REG_X2, 0, r2, 1, n2),
        Row {
            pc: 0x18,
            op: Op::Sw,
            rs1: REG_X0,
            rs2: REG_X1,
            rd: 0,
            imm: 0,
            a: s,
            b: s,
            res: s,
            mem_addr: 0,
            mem_store_val: s,
            load_val: 0,
            taken: false,
        },
        Row {
            pc: 0x1c,
            op: Op::Lw,
            rs1: REG_X0,
            rs2: 0,
            rd: REG_X3,
            imm: 0,
            a: s,
            b: s,
            res: s,
            mem_addr: 0,
            mem_store_val: 0,
            load_val: s,
            taken: false,
        },
        Row {
            pc: 0x20,
            op: Op::Beq,
            rs1: REG_X2,
            rs2: REG_X5,
            rd: 0,
            imm: 0,
            a: n2,
            b: 4,
            res: if taken { 1 } else { 0 },
            mem_addr: 0,
            mem_store_val: 0,
            load_val: 0,
            taken,
        },
    ]
}

/// The rows of the first `k` loop iterations.
pub open spec fn loop_rows(k: nat) -> Seq<Row>
    decreases k,
{
    if k == 0 {
        seq![]
    } else {
        loop_rows((k - 1) as nat) + iteration_rows((k - 1) as nat)
    }
}

/// The four initialising `addi` rows.
pub open spec fn init_rows() -> Seq<Row> {
    seq![
        plain_row(0x00, Op::Addi, REG_X0, REG_X0, REG_X1, 0, 0, 0, 0),
        plain_row(0x04, Op::Addi, REG_X0, REG_X0, REG_X2, 0, 0, 0, 0),
        plain_row(0x08, Op::Addi, REG_X0, REG_X0, REG_X5, 4, 0, 0, 4),
        plain_row(0x0c, Op::Addi, REG_X0, REG_X0, REG_X6, 1, 0, 0, 1),
    ]
}

/// The program table: the nine words at `pc >> 2`, zero elsewhere.
pub open spec fn program_table() -> Seq<u64> {
    seq![
        addi_word(0, REG_X1, REG_X0),
        addi_word(0, REG_X2, REG_X0),
        addi_word(4, REG_X5, REG_X0),
        addi_word(1, REG_X6, REG_X0),
        add_word(REG_X1, REG_X1, REG_X2),
        add_word(REG_X2, REG_X2, REG_X6),
        sw_word(REG_X0, REG_X1),
        lw_word(REG_X3, REG_X0),
        beq_word(REG_X2, REG_X5, 0),
        0u64,
        0u64,
        0u64,
        0u64,
        0u64,
        0u64,
        0u64,
    ]
}

/// Run the program natively: the program table and the executed rows (the
/// four initialising rows, then four loop iterations, the last ending with
/// the taken branch).
pub fn run_program() -> (r: (Vec<u64>, Vec<Row>))
    ensures
        r.0@ == program_table(),
        r.1@ == init_rows() + loop_rows(4),
{
    let mut mem = [0u64; MEM_AS];
    let mut rows: Vec<Row> = Vec::new();
    rows.push(Row { pc: 0x00, op: Op::Addi, rs1: REG_X0, rs2: REG_X0, rd: REG_X1, imm: 0, a: 0, b: 0, res: 0, mem_addr: 0, mem_store_val: 0, load_val: 0, taken: false });
    let mut r1: u64 = 0;
    rows.push(Row { pc: 0x04, op: Op::Addi, rs1: REG_X0, rs2: REG_X0, rd: REG_X2, imm: 0, a: 0, b: 0, res: 0, mem_addr: 0, mem_store_val: 0, load_val: 0, taken: false });
    let mut r2: u64 = 0;
    rows.push(Row { pc: 0x08, op: Op::Addi, rs1: REG_X0, rs2: REG_X0, rd: REG_X5, imm: 4, a: 0, b: 0, res: 4, mem_addr: 0, mem_store_val: 0, load_val: 0, taken: false });
    let r5: u64 = 4;
    rows.push(Row { pc: 0x0c, op: Op::Addi, rs1: REG_X0, rs2: REG_X0, rd: REG_X6, imm: 1, a: 0, b: 0, res: 1, mem_addr: 0, mem_store_val: 0, load_val: 0, taken: false });
    let r6: u64 = 1;
    assert(rows@ =~= init_rows() + loop_rows(0));
    let mut i: u64 = 0;
    while i < 4
        invariant
            i <= 4,
            r5 == 4,
            r6 == 1,
            r1 == tri(i as nat),
            r2 == i,
            rows@ == init_rows() + loop_rows(i as nat),
        ensures
            i == 4,
            rows@ == init_rows() + loop_rows(i as nat),
        decreases 4 - i,
    {
        let ghost before = rows@;
        assert(tri((i + 1) as nat) == tri(i as nat) + i);
        assert(tri(i as nat) <= 6) by {
            reveal_with_fuel(tri, 5);
        }
        let na = r1 + r2;
        rows.push(Row { pc: 0x10, op: Op::Add, rs1: REG_X1, rs2: REG_X2, rd: REG_X1, imm: 0, a: r1, b: r2, res: na, mem_addr: 0, mem_store_val: 0, load_val: 0, taken: false });
        r1 = na;
        let nb = r2 + r6;
        rows.push(Row { pc: 0x14, op: Op::Add, rs1: REG_X2, rs2: REG_X6, rd: REG_X2, imm: 0, a: r2, b: r6, res: nb, mem_addr: 0, mem_store_val: 0, load_val: 0, taken: false });
        r2 = nb;
        mem[0] = r1;
        rows.push(Row { pc: 0x18, op: Op::Sw, rs1: REG_X0, rs2: REG_X1, rd: 0, imm: 0, a: r1, b: r1, res: r1, mem_addr: 0, mem_store_val: r1, load_val: 0, taken: false });
        let nv = mem[0];
        rows.push(Row { pc: 0x1c, op: Op::Lw, rs1: REG_X0, rs2: 0, rd: REG_X3, imm: 0, a: nv, b: nv, res: nv, mem_addr: 0, mem_store_val: 0, load_val: nv, taken: false });
        let taken = r2 == r5;
        rows.push(Row { pc: 0x20, op: Op::Beq, rs1: REG_X2, rs2: REG_X5, rd: 0, imm: 0, a: r2, b: r5, res: if taken { 1 } else { 0 }, mem_addr: 0, mem_store_val: 0, load_val: 0, taken });
        proof {
            assert(rows@ =~= before + iteration_rows(i as nat));
            assert(loop_rows((i + 1) as nat) == loop_rows(i as nat) + iteration_rows(i as nat));
            assert(init_rows() + loop_rows((i + 1) as nat) =~= init_rows() + loop_rows(i as nat)
                + iteration_rows(i as nat));
        }
        i = i + 1;
        if taken {
            break;
        }
    }
    let mut prog: Vec<u64> = Vec::new();
    prog.push(enc_addi(0, REG_X1, REG_X0));
    prog.push(enc_addi(0, REG_X2, REG_X0));
    prog.push(enc_addi(4, REG_X5, REG_X0));
    prog.push(enc_addi(1, REG_X6, REG_X0));
    prog.push(enc_add(REG_X1, REG_X1, REG_X2));
    prog.push(enc_add(REG_X2, REG_X2, REG_X6));
    prog.push(enc_sw(REG_X0, REG_X1));
    prog.push(enc_lw(REG_X3, REG_X0));
    prog.push(enc_beq(REG_X2, REG_X5, 0));
    let mut k: usize = 9;
    while k < 16
        invariant
            9 <= k <= 16,
            prog@ == program_table().take(k as int),
        decreases 16 - k,
    {
        prog.push(0);
        assert(prog@ =~= program_table().take(k + 1));
        k = k + 1;
    }
    assert(prog@ =~= program_table());
    (prog, rows)
}


/// The data-memory accesses of the rows, in order: each store and each load
/// gets the next timestamp (0, 1, ...); other rows make no access.
pub open spec fn mem_accesses_spec(rows: Seq<Row>) -> Seq<TimedAccess>
    decreases rows.len(),
{
    if rows.len() == 0 {
        seq![]
    } else {
        let prev = mem_accesses_spec(rows.drop_last());
        let r = rows.last();
        match r.op {
            Op::Sw => prev.push(
                TimedAccess { ts: prev.len() as usize, loc: r.mem_addr as usize, val: r.mem_store_val, is_write: true },
            ),
            Op::Lw => prev.push(
                TimedAccess { ts: prev.len() as usize, loc: r.mem_addr as usize, val: r.load_val, is_write: false },
            ),
            _ => prev,
        }
    }
}

proof fn lemma_mem_accesses_len(rows: Seq<Row>)
    ensures
        mem_accesses_spec(rows).len() <= rows.len(),
    decreases rows.len(),
{
    if rows.len() > 0 {
        lemma_mem_accesses_len(rows.drop_last());
    }
}

pub fn mem_accesses(rows: &[Row]) -> (acc: Vec<TimedAccess>)
    ensures
        acc@ == mem_accesses_spec(rows@),
{
    let mut acc: Vec<TimedAccess> = Vec::new();
    let mut i: usize = 0;
    while i < rows.len()
        invariant
            i <= rows@.len(),
            acc@ == mem_accesses_spec(rows@.take(i as int)),
        decreases rows.len() - i,
    {
        let r = rows[i];
        assert(rows@.take(i + 1).drop_last() =~= rows@.take(i as int));
        assert(rows@.take(i + 1).last() == r);
        proof {
            lemma_mem_accesses_len(rows@.take(i as int));
        }
        match r.op {
            Op::Sw => {
                acc.push(TimedAccess { ts: acc.len(), loc: r.mem_addr as usize, val: r.mem_store_val, is_write: true });
            },
            Op::Lw => {
                acc.push(TimedAccess { ts: acc.len(), loc: r.mem_addr as usize, val: r.load_val, is_write: false });
            },
            _ => {},
        }
        i = i + 1;
    }
    assert(rows@.take(i as int) =~= rows@);
    acc
}

/// The fetch lookups of the rows: program-table slot `(pc >> 2) mod 2^FETCH_M`
/// and the word the program holds at `pc >> 2`.
pub open spec fn fetch_claims(prog: Seq<u64>, rows: Seq<Row>) -> Seq<(usize, u64)> {
    Seq::new(
        rows.len(),
        |k: int| ((((rows[k].pc >> 2) as usize) & 15usize), prog[((rows[k].pc >> 2) as usize) as int]),
    )
}

pub fn fetch_lookups(prog: &[u64], rows: &[Row]) -> (r: (Vec<Vec<usize>>, Vec<u64>))
    requires
        forall|k: int| 0 <= k < rows@.len() ==> (((#[trigger] rows@[k]).pc >> 2) as usize) < prog@.len(),
    ensures
        claims_match(r.0@, r.1@, fetch_claims(prog@, rows@)),
{
    let ghost cl = fetch_claims(prog@, rows@);
    let mut idx: Vec<Vec<usize>> = Vec::new();
    let mut vals: Vec<u64> = Vec::new();
    let n = rows.len();
    let mut k: usize = 0;
    while k < n
        invariant
            k <= n,
            n == rows@.len(),
            cl == fetch_claims(prog@, rows@),
            forall|q: int| 0 <= q < rows@.len() ==> (((#[trigger] rows@[q]).pc >> 2) as usize) < prog@.len(),
            idx@.len() == k,
            vals@.len() == k,
            forall|q: int| 0 <= q < k ==> (#[trigger] idx@[q])@ =~= seq![cl[q].0],
            forall|q: int| 0 <= q < k ==> #[trigger] vals@[q] == cl[q].1,
        decreases n - k,
    {
        let slot = (rows[k].pc >> 2) as usize;
        assert(slot < prog@.len());
        let mut v: Vec<usize> = Vec::new();
        v.push(slot & 15);
        let ghost before = idx@;
        idx.push(v);
        vals.push(prog[slot]);
        proof {
            assert forall|q: int| 0 <= q < k + 1 implies (#[trigger] idx@[q])@ =~= seq![cl[q].0] by {
                if q < k {
                    assert(idx@[q] == before[q]);
                }
            }
        }
        k = k + 1;
    }
    proof {
        lemma_claims_match_intro(idx@, vals@, cl);
    }
    (idx, vals)
}

} // verus!
