//! The Jolt-shaped full-VM slice: instruction words are a 2-bit opcode over
//! a 6-bit operand, and the fetched word decides what a cycle does
//! (`addi`: `x1 += operand`; `beq`: jump to `operand << 2` when `x1 == LIMIT`).

use vstd::prelude::*;
use crate::bits::bv_u64;

verus! {

/// Number of executed cycles.
pub const N: usize = 3;
/// Executed pcs (0x8 is skipped by the branch) and their words.
pub const EXEC_PCS: [u64; 3] = [0x0, 0x4, 0x10];
pub const EXEC_WORDS: [u64; 3] = [0x45, 0x84, 0x41];

pub const PC_INC: u64 = 4;
/// `beq` compares x1 against this constant.
pub const LIMIT: u64 = 5;
pub const OP_ADDI: u64 = 1;
pub const OP_BEQ: u64 = 2;
/// The program memory has `2^M` byte-address slots.
pub const M: usize = 6;

/// The word `op : operand[5:0]`.
pub fn enc(op: u64, operand: u64) -> (w: u64)
    ensures
        w == (op << 6) + operand % 64,
{
    proof {
        assert((op << 6) | (operand & 0x3f) == (op << 6) + operand % 64) by (bit_vector);
    }
    (op << 6) | (operand & 0x3f)
}

/// The x1 and pc chains of executing `words` from `x1 = 0, pc = 0`: an
/// `addi` word adds its operand to x1 (wrapping) and advances pc by 4; a `beq`
/// word keeps x1 and jumps to `(operand << 2) & 0xff` when x1 is `LIMIT`,
/// else advances pc by 4; a word with another opcode is skipped.
pub open spec fn jolt_run(words: Seq<u64>) -> (Seq<u64>, Seq<u64>)
    decreases words.len(),
{
    if words.len() == 0 {
        (seq![0u64], seq![0u64])
    } else {
        let prev = jolt_run(words.drop_last());
        let w = words.last();
        let op = w >> 6;
        let operand = w & 0x3f;
        let x1 = prev.0.last();
        let pc = prev.1.last();
        if op == OP_ADDI {
            (prev.0.push(x1.wrapping_add(operand)), prev.1.push((pc + PC_INC) as u64))
        } else if op == OP_BEQ {
            let next_pc: u64 = if x1 == LIMIT {
                (operand << 2) & 0xff
            } else {
                (pc + PC_INC) as u64
            };
            (prev.0.push(x1), prev.1.push(next_pc))
        } else {
            prev
        }
    }
}

proof fn lemma_jolt_run_shape(words: Seq<u64>)
    ensures
        jolt_run(words).0.len() == jolt_run(words).1.len(),
        1 <= jolt_run(words).1.len() <= words.len() + 1,
        jolt_run(words).1.last() <= 0xff + 4 * words.len(),
    decreases words.len(),
{
    if words.len() > 0 {
        lemma_jolt_run_shape(words.drop_last());
        let w = words.last();
        let operand = w & 0x3f;
        assert((operand << 2) & 0xff <= 0xff) by (bit_vector);
    }
}

/// The native x1 and pc chains of the word-driven machine.
pub fn jolt_chains(words: &[u64]) -> (r: (Vec<u64>, Vec<u64>))
    requires
        words@.len() < 0x1000_0000_0000_0000,
    ensures
        r.0@ == jolt_run(words@).0,
        r.1@ == jolt_run(words@).1,
{
    let mut x1_chain: Vec<u64> = Vec::new();
    x1_chain.push(0);
    let mut pc_chain: Vec<u64> = Vec::new();
    pc_chain.push(0);
    let mut c: usize = 0;
    proof {
        assert(words@.take(0) =~= Seq::<u64>::empty());
    }
    while c < words.len()
        invariant
            c <= words@.len() < 0x1000_0000_0000_0000,
            x1_chain@ == jolt_run(words@.take(c as int)).0,
            pc_chain@ == jolt_run(words@.take(c as int)).1,
        decreases words@.len() - c,
    {
        proof {
            lemma_jolt_run_shape(words@.take(c as int));
            assert(words@.take(c + 1).drop_last() =~= words@.take(c as int));
        }
        let w = words[c];
        let op = w >> 6;
        let operand = w & 0x3f;
        let last_x1 = x1_chain[x1_chain.len() - 1];
        let last_pc = pc_chain[pc_chain.len() - 1];
        if op == OP_ADDI {
            x1_chain.push(last_x1.wrapping_add(operand));
            pc_chain.push(last_pc + PC_INC);
        } else if op == OP_BEQ {
            if last_x1 == LIMIT {
                pc_chain.push((operand << 2) & 0xff);
            } else {
                pc_chain.push(last_pc + PC_INC);
            }
            x1_chain.push(last_x1);
        }
        c = c + 1;
    }
    proof {
        assert(words@.take(c as int) =~= words@);
    }
    (x1_chain, pc_chain)
}

/// The program memory image: `2^M` slots indexed by byte address, with the
/// whole program (the skipped `addi x1, 100` at 0x8 included) and zero
/// elsewhere.
pub open spec fn jolt_program_spec() -> Seq<u64> {
    Seq::new(
        64,
        |k: int|
            if k == 0 {
                0x45u64  // addi x1, 5
            } else if k == 4 {
                0x84u64  // beq -> 0x10
            } else if k == 8 {
                0x64u64  // addi x1, 100 (operand truncated to 6 bits)
            } else if k == 16 {
                0x41u64  // addi x1, 1
            } else {
                0u64
            },
    )
}

pub fn jolt_program() -> (t: Vec<u64>)
    ensures
        t@ == jolt_program_spec(),
{
    let table_size: usize = 1usize << M;
    assert(table_size == 64 && OP_ADDI << 6 == 64 && OP_BEQ << 6 == 128 && 0x0usize & 63 == 0
        && 0x4usize & 63 == 4 && 0x8usize & 63 == 8 && 0x10usize & 63 == 16 && 0x10u64 >> 2u64 == 4)
        by (bit_vector)
        requires
            table_size == 1usize << 6usize,
    ;
    let mut prog: Vec<u64> = Vec::new();
    let mut k: usize = 0;
    while k < table_size
        invariant
            k <= table_size == 64,
            prog@.len() == k,
            forall|q: int| 0 <= q < k ==> #[trigger] prog@[q] == 0,
        decreases table_size - k,
    {
        prog.push(0);
        k = k + 1;
    }
    let mask: usize = table_size - 1;
    let w0 = enc(OP_ADDI, 5);
    let w1 = enc(OP_BEQ, 0x10 >> 2);
    let w2 = enc(OP_ADDI, 100);
    let w3 = enc(OP_ADDI, 1);
    assert(w0 == 0x45 && w1 == 0x84 && w2 == 0x64 && w3 == 0x41);
    assert(mask == 63);
    prog.set(0x0 & mask, w0);
    prog.set(0x4 & mask, w1);
    prog.set(0x8 & mask, w2);
    prog.set(0x10 & mask, w3);
    proof {
        assert(prog@ =~= jolt_program_spec());
    }
    prog
}

/// The fetch lookups of the executed cycles: the slot `pc & (2^M - 1)` of
/// each executed pc, and the word claimed there.
pub fn jolt_fetch_lookups(pcs: &[u64], words: &[u64]) -> (r: (Vec<usize>, Vec<u64>))
    requires
        pcs@.len() == words@.len(),
    ensures
        r.0@.len() == pcs@.len(),
        r.1@ == words@,
        forall|c: int| 0 <= c < pcs@.len() ==> #[trigger] r.0@[c] == pcs@[c] % 64,
{
    let mut index_cols: Vec<usize> = Vec::new();
    let mut claims: Vec<u64> = Vec::new();
    let mut c: usize = 0;
    while c < pcs.len()
        invariant
            c <= pcs@.len() == words@.len(),
            index_cols@.len() == c,
            claims@ == words@.take(c as int),
            forall|q: int| 0 <= q < c ==> #[trigger] index_cols@[q] == pcs@[q] % 64,
        decreases pcs@.len() - c,
    {
        let pc = pcs[c];
        let slot = pc & 63;
        proof {
            bv_u64(pc);
        }
        index_cols.push(slot as usize);
        claims.push(words[c]);
        proof {
            assert(claims@ =~= words@.take(c + 1));
        }
        c = c + 1;
    }
    proof {
        assert(claims@ =~= words@.take(c as int));
        assert(words@.take(c as int) =~= words@);
    }
    (index_cols, claims)
}

} // verus!
