//! The single-address-per-round full VM: `N` rounds of
//! `t = mem[i]; x1 += t; i += 1; pc += 4` over the data memory
//! `[2, 3, 5, 7]`. The program and data tables are slot tables
//! (`mem_arg::slot_table`): word `r + 1` at `4r`, `mem[r]` at `r`.

use vstd::prelude::*;

verus! {

pub const PC_INC: u64 = 4;
/// Rounds.
pub const N: usize = 4;
pub const START_PC: u64 = 0x00;
pub const START_X1: u64 = 0x00;
/// Initial data memory.
pub const MEM: [u64; 4] = [2, 3, 5, 7];

/// x1 after `r` rounds: the sum of the first `r` data words.
pub open spec fn x1_after(mem: Seq<u64>, r: nat) -> int
    decreases r,
{
    if r == 0 {
        START_X1 as int
    } else {
        x1_after(mem, (r - 1) as nat) + mem[r - 1]
    }
}

/// The native run: the loaded words and the x1, i and pc chains (`N + 1`
/// entries each).
pub struct SumRun {
    pub load_vals: Vec<u64>,
    pub x1_chain: Vec<u64>,
    pub i_chain: Vec<u64>,
    pub pc_chain: Vec<u64>,
}

pub fn sum_rounds() -> (m: SumRun)
    ensures
        m.load_vals@ == MEM@,
        m.x1_chain@ == Seq::new((N + 1) as nat, |r: int| x1_after(MEM@, r as nat) as u64),
        m.i_chain@ == Seq::new((N + 1) as nat, |r: int| r as u64),
        m.pc_chain@ == Seq::new((N + 1) as nat, |r: int| (START_PC + 4 * r) as u64),
        m.x1_chain@[N as int] == 17,
{
    let mut load_vals: Vec<u64> = Vec::new();
    let mut x1_chain: Vec<u64> = Vec::new();
    x1_chain.push(START_X1);
    let mut i_chain: Vec<u64> = Vec::new();
    i_chain.push(0);
    let mut pc_chain: Vec<u64> = Vec::new();
    pc_chain.push(START_PC);
    proof {
        reveal_with_fuel(x1_after, 5);
        assert(x1_after(MEM@, 4) == 17);
    }
    let mut t: usize = 0;
    while t < N
        invariant
            t <= N,
            load_vals@ == MEM@.take(t as int),
            x1_chain@ == Seq::new((t + 1) as nat, |r: int| x1_after(MEM@, r as nat) as u64),
            i_chain@ == Seq::new((t + 1) as nat, |r: int| r as u64),
            pc_chain@ == Seq::new((t + 1) as nat, |r: int| (START_PC + 4 * r) as u64),
            forall|r: nat| r <= N ==> 0 <= #[trigger] x1_after(MEM@, r) <= 17,
        decreases N - t,
    {
        let mem_val = MEM[t];
        load_vals.push(mem_val);
        let last = x1_chain[x1_chain.len() - 1];
        assert(x1_after(MEM@, (t + 1) as nat) == x1_after(MEM@, t as nat) + MEM@[t as int]);
        assert(x1_after(MEM@, (t + 1) as nat) <= 17);
        x1_chain.push(last.wrapping_add(mem_val));
        let ni = i_chain[i_chain.len() - 1] + 1;
        i_chain.push(ni);
        let np = pc_chain[pc_chain.len() - 1] + PC_INC;
        pc_chain.push(np);
        proof {
            assert(load_vals@ =~= MEM@.take(t + 1));
            assert(x1_chain@ =~= Seq::new((t + 2) as nat, |r: int| x1_after(MEM@, r as nat) as u64));
            assert(i_chain@ =~= Seq::new((t + 2) as nat, |r: int| r as u64));
            assert(pc_chain@ =~= Seq::new((t + 2) as nat, |r: int| (START_PC + 4 * r) as u64));
        }
        t = t + 1;
    }
    assert(MEM@.take(N as int) =~= MEM@);
    SumRun { load_vals, x1_chain, i_chain, pc_chain }
}

} // verus!
