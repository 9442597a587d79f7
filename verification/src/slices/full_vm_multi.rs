//! The multi-address full VM: `N` rounds of
//! `t = mem[i & 1]; x1 += t; mem[i & 1] = x1 + 1; i += 1; pc += 4` from
//! `mem[0] = 1, mem[1] = 5`, so the two words are read-modify-written in
//! turn. Round `r` loads at timestamp `2r` and stores at `2r + 1`; the
//! time-ordered state table holds every word's value at every timestamp.
//! Also the table-size logarithm shared by the proof pipelines.

use vstd::prelude::*;
use vstd::arithmetic::power2::pow2;
use crate::vm32::pipeline::claims_match;

verus! {

/// Memory word a register index addresses (the low bit).
pub fn r_addr(r: usize) -> (a: usize)
    ensures
        a == r % 2,
{
    proof {
        assert(r & 1 == r % 2) by (bit_vector);
    }
    r & 1
}

/// Number of address bits of a table with `x` rows: the least `n` with `2^n >= x`.
pub fn log2_ceil(x: usize) -> (n: usize)
    requires
        x <= 0x8000_0000_0000_0000,
    ensures
        pow2(n as nat) >= x,
        n == 0 || pow2((n - 1) as nat) < x,
        n <= 63,
{
    let mut n: usize = 0;
    let mut p: u64 = 1;
    proof {
        vstd::arithmetic::power2::lemma2_to64();
        vstd::arithmetic::power2::lemma2_to64_rest();
    }
    while p < x as u64
        invariant
            x <= 0x8000_0000_0000_0000,
            n <= 63,
            p == pow2(n as nat),
            n == 0 || pow2((n - 1) as nat) < x,
        decreases 0x1_0000_0000_0000_0000 - p,
    {
        proof {
            vstd::arithmetic::power2::lemma_pow2_adds(n as nat, 1);
            vstd::arithmetic::power2::lemma2_to64();
            vstd::arithmetic::power2::lemma2_to64_rest();
            if n >= 63 {
                vstd::arithmetic::power2::lemma_pow2_strictly_increases(63, n as nat);
            }
        }
        p = p * 2;
        n = n + 1;
    }
    n
}

pub const BITS: usize = 8;
pub const PC_INC: u64 = 4;
/// Rounds.
pub const N: usize = 4;
pub const START_PC: u64 = 0x00;
pub const START_X1: u64 = 0x00;
/// Initial words 0 and 1.
pub const MEM_INIT: [u64; 2] = [1, 5];
/// Data memory addresses.
pub const ADDR: usize = 4;
/// Timestamps of the state table.
pub const TS_MAX: usize = 8;
/// Address bits of the program table.
pub const FETCH_M: usize = 6;

/// Data memory, x1 and the per-round load and store values after `r` rounds.
pub struct RoundState {
    pub mem: Seq<u64>,
    pub x1: u64,
    pub loads: Seq<u64>,
    pub stores: Seq<u64>,
}

pub open spec fn rounds(r: nat) -> RoundState
    decreases r,
{
    if r == 0 {
        RoundState { mem: seq![1u64, 5u64, 0u64, 0u64], x1: START_X1, loads: seq![], stores: seq![] }
    } else {
        let p = rounds((r - 1) as nat);
        let a = ((r - 1) % 2) as int;
        let lv = p.mem[a];
        let nx = p.x1.wrapping_add(lv);
        let sv = (nx + 1) as u64;
        RoundState { mem: p.mem.update(a, sv), x1: nx, loads: p.loads.push(lv), stores: p.stores.push(sv) }
    }
}

proof fn lemma_round_bounds()
    ensures
        forall|q: nat| q <= N ==> (#[trigger] rounds(q)).x1 <= 15 && rounds(q).mem.len() == 4
            && forall|a: int| 0 <= a < 4 ==> rounds(q).mem[a] <= 16,
{
    reveal_with_fuel(rounds, 5);
    assert forall|q: nat| q <= N implies (#[trigger] rounds(q)).x1 <= 15 && rounds(q).mem.len() == 4
        && forall|a: int| 0 <= a < 4 ==> rounds(q).mem[a] <= 16 by {
        assert(rounds(1).x1 == 1 && rounds(2).x1 == 6 && rounds(3).x1 == 8 && rounds(4).x1 == 15);
        assert(rounds(0).mem =~= seq![1u64, 5u64, 0u64, 0u64]);
        assert(rounds(1).mem =~= seq![2u64, 5u64, 0u64, 0u64]);
        assert(rounds(2).mem =~= seq![2u64, 7u64, 0u64, 0u64]);
        assert(rounds(3).mem =~= seq![9u64, 7u64, 0u64, 0u64]);
        assert(rounds(4).mem =~= seq![9u64, 16u64, 0u64, 0u64]);
    }
}

/// The native run: load values, store values, and the x1, i and pc chains
/// (`N + 1` entries each, starting at 0, 0 and `START_PC`).
pub struct MultiRun {
    pub load_vals: Vec<u64>,
    pub store_vals: Vec<u64>,
    pub x1_chain: Vec<u64>,
    pub i_chain: Vec<u64>,
    pub pc_chain: Vec<u64>,
}

/// Run the `N` rounds natively.
pub fn multi_rounds() -> (m: MultiRun)
    ensures
        m.load_vals@ == rounds(N as nat).loads,
        m.store_vals@ == rounds(N as nat).stores,
        m.x1_chain@ == Seq::new((N + 1) as nat, |r: int| rounds(r as nat).x1),
        m.i_chain@ == Seq::new((N + 1) as nat, |r: int| r as u64),
        m.pc_chain@ == Seq::new((N + 1) as nat, |r: int| (START_PC + 4 * r) as u64),
{
    let mut mem: [u64; 4] = [0u64; 4];
    mem[0] = MEM_INIT[0];
    mem[1] = MEM_INIT[1];
    let mut load_vals: Vec<u64> = Vec::new();
    let mut store_vals: Vec<u64> = Vec::new();
    let mut x1_chain: Vec<u64> = Vec::new();
    x1_chain.push(START_X1);
    let mut i_chain: Vec<u64> = Vec::new();
    i_chain.push(0);
    let mut pc_chain: Vec<u64> = Vec::new();
    pc_chain.push(START_PC);
    proof {
        assert(mem@ =~= rounds(0).mem);
        assert(x1_chain@ =~= Seq::new(1, |r: int| rounds(r as nat).x1));
        assert(i_chain@ =~= Seq::new(1, |r: int| r as u64));
        assert(pc_chain@ =~= Seq::new(1, |r: int| (START_PC + 4 * r) as u64));
    }
    proof {
        lemma_round_bounds();
    }
    let mut r: usize = 0;
    while r < N
        invariant
            r <= N,
            mem@ == rounds(r as nat).mem,
            load_vals@ == rounds(r as nat).loads,
            store_vals@ == rounds(r as nat).stores,
            x1_chain@ == Seq::new((r + 1) as nat, |q: int| rounds(q as nat).x1),
            i_chain@ == Seq::new((r + 1) as nat, |q: int| q as u64),
            pc_chain@ == Seq::new((r + 1) as nat, |q: int| (START_PC + 4 * q) as u64),
            forall|q: nat| q <= N ==> (#[trigger] rounds(q)).x1 <= 15 && rounds(q).mem.len() == 4
                && forall|a: int| 0 <= a < 4 ==> rounds(q).mem[a] <= 16,
        decreases N - r,
    {
        assert(rounds((r + 1) as nat).x1 <= 15);
        let addr = r_addr(r);
        let lv = mem[addr];
        load_vals.push(lv);
        let last = x1_chain[x1_chain.len() - 1];
        let nx = last.wrapping_add(lv);
        x1_chain.push(nx);
        store_vals.push(nx + 1);
        mem[addr] = nx + 1;
        let ni = i_chain[i_chain.len() - 1] + 1;
        i_chain.push(ni);
        let np = pc_chain[pc_chain.len() - 1] + PC_INC;
        pc_chain.push(np);
        proof {
            assert(x1_chain@ =~= Seq::new((r + 2) as nat, |q: int| rounds(q as nat).x1));
            assert(i_chain@ =~= Seq::new((r + 2) as nat, |q: int| q as u64));
            assert(pc_chain@ =~= Seq::new((r + 2) as nat, |q: int| (START_PC + 4 * q) as u64));
            assert(mem@ =~= rounds((r + 1) as nat).mem);
        }
        r = r + 1;
    }
    MultiRun { load_vals, store_vals, x1_chain, i_chain, pc_chain }
}

/// The program table: word `r + 1` at `START_PC + 4r` for each round, 0 elsewhere.
pub fn fetch_table() -> (p: Vec<u64>)
    ensures
        p@ == Seq::new(64, |k: int| if k % 4 == 0 && k < 16 { (k / 4 + 1) as u64 } else { 0u64 }),
{
    let fetch_size: usize = 64;
    let mut p: Vec<u64> = vec![0u64; fetch_size];
    let mut r: usize = 0;
    while r < N
        invariant
            r <= N,
            fetch_size == 64,
            p@.len() == 64,
            forall|k: int|
                0 <= k < 64 ==> p@[k] == (if k % 4 == 0 && k < 4 * r { (k / 4 + 1) as u64 } else { 0u64 }),
        decreases N - r,
    {
        let base = START_PC as usize + r * PC_INC as usize;
        let slot = base & (fetch_size - 1);
        proof {
            assert(base & 63usize == base) by (bit_vector)
                requires
                    base < 64,
            ;
        }
        p.set(slot, (r as u64) + 1);
        r = r + 1;
    }
    assert(p@ =~= Seq::new(64, |k: int| if k % 4 == 0 && k < 16 { (k / 4 + 1) as u64 } else { 0u64 }));
    p
}

/// Value of word `a` at timestamp `ts`: the initial word, overwritten by the
/// store of round `r` from timestamp `2r + 1` on.
pub open spec fn state_value(stores: Seq<u64>, ts: nat, a: int) -> u64
    decreases ts,
{
    if ts == 0 {
        if a == 0 {
            1
        } else if a == 1 {
            5
        } else {
            0
        }
    } else if ts % 2 == 1 && (ts - 1) / 2 < N && a == ((ts - 1) / 2) % 2 {
        stores[(ts - 1) / 2]
    } else {
        state_value(stores, (ts - 1) as nat, a)
    }
}

/// The time-ordered state table: slot `ts * ADDR + a` holds word `a` at timestamp `ts`.
pub fn time_table(store_vals: &Vec<u64>) -> (t: Vec<u64>)
    requires
        store_vals@.len() == N,
    ensures
        t@ == Seq::new((TS_MAX * ADDR) as nat, |k: int| state_value(store_vals@, (k / 4) as nat, k % 4)),
{
    let mut t: Vec<u64> = Vec::new();
    let mut current: [u64; 4] = [0u64; 4];
    current[0] = MEM_INIT[0];
    current[1] = MEM_INIT[1];
    let mut ts: usize = 0;
    while ts < TS_MAX
        invariant
            ts <= TS_MAX,
            store_vals@.len() == N,
            t@ == Seq::new((ts * ADDR) as nat, |k: int| state_value(store_vals@, (k / 4) as nat, k % 4)),
            ts > 0 ==> forall|a: int| 0 <= a < 4 ==> current@[a] == state_value(store_vals@, (ts - 1) as nat, a),
            ts == 0 ==> current@ == seq![1u64, 5u64, 0u64, 0u64],
        decreases TS_MAX - ts,
    {
        if ts % 2 == 1 {
            let r = (ts - 1) / 2;
            if r < N {
                current[r_addr(r)] = store_vals[r];
            }
        }
        proof {
            assert forall|a: int| 0 <= a < 4 implies current@[a] == state_value(store_vals@, ts as nat, a) by {
                if ts > 0 {
                    assert(state_value(store_vals@, ts as nat, a) == (if ts % 2 == 1 && (ts - 1) / 2 < N && a == ((ts - 1) / 2) % 2 {
                        store_vals@[(ts - 1) / 2]
                    } else {
                        state_value(store_vals@, (ts - 1) as nat, a)
                    }));
                }
            }
        }
        let ghost before = t@;
        let mut a: usize = 0;
        while a < ADDR
            invariant
                a <= ADDR,
                ts < TS_MAX,
                t@.len() == ts * ADDR + a,
                forall|k: int| 0 <= k < ts * ADDR ==> t@[k] == before[k],
                before == Seq::new((ts * ADDR) as nat, |k: int| state_value(store_vals@, (k / 4) as nat, k % 4)),
                forall|k: int| ts * ADDR <= k < ts * ADDR + a ==> t@[k] == current@[k % 4],
            decreases ADDR - a,
        {
            t.push(current[a]);
            a = a + 1;
        }
        proof {
            assert forall|k: int| 0 <= k < (ts + 1) * ADDR implies t@[k] == state_value(store_vals@, (k / 4) as nat, k % 4) by {
                if k >= ts * ADDR {
                    assert(k / 4 == ts && k % 4 == k - 4 * ts);
                    assert(t@[k] == current@[k % 4]);
                    assert(current@[k % 4] == state_value(store_vals@, ts as nat, k % 4));
                } else {
                    assert(t@[k] == before[k]);
                }
            }
            assert(t@ =~= Seq::new(((ts + 1) * ADDR) as nat, |k: int| state_value(store_vals@, (k / 4) as nat, k % 4)));
        }
        ts = ts + 1;
    }
    t
}

/// The data-memory lookups, in order: round `r` loads at `2r * ADDR + (r & 1)`
/// and stores at `(2r + 1) * ADDR + (r & 1)`.
pub open spec fn data_claims(loads: Seq<u64>, stores: Seq<u64>) -> Seq<(usize, u64)> {
    Seq::new(
        (2 * N) as nat,
        |j: int|
            if j % 2 == 0 {
                ((8 * (j / 2) + (j / 2) % 2) as usize, loads[j / 2])
            } else {
                ((8 * (j / 2) + 4 + (j / 2) % 2) as usize, stores[j / 2])
            },
    )
}

pub fn data_lookups(load_vals: &Vec<u64>, store_vals: &Vec<u64>) -> (r: (Vec<Vec<usize>>, Vec<u64>))
    requires
        load_vals@.len() == N,
        store_vals@.len() == N,
    ensures
        claims_match(r.0@, r.1@, data_claims(load_vals@, store_vals@)),
{
    let ghost cl = data_claims(load_vals@, store_vals@);
    let mut idx: Vec<Vec<usize>> = Vec::new();
    let mut claims: Vec<u64> = Vec::new();
    let mut q: usize = 0;
    while q < N
        invariant
            q <= N,
            load_vals@.len() == N,
            store_vals@.len() == N,
            cl == data_claims(load_vals@, store_vals@),
            idx@.len() == 2 * q,
            claims@.len() == 2 * q,
            forall|j: int| 0 <= j < 2 * q ==> (#[trigger] idx@[j])@ == seq![cl[j].0] && claims@[j] == cl[j].1,
        decreases N - q,
    {
        let a = r_addr(q);
        let ghost before = idx@;
        let mut v1: Vec<usize> = Vec::new();
        v1.push((2 * q) * ADDR + a);
        idx.push(v1);
        claims.push(load_vals[q]);
        let mut v2: Vec<usize> = Vec::new();
        v2.push((2 * q + 1) * ADDR + a);
        idx.push(v2);
        claims.push(store_vals[q]);
        proof {
            assert forall|j: int| 0 <= j < 2 * q + 2 implies (#[trigger] idx@[j])@ == seq![cl[j].0]
                && claims@[j] == cl[j].1 by {
                if j < 2 * q {
                    assert(idx@[j] == before[j]);
                } else if j == 2 * q {
                    assert(j / 2 == q && j % 2 == 0);
                    assert(idx@[j]@ =~= seq![cl[j].0]);
                } else {
                    assert(j / 2 == q && j % 2 == 1);
                    assert(idx@[j]@ =~= seq![cl[j].0]);
                }
            }
        }
        q = q + 1;
    }
    proof {
        assert forall|j: int| 0 <= j < cl.len() implies #[trigger] claims@[j] == cl[j].1 by {
            assert(idx@[j]@ == seq![cl[j].0]);
        }
        assert(cl.len() == 2 * N);
        crate::vm32::pipeline::lemma_claims_match_intro(idx@, claims@, cl);
    }
    (idx, claims)
}

/// Every data lookup of an honest run finds its value in the time-ordered
/// state table: the load of round `r` reads the word's value at `2r` (its
/// most recent write), the store of round `r` is the word's value at `2r + 1`.
pub proof fn lemma_lookups_hit_table()
    ensures
        ({
            let run = rounds(N as nat);
            forall|q: int| 0 <= q < N ==> {
                &&& #[trigger] state_value(run.stores, (2 * q) as nat, q % 2) == run.loads[q]
                &&& state_value(run.stores, (2 * q + 1) as nat, q % 2) == run.stores[q]
            }
        }),
{
    reveal_with_fuel(rounds, 5);
    reveal_with_fuel(state_value, 9);
    let run = rounds(N as nat);
    assert(run.loads =~= seq![1u64, 5u64, 2u64, 7u64]);
    assert(run.stores =~= seq![2u64, 7u64, 9u64, 16u64]);
}

} // verus!
