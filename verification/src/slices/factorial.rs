//! The factorial loop program, unfolded for a bounded number of rounds:
//!   acc = 1; i = 1;
//!   loop: if i <= n { acc = acc * i; i = i + 1 }
//! Once `i` passes `n` the state freezes, so every round after the last
//! iteration repeats the final state.

use vstd::prelude::*;

verus! {

/// The `n` of the program.
pub const N: u64 = 5;
/// Rounds unfolded: one more than the iterations, so the exit is covered.
pub const ROUNDS: usize = 6;

pub open spec fn fact(n: nat) -> nat
    decreases n,
{
    if n == 0 {
        1
    } else {
        n * fact((n - 1) as nat)
    }
}

/// State `(acc, i)` after `r` rounds of the loop for bound `n`.
pub open spec fn round_state(n: nat, r: nat) -> (nat, nat)
    decreases r,
{
    if r == 0 {
        (1, 1)
    } else {
        let (acc, i) = round_state(n, (r - 1) as nat);
        if i <= n {
            (acc * i, i + 1)
        } else {
            (acc, i)
        }
    }
}

/// After `r` rounds the loop has run `min(r, n)` iterations.
pub proof fn lemma_round_state(n: nat, r: nat)
    ensures
        round_state(n, r) == (if r <= n { (fact(r), r + 1) } else { (fact(n), n + 1) }),
    decreases r,
{
    if r > 0 {
        lemma_round_state(n, (r - 1) as nat);
        if r <= n {
            let f = fact((r - 1) as nat);
            assert(f * r == r * f) by (nonlinear_arith);
        }
    }
}

proof fn lemma_fact_monotone(a: nat, b: nat)
    requires
        a <= b,
    ensures
        fact(a) <= fact(b),
        fact(a) >= 1,
    decreases b,
{
    if b > a {
        lemma_fact_monotone(a, (b - 1) as nat);
        assert(fact((b - 1) as nat) <= b * fact((b - 1) as nat)) by (nonlinear_arith)
            requires
                b >= 1,
        ;
    } else if a > 0 {
        lemma_fact_monotone((a - 1) as nat, (a - 1) as nat);
        assert(a * fact((a - 1) as nat) >= 1) by (nonlinear_arith)
            requires
                a >= 1,
                fact((a - 1) as nat) >= 1,
        ;
    }
}

/// The accumulator and counter chains over `rounds` rounds, starting values
/// included: `acc[r], i[r]` is the state after `r` rounds.
pub fn factorial_chain(n: u64, rounds: usize) -> (r: (Vec<u64>, Vec<u64>))
    requires
        fact(n as nat) <= u64::MAX,
        n < u64::MAX,
        rounds < usize::MAX,
    ensures
        r.0@.len() == rounds + 1,
        r.1@.len() == rounds + 1,
        forall|k: int|
            0 <= k <= rounds ==> #[trigger] r.0@[k] == round_state(n as nat, k as nat).0 && r.1@[k]
                == round_state(n as nat, k as nat).1,
{
    let mut acc: u64 = 1;
    let mut i: u64 = 1;
    let mut acc_chain: Vec<u64> = Vec::new();
    let mut i_chain: Vec<u64> = Vec::new();
    acc_chain.push(acc);
    i_chain.push(i);
    let mut r: usize = 0;
    while r < rounds
        invariant
            r <= rounds,
            fact(n as nat) <= u64::MAX,
            n < u64::MAX,
            acc_chain@.len() == r + 1,
            i_chain@.len() == r + 1,
            acc == round_state(n as nat, r as nat).0,
            i == round_state(n as nat, r as nat).1,
            forall|k: int|
                0 <= k <= r ==> #[trigger] acc_chain@[k] == round_state(n as nat, k as nat).0 && i_chain@[k]
                    == round_state(n as nat, k as nat).1,
        decreases rounds - r,
    {
        proof {
            lemma_round_state(n as nat, r as nat);
            lemma_round_state(n as nat, (r + 1) as nat);
            if i <= n {
                lemma_fact_monotone(i as nat, n as nat);
                assert(acc * i == fact(i as nat)) by (nonlinear_arith)
                    requires
                        acc == fact((i - 1) as nat),
                        i >= 1,
                        fact(i as nat) == i * fact((i - 1) as nat),
                ;
            }
        }
        let new_acc = if i <= n { acc * i } else { acc };
        let new_i = if i <= n { i + 1 } else { i };
        acc = new_acc;
        i = new_i;
        acc_chain.push(acc);
        i_chain.push(i);
        r = r + 1;
    }
    (acc_chain, i_chain)
}

/// With at least `n` rounds the final accumulator is `n!` and the counter
/// has stopped at `n + 1`.
pub proof fn lemma_chain_ends_in_factorial(n: nat, rounds: nat)
    requires
        rounds >= n,
    ensures
        round_state(n, rounds) == (fact(n), n + 1),
{
    lemma_round_state(n, rounds);
}

} // verus!
