//! Register-trace glue: three consecutive `xori x5, x5, imm` steps from a
//! fixed start value. Each step's output is the next step's input, so the
//! committed register trace is the running XOR of the immediates.

use vstd::prelude::*;

verus! {

/// Start value of x5.
pub const X0: u64 = 0xa5a5a5a5a5a5a5a5;
/// Immediates of the three steps.
pub const IMMS: [u64; 3] = [0x1, 0x3, 0x5];

/// The register value after the first `k` steps.
pub open spec fn xor_prefix(x0: u64, imms: Seq<u64>, k: nat) -> u64
    decreases k,
{
    if k == 0 {
        x0
    } else {
        xor_prefix(x0, imms, (k - 1) as nat) ^ imms[k - 1]
    }
}

/// The register trace: the start value, then the value after each step.
pub fn xori_chain(x0: u64, imms: &[u64]) -> (t: Vec<u64>)
    requires
        imms@.len() < usize::MAX,
    ensures
        t@.len() == imms@.len() + 1,
        forall|k: int| 0 <= k <= imms@.len() ==> #[trigger] t@[k] == xor_prefix(x0, imms@, k as nat),
{
    let mut t: Vec<u64> = Vec::new();
    let mut acc = x0;
    t.push(acc);
    let n = imms.len();
    let mut i: usize = 0;
    while i < n
        invariant
            i <= n,
            n == imms@.len(),
            t@.len() == i + 1,
            acc == xor_prefix(x0, imms@, i as nat),
            forall|k: int| 0 <= k <= i ==> #[trigger] t@[k] == xor_prefix(x0, imms@, k as nat),
        decreases n - i,
    {
        acc = acc ^ imms[i];
        t.push(acc);
        i = i + 1;
    }
    t
}

/// The pc trace of `steps` straight-line instructions: `start + inc * k`
/// for `k = 0..=steps`.
pub fn pc_trace(start: u64, steps: usize, inc: u64) -> (t: Vec<u64>)
    requires
        start + inc * steps <= u64::MAX,
        steps < usize::MAX,
    ensures
        t@.len() == steps + 1,
        forall|k: int| 0 <= k <= steps ==> #[trigger] t@[k] == start + inc * k,
{
    let mut t: Vec<u64> = Vec::new();
    t.push(start);
    let mut i: usize = 0;
    while i < steps
        invariant
            i <= steps < usize::MAX,
            start + inc * steps <= u64::MAX,
            t@.len() == i + 1,
            forall|k: int| 0 <= k <= i ==> #[trigger] t@[k] == start + inc * k,
        decreases steps - i,
    {
        let last = t[t.len() - 1];
        proof {
            assert(inc * (i + 1) <= inc * steps) by (nonlinear_arith)
                requires
                    i + 1 <= steps,
            ;
            assert(inc * (i + 1) == inc * i + inc) by (nonlinear_arith);
        }
        t.push(last + inc);
        i = i + 1;
    }
    t
}

} // verus!
