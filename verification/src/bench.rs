//! Diagnostics and micro-benchmark helpers of the module: a liveness
//! probe and the summation / lower-casing routines used to compare host
//! and module execution speed. They carry no graph logic.

use crate::normalize::{lower_of, normalize};
use vstd::prelude::*;

verus! {

/// The sum of the integers 0 through `n`.
pub open spec fn sum_to(n: nat) -> nat
    decreases n,
{
    if n == 0 {
        0
    } else {
        sum_to((n - 1) as nat) + n
    }
}

/// The sum of the integers 0 through `n` never exceeds `n * n + n`.
proof fn lemma_sum_to_bound(n: nat)
    ensures
        sum_to(n) <= n * n + n,
    decreases n,
{
    if n > 0 {
        lemma_sum_to_bound((n - 1) as nat);
        assert((n - 1) * (n - 1) + n <= n * n) by (nonlinear_arith)
            requires
                n >= 1,
        ;
    }
}

/// Liveness probe: reports that the module is loaded and responding.
pub fn health_check() -> (healthy: bool)
    ensures
        healthy,
{
    true
}

/// Benchmark helper: the sum of the integers 0 through `n`.
pub fn benchmark_sum(n: u32) -> (total: u64)
    ensures
        total == sum_to(n as nat),
{
    let mut total: u64 = 0;
    let mut i: u32 = 0;
    while i < n
        invariant
            i <= n,
            total == sum_to(i as nat),
        decreases n - i,
    {
        proof {
            lemma_sum_to_bound(n as nat);
            lemma_sum_to_monotone((i + 1) as nat, n as nat);
            assert((n as int) * (n as int) + (n as int) <= 0xffff_ffff_0000_0000) by (nonlinear_arith)
                requires
                    n as int <= 0xffff_ffff,
            ;
        }
        i = i + 1;
        total = total + i as u64;
    }
    total
}

/// Partial sums only grow.
proof fn lemma_sum_to_monotone(m: nat, n: nat)
    requires
        m <= n,
    ensures
        sum_to(m) <= sum_to(n),
    decreases n,
{
    if m < n {
        lemma_sum_to_monotone(m, (n - 1) as nat);
    }
}

/// Benchmark helper: one name lower-cased, exactly as `normalize` does it.
pub fn benchmark_normalize(input: &str) -> (lowered: String)
    ensures
        lowered@ == lower_of(input@),
{
    normalize(input)
}

/// Benchmark helper: a batch of names lower-cased, elementwise.
pub fn benchmark_batch_normalize(inputs: Vec<String>) -> (lowered: Vec<String>)
    ensures
        lowered@.len() == inputs@.len(),
        forall|i: int| 0 <= i < inputs@.len() ==> (#[trigger] lowered@[i])@ == lower_of(
            inputs@[i]@,
        ),
{
    let mut lowered: Vec<String> = Vec::new();
    let mut i: usize = 0;
    while i < inputs.len()
        invariant
            i <= inputs@.len(),
            lowered@.len() == i,
            forall|j: int| 0 <= j < i ==> (#[trigger] lowered@[j])@ == lower_of(inputs@[j]@),
        decreases inputs@.len() - i,
    {
        let name: &String = &inputs[i];
        lowered.push(normalize(name.as_str()));
        i = i + 1;
    }
    lowered
}

} // verus!
