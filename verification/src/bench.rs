//! Summaries of latency samples, each sample a duration in nanoseconds.

use vstd::prelude::*;

verus! {

/// The index of the `percentile`th sample of `n` sorted samples: `n *
/// percentile / 100`, at most the last index.
pub open spec fn percentile_index(n: nat, percentile: nat) -> nat {
    let i = n * percentile / 100;
    if i < n - 1 {
        i
    } else if n >= 1 {
        (n - 1) as nat
    } else {
        0
    }
}

/// The sample at the `percentile`th index of sorted samples
/// (`percentile_index`).
pub fn percentile_ns(samples: &[u128], percentile: usize) -> (r: u128)
    requires
        samples@.len() > 0,
        samples@.len() * percentile <= usize::MAX,
    ensures
        r == samples@[percentile_index(samples@.len(), percentile as nat) as int],
{
    let n = samples.len();
    let scaled = n * percentile;
    let index = scaled / 100;
    let last = n - 1;
    let i = if index < last {
        index
    } else {
        last
    };
    proof {
        assert(index == samples@.len() * (percentile as nat) / 100) by (nonlinear_arith)
            requires
                scaled == n * percentile,
                index == scaled / 100,
                n == samples@.len(),
        ;
    }
    samples[i]
}

/// The samples added up.
pub open spec fn total_of(samples: Seq<u128>) -> int
    decreases samples.len(),
{
    if samples.len() == 0 {
        0
    } else {
        total_of(samples.drop_last()) + samples.last()
    }
}

proof fn lemma_total_prefix(samples: Seq<u128>, k: int)
    requires
        0 <= k <= samples.len(),
    ensures
        0 <= total_of(samples.take(k)) <= total_of(samples),
    decreases samples.len(),
{
    if samples.len() > 0 {
        if k == samples.len() {
            assert(samples.take(k) =~= samples);
            lemma_total_prefix(samples.drop_last(), k - 1);
            assert(samples.drop_last().take(k - 1) =~= samples.drop_last());
        } else {
            lemma_total_prefix(samples.drop_last(), k);
            assert(samples.drop_last().take(k) =~= samples.take(k));
        }
    }
}

/// The samples added up, where the total fits.
pub fn total_duration_ns(samples: &[u128]) -> (r: u128)
    requires
        total_of(samples@) <= u128::MAX,
    ensures
        r == total_of(samples@),
{
    let mut total: u128 = 0;
    let mut i: usize = 0;
    while i < samples.len()
        invariant
            0 <= i <= samples@.len(),
            total == total_of(samples@.take(i as int)),
            total_of(samples@) <= u128::MAX,
        decreases samples@.len() - i,
    {
        proof {
            assert(samples@.take(i + 1).drop_last() =~= samples@.take(i as int));
            lemma_total_prefix(samples@, i + 1);
        }
        total = total + samples[i];
        i = i + 1;
    }
    assert(samples@.take(samples@.len() as int) =~= samples@);
    total
}

} // verus!
