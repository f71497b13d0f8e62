//! Merging two signals sample by sample with a caller-supplied combiner.

use vstd::prelude::*;

use crate::signal::TimeDomainSignal;

verus! {

/// Merge two signals of equal length and rate into one by applying `f` to
/// each pair of samples.
pub fn merge<F: Fn(i64, i64) -> i64>(a: TimeDomainSignal, b: TimeDomainSignal, f: F) -> (r:
    TimeDomainSignal)
    requires
        a@.len() == b@.len(),
        a.sample_rate == b.sample_rate,
        forall|k: int| 0 <= k < a@.len() ==> call_requires(f, (#[trigger] a@[k], b@[k])),
    ensures
        r.sample_rate == a.sample_rate,
        r@.len() == a@.len(),
        forall|k: int| 0 <= k < a@.len() ==> call_ensures(f, (a@[k], b@[k]), #[trigger] r@[k]),
{
    let rate = a.sample_rate();
    let n = a.num_samples();
    let xs = a.into_samples();
    let ys = b.into_samples();
    let mut out: Vec<i64> = Vec::new();
    let mut k: usize = 0;
    while k < n
        invariant
            k <= n,
            n == xs@.len(),
            xs@.len() == ys@.len(),
            xs@ == a@,
            ys@ == b@,
            forall|j: int| 0 <= j < xs@.len() ==> call_requires(f, (#[trigger] xs@[j], ys@[j])),
            out@.len() == k,
            forall|j: int| 0 <= j < k ==> call_ensures(f, (xs@[j], ys@[j]), #[trigger] out@[j]),
        decreases n - k,
    {
        let v = f(xs[k], ys[k]);
        out.push(v);
        k += 1;
    }
    TimeDomainSignal::from_iter(rate, out)
}

} // verus!
