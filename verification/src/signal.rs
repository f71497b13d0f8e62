//! The time-domain signal: an ordered sequence of fixed-point samples and a
//! sample rate in Hz.

use vstd::prelude::*;

use crate::fixed::{ONE, div_fp, lemma_div_fp_bounded};

verus! {

/// A single-channel audio signal stored in the time domain.
pub struct TimeDomainSignal {
    /// All the samples of the signal, on the fixed-point scale.
    pub samples: Vec<i64>,
    /// The number of samples per second, in Hz.
    pub sample_rate: u32,
}

impl View for TimeDomainSignal {
    type V = Seq<i64>;

    open spec fn view(&self) -> Seq<i64> {
        self.samples@
    }
}

/// The largest absolute sample value among the first `n` samples.
pub open spec fn max_abs(s: Seq<i64>, n: int) -> int
    decreases n,
{
    if n <= 0 {
        0
    } else {
        let a = if s[n - 1] >= 0 {
            s[n - 1] as int
        } else {
            -(s[n - 1] as int)
        };
        let m = max_abs(s, n - 1);
        if a > m {
            a
        } else {
            m
        }
    }
}

/// Every sample among the first `n` lies within the largest absolute value.
pub proof fn lemma_max_abs_bounds(s: Seq<i64>, n: int)
    requires
        n <= s.len(),
    ensures
        max_abs(s, n) >= 0,
        forall|j: int| 0 <= j < n ==> -max_abs(s, n) <= #[trigger] s[j] <= max_abs(s, n),
    decreases n,
{
    if n > 0 {
        lemma_max_abs_bounds(s, n - 1);
    }
}

impl TimeDomainSignal {
    /// Create a signal of `num_samples` samples at `sample_rate` Hz, sample
    /// `i` given by `f(i)`.
    pub fn from_fn<F: Fn(usize) -> i64>(sample_rate: u32, num_samples: usize, f: F) -> (r:
        TimeDomainSignal)
        requires
            forall|i: usize| i < num_samples ==> call_requires(f, (i,)),
        ensures
            r.sample_rate == sample_rate,
            r@.len() == num_samples,
            forall|i: int|
                0 <= i < num_samples ==> call_ensures(f, (i as usize,), #[trigger] r@[i]),
    {
        let mut samples: Vec<i64> = Vec::new();
        let mut i: usize = 0;
        while i < num_samples
            invariant
                i <= num_samples,
                samples@.len() == i,
                forall|j: usize| j < num_samples ==> call_requires(f, (j,)),
                forall|j: int| 0 <= j < i ==> call_ensures(f, (j as usize,), #[trigger] samples@[j]),
            decreases num_samples - i,
        {
            let v = f(i);
            samples.push(v);
            i += 1;
        }
        TimeDomainSignal { samples, sample_rate }
    }

    /// Collect already-produced samples into a signal at `sample_rate` Hz.
    pub fn from_iter(sample_rate: u32, samples: Vec<i64>) -> (r: TimeDomainSignal)
        ensures
            r.sample_rate == sample_rate,
            r@ == samples@,
    {
        TimeDomainSignal { samples, sample_rate }
    }

    /// A silent signal of `num_samples` samples.
    pub fn from_zeros(num_samples: usize, sample_rate: u32) -> (r: TimeDomainSignal)
        ensures
            r.sample_rate == sample_rate,
            r@.len() == num_samples,
            forall|i: int| 0 <= i < num_samples ==> #[trigger] r@[i] == 0,
    {
        let mut samples: Vec<i64> = Vec::new();
        let mut i: usize = 0;
        while i < num_samples
            invariant
                i <= num_samples,
                samples@.len() == i,
                forall|j: int| 0 <= j < i ==> #[trigger] samples@[j] == 0,
            decreases num_samples - i,
        {
            samples.push(0);
            i += 1;
        }
        TimeDomainSignal { samples, sample_rate }
    }

    /// The number of samples per second, in Hz.
    pub fn sample_rate(&self) -> (r: u32)
        ensures
            r == self.sample_rate,
    {
        self.sample_rate
    }

    /// The number of samples in this signal.
    pub fn num_samples(&self) -> (r: usize)
        ensures
            r == self@.len(),
    {
        self.samples.len()
    }

    /// Give up the signal for its samples.
    pub fn into_samples(self) -> (r: Vec<i64>)
        ensures
            r@ == self@,
    {
        self.samples
    }

    /// Borrow the samples.
    pub fn samples(&self) -> (r: &Vec<i64>)
        ensures
            r@ == self@,
    {
        &self.samples
    }

    /// Copy out the samples of the window `[start, end)`.
    pub fn window(&self, start: usize, end: usize) -> (r: Vec<i64>)
        requires
            start <= end <= self@.len(),
        ensures
            r@ == self@.subrange(start as int, end as int),
    {
        let mut out: Vec<i64> = Vec::new();
        let mut i: usize = start;
        while i < end
            invariant
                start <= i <= end,
                end <= self@.len(),
                out@.len() == i - start,
                forall|j: int| 0 <= j < i - start ==> #[trigger] out@[j] == self@[start + j],
            decreases end - i,
        {
            out.push(self.samples[i]);
            i += 1;
        }
        proof {
            assert(out@ =~= self@.subrange(start as int, end as int));
        }
        out
    }

    /// Scale every sample by the reciprocal of the largest absolute sample, so
    /// the result lies in `[-ONE, ONE]`.  A silent signal is left unchanged.
    pub fn normalize(&mut self)
        requires
            forall|j: int| 0 <= j < old(self)@.len() ==> #[trigger] old(self)@[j] != i64::MIN,
        ensures
            final(self).sample_rate == old(self).sample_rate,
            final(self)@.len() == old(self)@.len(),
            max_abs(old(self)@, old(self)@.len() as int) == 0 ==> final(self)@ == old(self)@,
            max_abs(old(self)@, old(self)@.len() as int) > 0 ==> forall|k: int|
                0 <= k < old(self)@.len() ==> #[trigger] final(self)@[k] == div_fp(
                    old(self)@[k] * ONE,
                    max_abs(old(self)@, old(self)@.len() as int),
                ),
    {
        let n = self.samples.len();
        let mut m: i64 = 0;
        let mut i: usize = 0;
        while i < n
            invariant
                i <= n,
                n == self@.len(),
                self.samples@ == old(self).samples@,
                self.sample_rate == old(self).sample_rate,
                forall|j: int| 0 <= j < n ==> #[trigger] self.samples@[j] != i64::MIN,
                0 <= m,
                m == max_abs(self@, i as int),
            decreases n - i,
        {
            let s = self.samples[i];
            let a: i64 = if s >= 0 {
                s
            } else {
                -s
            };
            if a > m {
                m = a;
            }
            i += 1;
        }
        if m == 0 {
            return ;
        }
        let ghost orig = self.samples@;
        let ghost mm = m as int;
        proof {
            lemma_max_abs_bounds(orig, n as int);
        }
        let mut k: usize = 0;
        while k < n
            invariant
                k <= n,
                n == self.samples@.len(),
                self.samples@.len() == orig.len(),
                self.sample_rate == old(self).sample_rate,
                orig == old(self).samples@,
                0 < mm,
                m == mm,
                forall|j: int| k <= j < n ==> #[trigger] self.samples@[j] == orig[j],
                forall|j: int|
                    0 <= j < k ==> #[trigger] self.samples@[j] == div_fp(orig[j] * ONE, mm),
                forall|j: int| 0 <= j < n ==> -mm <= #[trigger] orig[j] <= mm,
            decreases n - k,
        {
            let s: i64 = self.samples[k];
            proof {
                assert((-mm) * ONE <= (s as int) * ONE <= mm * ONE) by (nonlinear_arith)
                    requires
                        -mm <= s as int <= mm,
                        ONE == 1048576,
                ;
                assert(-0x8000000000000000000000 <= (s as i128) * (ONE as i128)
                    <= 0x8000000000000000000000) by (nonlinear_arith)
                    requires
                        -0x8000000000000000 <= s <= 0x8000000000000000,
                        ONE == 1048576,
                ;
                lemma_div_fp_bounded((s as int) * ONE, mm, ONE as int);
            }
            let v: i128 = ((s as i128) * (ONE as i128)) / (m as i128);
            self.samples[k] = v as i64;
            k += 1;
        }
    }
}

} // verus!
