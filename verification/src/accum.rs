//! The accumulation buffer shared by overlap-add reconstruction: a weighted
//! sample accumulator and a weight accumulator of the same length, filled by
//! placing windowed frames at offsets and finished by an elementwise
//! normalization that substitutes a unit weight wherever no weight was
//! accumulated.

use vstd::prelude::*;

use crate::fixed::{ONE, SPECTRUM_CAP, div_fp, lemma_div_fp_scale, lemma_div_fp_bounded};

verus! {

/// Largest weight an accumulator cell may carry.
pub const WEIGHT_CAP: i128 = 73786976294838206464;

/// What a placed frame adds to the sample accumulator at cell `k`: the frame
/// sample scaled by the window weight, inside the placed span, zero outside.
pub open spec fn contrib_at(
    xs: Seq<i64>,
    win: Seq<i64>,
    xs_off: int,
    pos: int,
    l: int,
    k: int,
) -> int {
    if pos <= k < pos + l {
        div_fp(xs[xs_off + (k - pos)] * win[k - pos], ONE as int)
    } else {
        0
    }
}

/// What a placed frame adds to the weight accumulator at cell `k`.
pub open spec fn wcontrib_at(win: Seq<i64>, pos: int, l: int, k: int) -> int {
    if pos <= k < pos + l {
        win[k - pos] as int
    } else {
        0
    }
}

/// The elementwise normalization: the accumulated sample divided by the
/// accumulated weight, with a unit weight substituted for an exact zero.
pub open spec fn norm_div(s: int, w: int) -> int {
    div_fp(
        s * ONE,
        if w == 0 {
            ONE as int
        } else {
            w
        },
    )
}

/// A weighted-sum accumulator and its weight accumulator, indexed in lockstep.
pub struct AccBuf {
    sums: Vec<i128>,
    weights: Vec<i128>,
    bound: Ghost<int>,
}

impl AccBuf {
    /// Number of cells.
    pub closed spec fn len_spec(&self) -> int {
        self.sums@.len() as int
    }

    /// The magnitude bound every placed frame sample respects.
    pub closed spec fn bound_spec(&self) -> int {
        self.bound@
    }

    /// The accumulated weighted sample sum of cell `k`.
    pub closed spec fn sum_at(&self, k: int) -> int {
        self.sums@[k] as int
    }

    /// The accumulated weight of cell `k`.
    pub closed spec fn weight_at(&self, k: int) -> int {
        self.weights@[k] as int
    }

    /// Well-formed: lockstep lengths, weights nonnegative and capped, and each
    /// sample sum within `bound` times its own weight (on the fixed-point
    /// scale).  The last part is what makes normalization safe: a cell with
    /// zero weight provably holds a zero sum.
    pub closed spec fn wf(&self) -> bool {
        &&& self.sums@.len() == self.weights@.len()
        &&& 0 <= self.bound@ <= SPECTRUM_CAP
        &&& forall|k: int|
            0 <= k < self.sums@.len() ==> 0 <= #[trigger] self.weights@[k] <= WEIGHT_CAP
        &&& forall|k: int|
            0 <= k < self.sums@.len() ==> -self.bound@ * self.weights@[k] <= (
            #[trigger] self.sums@[k]) * (ONE as int) <= self.bound@ * self.weights@[k]
    }

    /// A fresh pair of zeroed accumulators.
    pub fn new(len: usize, bound: Ghost<int>) -> (r: AccBuf)
        requires
            0 <= bound@ <= SPECTRUM_CAP,
        ensures
            r.wf(),
            r.len_spec() == len,
            r.bound_spec() == bound@,
            forall|k: int| 0 <= k < len ==> r.sum_at(k) == 0 && r.weight_at(k) == 0,
    {
        let mut sums: Vec<i128> = Vec::new();
        let mut weights: Vec<i128> = Vec::new();
        let mut i: usize = 0;
        while i < len
            invariant
                i <= len,
                sums@.len() == i,
                weights@.len() == i,
                forall|k: int| 0 <= k < i ==> #[trigger] sums@[k] == 0,
                forall|k: int| 0 <= k < i ==> #[trigger] weights@[k] == 0,
            decreases len - i,
        {
            sums.push(0);
            weights.push(0);
            i += 1;
        }
        AccBuf { sums, weights, bound }
    }

    /// Number of cells.
    pub fn len(&self) -> (r: usize)
        ensures
            r == self.len_spec(),
    {
        self.sums.len()
    }

    /// Place a frame: add `xs[xs_off + j] * win[j] / ONE` to the sample
    /// accumulator and `win[j]` to the weight accumulator, at cells
    /// `pos + j` for `j < l`.
    pub fn add_frame(&mut self, xs: &Vec<i64>, xs_off: usize, win: &Vec<i64>, pos: usize, l: usize)
        requires
            old(self).wf(),
            xs_off + l <= xs@.len(),
            l <= win@.len(),
            pos + l <= old(self).len_spec(),
            forall|j: int|
                0 <= j < l ==> -old(self).bound_spec() <= #[trigger] xs@[xs_off + j] <= old(
                    self,
                ).bound_spec(),
            forall|j: int| 0 <= j < l ==> 0 <= #[trigger] win@[j] <= ONE,
            forall|k: int|
                0 <= k < old(self).len_spec() ==> #[trigger] old(self).weight_at(k) + ONE
                    <= WEIGHT_CAP,
        ensures
            final(self).wf(),
            final(self).len_spec() == old(self).len_spec(),
            final(self).bound_spec() == old(self).bound_spec(),
            forall|k: int|
                0 <= k < old(self).len_spec() ==> #[trigger] final(self).sum_at(k) == old(
                    self,
                ).sum_at(k) + contrib_at(xs@, win@, xs_off as int, pos as int, l as int, k),
            forall|k: int|
                0 <= k < old(self).len_spec() ==> #[trigger] final(self).weight_at(k) == old(
                    self,
                ).weight_at(k) + wcontrib_at(win@, pos as int, l as int, k),
    {
        let ghost b = self.bound@;
        let xs_len: usize = xs.len();
        let win_len: usize = win.len();
        let n_cells: usize = self.sums.len();
        let mut j: usize = 0;
        while j < l
            invariant
                j <= l,
                xs_len == xs@.len(),
                win_len == win@.len(),
                n_cells == self.sums@.len(),
                xs_off + l <= xs_len,
                l <= win_len,
                pos + l <= n_cells,
                self.sums@.len() == old(self).sums@.len(),
                self.weights@.len() == old(self).weights@.len(),
                self.sums@.len() == self.weights@.len(),
                self.bound@ == old(self).bound@,
                self.bound@ == b,
                0 <= b <= SPECTRUM_CAP,
                forall|i: int|
                    0 <= i < l ==> -b <= #[trigger] xs@[xs_off + i] <= b,
                forall|i: int| 0 <= i < l ==> 0 <= #[trigger] win@[i] <= ONE,
                forall|k: int|
                    0 <= k < old(self).len_spec() ==> #[trigger] old(self).weight_at(k) + ONE
                        <= WEIGHT_CAP,
                forall|k: int|
                    0 <= k < self.sums@.len() && !(pos <= k < pos + j) ==> #[trigger] self.sums@[k]
                        == old(self).sums@[k] && self.weights@[k] == old(self).weights@[k],
                forall|k: int|
                    pos <= k < pos + j ==> #[trigger] self.sums@[k] == old(self).sums@[k]
                        + contrib_at(xs@, win@, xs_off as int, pos as int, l as int, k)
                        && self.weights@[k] == old(self).weights@[k] + wcontrib_at(
                        win@,
                        pos as int,
                        l as int,
                        k,
                    ),
                forall|k: int|
                    0 <= k < self.sums@.len() ==> 0 <= #[trigger] self.weights@[k] <= WEIGHT_CAP,
                forall|k: int|
                    0 <= k < self.sums@.len() ==> -b * self.weights@[k] <= (
                    #[trigger] self.sums@[k]) * (ONE as int) <= b * self.weights@[k],
            decreases l - j,
        {
            let v: i64 = xs[xs_off + j];
            let w: i64 = win[j];
            proof {
                assert(-0x40000000000000000000000000000000 <= (v as i128) * (w as i128)
                    <= 0x40000000000000000000000000000000) by (nonlinear_arith)
                    requires
                        -0x8000000000000000 <= v <= 0x8000000000000000,
                        -0x8000000000000000 <= w <= 0x8000000000000000,
                ;
            }
            let vw: i128 = (v as i128) * (w as i128);
            proof {
                assert(-b * w <= (v as i128) * (w as i128) <= b * w) by (nonlinear_arith)
                    requires
                        -b <= v <= b,
                        0 <= w,
                        0 <= b <= SPECTRUM_CAP,
                        SPECTRUM_CAP == 35184372088832,
                        w <= ONE,
                        ONE == 1048576,
                ;
            }
            let prod: i128 = vw / (ONE as i128);
            let idx: usize = pos + j;
            let s_old: i128 = self.sums[idx];
            let w_old: i128 = self.weights[idx];
            proof {
                lemma_div_fp_scale(vw as int, ONE as int);
                assert(prod == div_fp(vw as int, ONE as int));
                assert(-b * (w as int) <= prod * (ONE as int) <= b * (w as int))
                    by (nonlinear_arith)
                    requires
                        0 <= b,
                        0 <= w,
                        -b * (w as int) <= (vw as int) <= b * (w as int),
                        (vw as int) >= 0 ==> 0 <= prod * (ONE as int) <= (vw as int),
                        (vw as int) < 0 ==> (vw as int) <= prod * (ONE as int) <= 0,
                ;
                assert(old(self).weight_at(idx as int) + ONE <= WEIGHT_CAP);
                assert(w_old == old(self).weights@[idx as int]);
                assert(w_old + (w as i128) <= WEIGHT_CAP);
                assert(-b * (w_old as int) <= (s_old as int) * (ONE as int) <= b * (
                w_old as int));
                assert((s_old + prod) * (ONE as int) == (s_old as int) * (ONE as int) + prod * (
                ONE as int)) by (nonlinear_arith);
                assert(b * ((w_old + w) as int) == b * (w_old as int) + b * (w as int))
                    by (nonlinear_arith);
                assert(-b * WEIGHT_CAP <= (s_old as int) * (ONE as int) <= b * WEIGHT_CAP)
                    by (nonlinear_arith)
                    requires
                        0 <= w_old <= WEIGHT_CAP,
                        0 <= b,
                        -b * (w_old as int) <= (s_old as int) * (ONE as int) <= b * (w_old as int),
                ;
                assert(-0x80000000000000000000000 <= s_old <= 0x80000000000000000000000)
                    by (nonlinear_arith)
                    requires
                        -b * WEIGHT_CAP <= (s_old as int) * (ONE as int) <= b * WEIGHT_CAP,
                        0 <= b <= 35184372088832,
                        WEIGHT_CAP == 73786976294838206464,
                        ONE == 1048576,
                ;
                assert((-b) * ((w_old as int) + (w as int)) <= ((s_old as int) + (prod as int)) * (
                ONE as int) <= b * ((w_old as int) + (w as int))) by (nonlinear_arith)
                    requires
                        -b * (w_old as int) <= (s_old as int) * (ONE as int) <= b * (w_old as int),
                        -b * (w as int) <= prod * (ONE as int) <= b * (w as int),
                ;
            }
            self.sums[idx] = s_old + prod;
            self.weights[idx] = w_old + (w as i128);
            j += 1;
        }
        proof {
            assert forall|k: int| 0 <= k < self.len_spec() implies #[trigger] self.sum_at(k) == old(
                self,
            ).sum_at(k) + contrib_at(xs@, win@, xs_off as int, pos as int, l as int, k)
                && self.weight_at(k) == old(self).weight_at(k) + wcontrib_at(
                win@,
                pos as int,
                l as int,
                k,
            ) by {
                assert(self.weight_at(k) == self.weights@[k] as int);
                if pos <= k < pos + l {
                    assert(self.sums@[k] == old(self).sums@[k] + contrib_at(
                        xs@,
                        win@,
                        xs_off as int,
                        pos as int,
                        l as int,
                        k,
                    ));
                    assert(self.weights@[k] == old(self).weights@[k] + wcontrib_at(
                        win@,
                        pos as int,
                        l as int,
                        k,
                    ));
                } else {
                    assert(self.sums@[k] == old(self).sums@[k]);
                    assert(self.weights@[k] == old(self).weights@[k]);
                    assert(contrib_at(xs@, win@, xs_off as int, pos as int, l as int, k) == 0);
                    assert(wcontrib_at(win@, pos as int, l as int, k) == 0);
                }
            }
            assert forall|k: int| 0 <= k < self.len_spec() implies #[trigger] self.weight_at(k)
                == old(self).weight_at(k) + wcontrib_at(win@, pos as int, l as int, k) by {
                assert(self.sum_at(k) == old(self).sum_at(k) + contrib_at(
                    xs@,
                    win@,
                    xs_off as int,
                    pos as int,
                    l as int,
                    k,
                ));
            }
        }
    }

    /// The normalized value of one cell: the accumulated sample divided by the
    /// accumulated weight (a unit weight substituted for zero).  A cell that
    /// no weight ever reached yields exactly zero.
    pub fn norm_value(&self, k: usize) -> (r: i64)
        requires
            self.wf(),
            k < self.len_spec(),
        ensures
            r == norm_div(self.sum_at(k as int), self.weight_at(k as int)),
            -self.bound_spec() <= r <= self.bound_spec(),
            self.weight_at(k as int) == 0 ==> r == 0,
    {
        let ghost b = self.bound@;
        let s: i128 = self.sums[k];
        let w: i128 = self.weights[k];
        let dv: i128 = if w == 0 {
            ONE as i128
        } else {
            w
        };
        proof {
            if w == 0 {
                assert(-b * 0 <= (s as int) * (ONE as int) <= b * 0) by (nonlinear_arith)
                    requires
                        -b * (w as int) <= (s as int) * (ONE as int) <= b * (w as int),
                        w == 0,
                ;
                assert(s == 0) by (nonlinear_arith)
                    requires
                        0 <= (s as int) * (ONE as int) <= 0,
                        ONE == 1048576,
                ;
            } else {
                assert(-b * (dv as int) <= (s as int) * (ONE as int) <= b * (dv as int));
            }
            assert(-0x8000000000000000000000000000 <= (s as int) * (ONE as int)
                <= 0x8000000000000000000000000000) by (nonlinear_arith)
                requires
                    -b * (dv as int) <= (s as int) * (ONE as int) <= b * (dv as int) || s == 0,
                    0 <= b <= SPECTRUM_CAP,
                    0 < dv <= WEIGHT_CAP,
                    SPECTRUM_CAP == 35184372088832,
                    WEIGHT_CAP == 73786976294838206464,
                    ONE == 1048576,
            ;
        }
        let q: i128 = (s * (ONE as i128)) / dv;
        proof {
            if w == 0 {
                assert(q == 0);
            } else {
                lemma_div_fp_bounded((s as int) * (ONE as int), dv as int, b);
            }
            assert(q == norm_div(self.sum_at(k as int), self.weight_at(k as int)));
            assert(-b <= q <= b);
        }
        q as i64
    }

    /// Normalize every cell into a plain sample vector.
    pub fn normalize(&self) -> (r: Vec<i64>)
        requires
            self.wf(),
        ensures
            r@.len() == self.len_spec(),
            forall|k: int|
                0 <= k < self.len_spec() ==> #[trigger] r@[k] == norm_div(
                    self.sum_at(k),
                    self.weight_at(k),
                ),
            forall|k: int|
                0 <= k < self.len_spec() ==> -self.bound_spec() <= #[trigger] r@[k]
                    <= self.bound_spec(),
            forall|k: int| 0 <= k < self.len_spec() && self.weight_at(k) == 0 ==> r@[k] == 0,
    {
        let n = self.len();
        let mut out: Vec<i64> = Vec::new();
        let mut k: usize = 0;
        while k < n
            invariant
                k <= n,
                n == self.len_spec(),
                self.wf(),
                out@.len() == k,
                forall|i: int|
                    0 <= i < k ==> #[trigger] out@[i] == norm_div(self.sum_at(i), self.weight_at(i)),
                forall|i: int|
                    0 <= i < k ==> -self.bound_spec() <= #[trigger] out@[i] <= self.bound_spec(),
            decreases n - k,
        {
            let v = self.norm_value(k);
            out.push(v);
            k += 1;
        }
        out
    }
}

} // verus!
