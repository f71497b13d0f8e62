//! Window construction: sampling a caller-supplied shape function at every
//! slot of a symmetric coordinate grid, and the squared-cosine (Hann-family)
//! shape normalized by the window size.

use vstd::prelude::*;

use crate::fixed::{
    ONE, HALF, TAU_Q, HALF_TAU_Q, MAX_WINDOW, cos_spec, cos_q, wrap_spec, wrap_phase, div_fp,
    lemma_cos_symmetric, lemma_div_fp_bounded,
};

verus! {

/// The coordinate of slot `i` of an `n`-point window: one fixed-point unit per
/// slot, placed symmetrically about the center, so slot `i` and slot
/// `n - 1 - i` sit at opposite coordinates.
pub open spec fn win_coord(i: int, n: int) -> int {
    (2 * i - (n - 1)) * (HALF as int)
}

/// The shape function accepts every slot coordinate of an `n`-point window.
pub open spec fn shape_fn_req<F: Fn(i64, usize) -> i64>(f: F, n: int) -> bool {
    forall|i: int| 0 <= i < n ==> call_requires(f, (win_coord(i, n) as i64, n as usize))
}

/// Everything the shape function can return is a weight in `[0, ONE]`.
pub open spec fn shape_fn_bounded<F: Fn(i64, usize) -> i64>(f: F) -> bool {
    forall|x: i64, m: usize, r: i64| #[trigger] call_ensures(f, (x, m), r) ==> 0 <= r <= ONE
}

/// `w` is a possible result of sampling the shape `f` at every slot of an
/// `n`-point window.
pub open spec fn window_result<F: Fn(i64, usize) -> i64>(f: F, n: int, w: Seq<i64>) -> bool {
    &&& w.len() == n
    &&& forall|i: int|
        0 <= i < n ==> call_ensures(f, (win_coord(i, n) as i64, n as usize), #[trigger] w[i])
}

/// Sample the shape function at every slot coordinate of a `window_size`-point
/// window, producing exactly `window_size` weights.
pub fn build_window<F: Fn(i64, usize) -> i64>(f: F, window_size: usize) -> (w: Vec<i64>)
    requires
        1 <= window_size <= MAX_WINDOW,
        shape_fn_req(f, window_size as int),
    ensures
        w@.len() == window_size,
        window_result(f, window_size as int, w@),
{
    let n = window_size;
    let mut out: Vec<i64> = Vec::new();
    let mut i: usize = 0;
    while i < n
        invariant
            i <= n,
            1 <= n <= MAX_WINDOW,
            out@.len() == i,
            shape_fn_req(f, n as int),
            forall|j: int|
                0 <= j < i ==> call_ensures(f, (win_coord(j, n as int) as i64, n), #[trigger] out@[j]),
        decreases n - i,
    {
        let x: i64 = 2 * (i as i64) - (n as i64 - 1);
        let xc: i64 = x * HALF;
        proof {
            assert(xc == win_coord(i as int, n as int));
        }
        let v = f(xc, n);
        out.push(v);
        i += 1;
    }
    out
}

/// The squared-cosine shape scaled by the window size: the weight at
/// coordinate `x` of an `n`-point window is `cos(pi * x / n)^2 / n` on the
/// fixed-point scale.  It peaks at the center coordinate zero and falls to
/// zero at the edges; the `1 / n` factor matches the unnormalized transform
/// convention of the spectral engines.
pub open spec fn hann_spec(x: int, n: int) -> int {
    let p = div_fp(x * HALF_TAU_Q, n * ONE);
    let c = cos_spec(wrap_spec(p));
    ((c * c) / (ONE as int)) / n
}

/// Evaluate the squared-cosine shape at one coordinate.
pub fn hann_window(x: i64, window_size: usize) -> (r: i64)
    requires
        1 <= window_size <= MAX_WINDOW,
        -(window_size as i64) * ONE <= x <= (window_size as i64) * ONE,
    ensures
        r == hann_spec(x as int, window_size as int),
        0 <= r <= ONE,
{
    let n = window_size;
    let num: i128 = (x as i128) * (HALF_TAU_Q as i128);
    let den: i128 = (n as i128) * (ONE as i128);
    proof {
        assert((-(n as int) * ONE) * HALF_TAU_Q <= (x as int) * HALF_TAU_Q <= ((n as int) * ONE)
            * HALF_TAU_Q && (-(n as int) * ONE) * HALF_TAU_Q == -HALF_TAU_Q * ((n as int) * ONE)
            && ((n as int) * ONE) * HALF_TAU_Q == HALF_TAU_Q * ((n as int) * ONE) && 0 < (n as int)
            * ONE <= 68719476736) by (nonlinear_arith)
            requires
                -(n as int) * ONE <= x as int <= (n as int) * ONE,
                1 <= n as int <= 65536,
                ONE == 1048576,
                HALF_TAU_Q == 3294198,
        ;
        lemma_div_fp_bounded((x as int) * HALF_TAU_Q, (n as int) * ONE, HALF_TAU_Q as int);
    }
    let p128: i128 = num / den;
    let p: i64 = p128 as i64;
    let pw: i64 = wrap_phase(p);
    let c: i64 = cos_q(pw);
    proof {
        assert(0 <= c * c <= 1099511627776) by (nonlinear_arith)
            requires
                -ONE <= c <= ONE,
                ONE == 1048576,
        ;
    }
    let c2: i64 = (c * c) / ONE;
    let r: i64 = c2 / (n as i64);
    r
}

/// The squared-cosine shape is even: opposite coordinates get equal weights.
pub proof fn lemma_hann_symmetric(x: int, n: int)
    requires
        1 <= n <= MAX_WINDOW,
        -n * (ONE as int) <= x <= n * (ONE as int),
    ensures
        hann_spec(-x, n) == hann_spec(x, n),
{
    assert((-n * (ONE as int)) * HALF_TAU_Q <= x * HALF_TAU_Q <= (n * (ONE as int)) * HALF_TAU_Q
        && (-n * (ONE as int)) * HALF_TAU_Q == -HALF_TAU_Q * (n * (ONE as int)) && (n * (
    ONE as int)) * HALF_TAU_Q == HALF_TAU_Q * (n * (ONE as int)) && (-x) * HALF_TAU_Q == -(x
        * HALF_TAU_Q) && 0 < n * (ONE as int)) by (nonlinear_arith)
        requires
            -n * (ONE as int) <= x <= n * (ONE as int),
            1 <= n <= 65536,
            ONE == 1048576,
            HALF_TAU_Q == 3294198,
    ;
    lemma_div_fp_bounded(x * HALF_TAU_Q, n * (ONE as int), HALF_TAU_Q as int);
    let p = div_fp(x * HALF_TAU_Q, n * (ONE as int));
    let pm = div_fp((-x) * HALF_TAU_Q, n * (ONE as int));
    assert(pm == -p);
    if p == 0 {
    } else if p > 0 {
        assert(wrap_spec(p) == p && wrap_spec(-p) == TAU_Q - p);
        lemma_cos_symmetric(p);
    } else {
        assert(wrap_spec(p) == TAU_Q + p && wrap_spec(-p) == -p);
        lemma_cos_symmetric(-p);
    }
}

/// The window sampled from the squared-cosine shape, slot by slot.
pub open spec fn hann_window_seq(n: int) -> Seq<i64> {
    Seq::new(n as nat, |i: int| hann_spec(win_coord(i, n), n) as i64)
}

/// Window symmetry: the squared-cosine window reads the same from either end,
/// `w[i] == w[n - 1 - i]` for every slot `i`.
pub proof fn lemma_hann_window_symmetric(n: int, i: int)
    requires
        1 <= n <= MAX_WINDOW,
        0 <= i < n,
    ensures
        hann_window_seq(n)[i] == hann_window_seq(n)[n - 1 - i],
{
    assert(win_coord(n - 1 - i, n) == -win_coord(i, n));
    assert(-n * (ONE as int) <= win_coord(i, n) <= n * (ONE as int)) by (nonlinear_arith)
        requires
            0 <= i < n,
            1 <= n <= 65536,
            ONE == 1048576,
            HALF == 524288,
            win_coord(i, n) == (2 * i - (n - 1)) * (HALF as int),
    ;
    lemma_hann_symmetric(win_coord(i, n), n);
}

} // verus!
