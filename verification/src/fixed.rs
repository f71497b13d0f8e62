//! The fixed-point scale that all samples, window weights, scale factors and
//! phases share, together with the small numeric kernels (rounding division,
//! phase wrapping, integer square root, cosine, sine, arctangent) that the
//! engines build on.

use vstd::prelude::*;

verus! {

/// One unit (1.0) on the fixed-point scale: values carry 20 fractional bits.
pub const ONE: i64 = 1048576;

/// Half a unit, used for round-to-nearest.
pub const HALF: i64 = 524288;

/// A full turn (2*pi) on the fixed-point scale, rounded to the nearest step.
pub const TAU_Q: i64 = 6588397;

/// Half a turn (pi), `TAU_Q / 2` rounded down.
pub const HALF_TAU_Q: i64 = 3294198;

/// A quarter turn (pi/2), `TAU_Q / 4` rounded down.
pub const QUARTER_TAU_Q: i64 = 1647099;

/// Correction coefficient of the arctangent approximation (0.273 scaled by `ONE`).
pub const ATAN_K: i64 = 286261;

/// Largest magnitude a spectrum component may take; the transform saturates here.
pub const SPECTRUM_CAP: i64 = 35184372088832;

/// Largest magnitude of a time-domain sample the engines accept.
pub const AMP_LIMIT: i64 = 16777216;

/// Largest number of samples in a signal the engines accept.
pub const MAX_LEN: usize = 67108864;

/// Largest window size the engines accept.
pub const MAX_WINDOW: usize = 65536;

/// Largest fixed-point scale factor the engines accept (128.0).
pub const MAX_SCALE: i64 = 134217728;

/// Truncating division (rounding toward zero), the meaning of `/` on the
/// signed machine integers for a positive divisor.
pub open spec fn div_fp(a: int, b: int) -> int
    recommends
        b > 0,
{
    if a >= 0 {
        a / b
    } else {
        -((-a) / b)
    }
}

/// Scaling a truncating quotient back by the divisor never overshoots the
/// dividend, on either side of zero.
pub proof fn lemma_div_fp_scale(a: int, b: int)
    requires
        b > 0,
    ensures
        a >= 0 ==> 0 <= div_fp(a, b) * b <= a,
        a < 0 ==> a <= div_fp(a, b) * b <= 0,
{
    if a >= 0 {
        vstd::arithmetic::div_mod::lemma_fundamental_div_mod(a, b);
        vstd::arithmetic::div_mod::lemma_div_pos_is_pos(a, b);
        assert((a / b) * b == b * (a / b)) by (nonlinear_arith);
    } else {
        vstd::arithmetic::div_mod::lemma_fundamental_div_mod(-a, b);
        vstd::arithmetic::div_mod::lemma_div_pos_is_pos(-a, b);
        assert((-((-a) / b)) * b == -(b * ((-a) / b))) by (nonlinear_arith);
    }
}

/// A truncating quotient of a dividend within `b` times the divisor stays
/// within `b`.
pub proof fn lemma_div_fp_bounded(a: int, w: int, b: int)
    requires
        w > 0,
        b >= 0,
        -b * w <= a <= b * w,
    ensures
        -b <= div_fp(a, w) <= b,
{
    assert((-b) * w == -(b * w) && w * b == b * w) by (nonlinear_arith);
    if a >= 0 {
        vstd::arithmetic::div_mod::lemma_div_is_ordered(a, b * w, w);
        vstd::arithmetic::div_mod::lemma_div_multiples_vanish(b, w);
        vstd::arithmetic::div_mod::lemma_div_pos_is_pos(a, w);
    } else {
        vstd::arithmetic::div_mod::lemma_div_is_ordered(-a, b * w, w);
        vstd::arithmetic::div_mod::lemma_div_multiples_vanish(b, w);
        vstd::arithmetic::div_mod::lemma_div_pos_is_pos(-a, w);
    }
}

/// Wrapping of a phase into `[0, TAU_Q)`, for inputs less than one turn out of range.
pub open spec fn wrap_spec(v: int) -> int {
    if v < 0 {
        v + TAU_Q
    } else if v >= TAU_Q {
        v - TAU_Q
    } else {
        v
    }
}

/// Wrap a phase into `[0, TAU_Q)`; the input may be out of range by less than one turn.
pub fn wrap_phase(v: i64) -> (r: i64)
    requires
        -TAU_Q <= v < 2 * TAU_Q,
    ensures
        r == wrap_spec(v as int),
        0 <= r < TAU_Q,
{
    if v < 0 {
        v + TAU_Q
    } else if v >= TAU_Q {
        v - TAU_Q
    } else {
        v
    }
}

/// Saturation of a spectrum component into `[-SPECTRUM_CAP, SPECTRUM_CAP]`.
pub open spec fn cl(v: int) -> int {
    if v > SPECTRUM_CAP {
        SPECTRUM_CAP as int
    } else if v < -SPECTRUM_CAP {
        -SPECTRUM_CAP as int
    } else {
        v
    }
}

/// Saturate a wide intermediate into the spectrum range.
pub fn clamp_spectrum(v: i128) -> (r: i64)
    ensures
        r == cl(v as int),
{
    if v > SPECTRUM_CAP as i128 {
        SPECTRUM_CAP
    } else if v < -(SPECTRUM_CAP as i128) {
        -SPECTRUM_CAP
    } else {
        v as i64
    }
}

/// The integer square root: the unique `r >= 0` with `r * r <= x < (r + 1) * (r + 1)`.
pub open spec fn int_sqrt(x: int) -> int {
    choose|r: int| r >= 0 && (#[trigger] (r * r)) <= x < (r + 1) * (r + 1)
}

/// The bracketing `r * r <= x < (r + 1) * (r + 1)` has exactly one nonnegative
/// solution, so it identifies `int_sqrt`.
pub proof fn lemma_int_sqrt_unique(x: int, r: int)
    requires
        r >= 0,
        r * r <= x,
        x < (r + 1) * (r + 1),
    ensures
        int_sqrt(x) == r,
{
    assert(exists|q: int| q >= 0 && (#[trigger] (q * q)) <= x < (q + 1) * (q + 1)) by {
        assert(r >= 0 && (r * r) <= x < (r + 1) * (r + 1));
    }
    let c = choose|q: int| q >= 0 && (#[trigger] (q * q)) <= x < (q + 1) * (q + 1);
    assert(c == r) by (nonlinear_arith)
        requires
            c >= 0,
            r >= 0,
            c * c <= x,
            x < (c + 1) * (c + 1),
            r * r <= x,
            x < (r + 1) * (r + 1),
    ;
}

/// Integer square root by bisection.
pub fn isqrt(x: u128) -> (r: u64)
    ensures
        (r as int) * (r as int) <= x as int,
        (x as int) < (r as int + 1) * (r as int + 1),
        r as int == int_sqrt(x as int),
{
    let mut lo: u64 = 0;
    let mut hi: u64 = u64::MAX;
    proof {
        assert((hi as int + 1) * (hi as int + 1) > x as int) by (nonlinear_arith)
            requires
                hi as int + 1 == 0x10000000000000000,
                (x as int) < 0x100000000000000000000000000000000,
        ;
    }
    while lo < hi
        invariant
            lo <= hi,
            (lo as int) * (lo as int) <= x as int,
            (x as int) < (hi as int + 1) * (hi as int + 1),
        decreases hi - lo,
    {
        let mid: u64 = lo + (hi - lo) / 2 + (hi - lo) % 2;
        proof {
            assert((mid as int) * (mid as int) < 0x100000000000000000000000000000000)
                by (nonlinear_arith)
                requires
                    0 <= (mid as int) && (mid as int) < 0x10000000000000000,
            ;
        }
        if (mid as u128) * (mid as u128) <= x {
            lo = mid;
        } else {
            hi = mid - 1;
        }
    }
    proof {
        lemma_int_sqrt_unique(x as int, lo as int);
    }
    lo
}

/// The cosine kernel on a quarter turn: a four-term series, saturated into
/// `[-ONE, ONE]`.
pub open spec fn cos_kernel_spec(x: int) -> int {
    let x2 = (x * x) / (ONE as int);
    let t4 = (x2 * x2) / (ONE as int);
    let t6 = (t4 * x2) / (ONE as int);
    let c = ONE - x2 / 2 + t4 / 24 - t6 / 720;
    if c > ONE {
        ONE as int
    } else if c < -ONE {
        -ONE as int
    } else {
        c
    }
}

fn cos_kernel(x: i64) -> (r: i64)
    requires
        0 <= x <= QUARTER_TAU_Q + 1,
    ensures
        r == cos_kernel_spec(x as int),
        -ONE <= r <= ONE,
        x == 0 ==> r == ONE,
{
    proof {
        assert(x * x <= 2712938410000) by (nonlinear_arith)
            requires
                0 <= x <= 1647100,
        ;
    }
    let x2: i64 = (x * x) / ONE;
    assert(0 <= x2 <= 2587300);
    proof {
        assert(x2 * x2 <= 6694121290000) by (nonlinear_arith)
            requires
                0 <= x2 <= 2587300,
        ;
    }
    let t4: i64 = (x2 * x2) / ONE;
    assert(0 <= t4 <= 6384100);
    proof {
        assert(t4 * x2 <= 16519552030000) by (nonlinear_arith)
            requires
                0 <= t4 <= 6384100,
                0 <= x2 <= 2587300,
        ;
    }
    let t6: i64 = (t4 * x2) / ONE;
    let c: i64 = ONE - x2 / 2 + t4 / 24 - t6 / 720;
    if c > ONE {
        ONE
    } else if c < -ONE {
        -ONE
    } else {
        c
    }
}

/// The cosine of a phase in `[0, TAU_Q)`, by symmetry folding onto the kernel.
pub open spec fn cos_spec(p: int) -> int {
    let q = if p > HALF_TAU_Q {
        TAU_Q - p
    } else {
        p
    };
    if q > QUARTER_TAU_Q {
        -cos_kernel_spec(HALF_TAU_Q - q)
    } else {
        cos_kernel_spec(q)
    }
}

/// Fixed-point cosine of a phase in `[0, TAU_Q)`.
pub fn cos_q(p: i64) -> (r: i64)
    requires
        0 <= p < TAU_Q,
    ensures
        r == cos_spec(p as int),
        -ONE <= r <= ONE,
        p == 0 ==> r == ONE,
{
    let q: i64 = if p > HALF_TAU_Q {
        TAU_Q - p
    } else {
        p
    };
    if q > QUARTER_TAU_Q {
        -cos_kernel(HALF_TAU_Q - q)
    } else {
        cos_kernel(q)
    }
}

/// The cosine is even around the full turn: folding `p` and `TAU_Q - p`
/// reaches the same kernel point.
pub proof fn lemma_cos_symmetric(p: int)
    requires
        0 < p < TAU_Q,
    ensures
        cos_spec(TAU_Q - p) == cos_spec(p),
{
}

/// The sine, as the cosine shifted back a quarter turn.
pub open spec fn sin_spec(p: int) -> int {
    cos_spec(wrap_spec(p - QUARTER_TAU_Q))
}

/// Fixed-point sine of a phase in `[0, TAU_Q)`.
pub fn sin_q(p: i64) -> (r: i64)
    requires
        0 <= p < TAU_Q,
    ensures
        r == sin_spec(p as int),
        -ONE <= r <= ONE,
{
    cos_q(wrap_phase(p - QUARTER_TAU_Q))
}

/// The arctangent of `num / den` for `0 <= num <= den`, in `[0, QUARTER_TAU_Q]`:
/// a linear term plus a quadratic correction, saturated at the quarter turn.
pub open spec fn atan_frac_spec(num: int, den: int) -> int {
    let z = (num * ONE) / den;
    let t = (z * QUARTER_TAU_Q) / (ONE as int) + (((z * (ONE - z)) / (ONE as int)) * ATAN_K) / (
    ONE as int);
    if t > QUARTER_TAU_Q {
        QUARTER_TAU_Q as int
    } else if t < 0 {
        0
    } else {
        t
    }
}

fn atan_frac(num: i64, den: i64) -> (r: i64)
    requires
        0 <= num <= den,
        0 < den <= 2 * SPECTRUM_CAP,
    ensures
        r == atan_frac_spec(num as int, den as int),
        0 <= r <= QUARTER_TAU_Q,
        num == 0 ==> r == 0,
{
    let zq: i128 = ((num as i128) * (ONE as i128)) / (den as i128);
    proof {
        assert(((num as int * ONE) / (den as int)) <= ONE && ((num as int * ONE) / (den as int)) >= 0)
            by (nonlinear_arith)
            requires
                0 <= num <= den,
                0 < den,
                ONE == 1048576,
        ;
    }
    let z: i64 = zq as i64;
    proof {
        assert(0 <= z * QUARTER_TAU_Q <= 4398046511104 && 0 <= z * (ONE - z) <= 1099511627776)
            by (nonlinear_arith)
            requires
                0 <= z <= 1048576,
                QUARTER_TAU_Q == 1647099,
                ONE == 1048576,
        ;
    }
    let t: i64 = (z * QUARTER_TAU_Q) / ONE + (((z * (ONE - z)) / ONE) * ATAN_K) / ONE;
    if t > QUARTER_TAU_Q {
        QUARTER_TAU_Q
    } else if t < 0 {
        0
    } else {
        t
    }
}

/// The angle of the point `(x, y)`, measured counterclockwise from the
/// positive `x` axis, in `[0, TAU_Q)`; the origin maps to zero.
pub open spec fn atan2_spec(y: int, x: int) -> int {
    let ay = if y >= 0 {
        y
    } else {
        -y
    };
    let ax = if x >= 0 {
        x
    } else {
        -x
    };
    if ay == 0 && ax == 0 {
        0
    } else {
        let t = if ax >= ay {
            atan_frac_spec(ay, ax)
        } else {
            QUARTER_TAU_Q - atan_frac_spec(ax, ay)
        };
        let r = if x >= 0 && y >= 0 {
            t
        } else if x < 0 && y >= 0 {
            HALF_TAU_Q - t
        } else if x < 0 {
            HALF_TAU_Q + t
        } else {
            TAU_Q - t
        };
        if r == TAU_Q {
            0
        } else {
            r
        }
    }
}

/// Fixed-point four-quadrant arctangent, always in `[0, TAU_Q)`.
pub fn atan2_q(y: i64, x: i64) -> (r: i64)
    requires
        -SPECTRUM_CAP <= y <= SPECTRUM_CAP,
        -SPECTRUM_CAP <= x <= SPECTRUM_CAP,
    ensures
        r == atan2_spec(y as int, x as int),
        0 <= r < TAU_Q,
        y == 0 && x > 0 ==> r == 0,
{
    let ay: i64 = if y >= 0 {
        y
    } else {
        -y
    };
    let ax: i64 = if x >= 0 {
        x
    } else {
        -x
    };
    if ay == 0 && ax == 0 {
        0
    } else {
        let t: i64 = if ax >= ay {
            atan_frac(ay, ax)
        } else {
            QUARTER_TAU_Q - atan_frac(ax, ay)
        };
        let r: i64 = if x >= 0 && y >= 0 {
            t
        } else if x < 0 && y >= 0 {
            HALF_TAU_Q - t
        } else if x < 0 {
            HALF_TAU_Q + t
        } else {
            TAU_Q - t
        };
        if r == TAU_Q {
            0
        } else {
            r
        }
    }
}

} // verus!
