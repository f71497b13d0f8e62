//! The phase vocoder: a spectral time stretcher.  The analysis spectra are
//! split into magnitudes and phases; magnitudes and per-frame phase
//! differences are linearly resampled onto the synthesis frame grid, phases
//! are integrated over time to keep sustained tones coherent, and bins whose
//! magnitude jumps sharply (transients) snap to the nearest analysis phase
//! instead; the rebuilt spectra go back through the inverse short-time
//! transform.

use vstd::prelude::*;

use crate::complex::Complex;
use crate::fft::{
    stft, istft, stft_frames, stft_frame_spec, istft_sum_at, istft_wsum_at, rows_view,
    lemma_fft_spec_bounds, to_complex_seq, windowed_frame_spec,
};
use crate::fixed::{
    ONE, HALF, TAU_Q, SPECTRUM_CAP, MAX_LEN, MAX_SCALE, div_fp, wrap_spec, wrap_phase, cos_spec,
    sin_spec, cos_q, sin_q, atan2_spec, atan2_q, int_sqrt, isqrt, lemma_div_fp_bounded,
};
use crate::accum::norm_div;
use crate::ola::engine_args_ok;
use crate::signal::TimeDomainSignal;
use crate::windows::{build_window, shape_fn_req, shape_fn_bounded, window_result};

verus! {

/// The magnitude of a spectrum component, kept within the spectrum range.
pub open spec fn mag_spec(c: Complex) -> int {
    let m = int_sqrt(c.re * c.re + c.im * c.im);
    if m < 0 {
        0
    } else if m > SPECTRUM_CAP {
        SPECTRUM_CAP as int
    } else {
        m
    }
}

/// The magnitudes of one spectrum frame.
pub open spec fn mags_row_spec(frame: Seq<Complex>) -> Seq<i64> {
    Seq::new(frame.len(), |b: int| mag_spec(frame[b]) as i64)
}

/// The phases of one spectrum frame, each in `[0, TAU_Q)`.
pub open spec fn phases_row_spec(frame: Seq<Complex>) -> Seq<i64> {
    Seq::new(frame.len(), |b: int| atan2_spec(frame[b].im as int, frame[b].re as int) as i64)
}

/// The wrapped elementwise difference of two phase rows.
pub open spec fn diff_row_spec(cur: Seq<i64>, prev: Seq<i64>) -> Seq<i64> {
    Seq::new(cur.len(), |b: int| wrap_spec(cur[b] - prev[b]) as i64)
}

/// The source position of synthesis frame `t` on the analysis frame axis,
/// fixed-point: `t / scale`.
pub open spec fn src_pos_spec(t: int, scale: int) -> int {
    (t * ONE * ONE) / scale
}

/// Linear interpolation of a matrix column along the frame axis at source
/// position `t / scale`: the floor and ceiling frames weighted by closeness
/// (the floor frame alone when the position is integral), indices clamped to
/// the last frame.
pub open spec fn interp_lin_at(rows: Seq<Seq<i64>>, frames: int, scale: int, t: int, b: int) -> int {
    let pos = src_pos_spec(t, scale);
    let i0 = pos / (ONE as int);
    let d0 = pos % (ONE as int);
    let i1 = if d0 == 0 {
        i0
    } else {
        i0 + 1
    };
    let w0 = ONE - d0;
    let w1 = d0;
    let i0c = if i0 < frames - 1 {
        i0
    } else {
        frames - 1
    };
    let i1c = if i1 < frames - 1 {
        i1
    } else {
        frames - 1
    };
    (rows[i0c][b] * w0 + rows[i1c][b] * w1) / (ONE as int)
}

/// Nearest-neighbor resampling of a matrix row index at source position
/// `t / scale`, clamped to the last frame.
pub open spec fn near_index(frames: int, scale: int, t: int) -> int {
    let i = (src_pos_spec(t, scale) + HALF) / (ONE as int);
    if i < frames - 1 {
        i
    } else {
        frames - 1
    }
}

/// Whether a bin counts as a transient between consecutive synthesis frames:
/// the magnitude-change ratio `(m0 - m1) / (m0 + m1)` reaches the cutoff.  A
/// bin with no energy in either frame is never a transient.
pub open spec fn transient_spec(m0: int, m1: int, cutoff: int) -> bool {
    m0 + m1 > 0 && (m0 - m1) * ONE >= cutoff * (m0 + m1)
}

/// The synthesis phase of frame `t` at bin `b`: the first frame starts at its
/// resampled phase difference; each later frame integrates the resampled
/// phase difference onto the previous synthesis phase, except that a
/// transient bin snaps to the nearest analysis phase.  Always wrapped into
/// `[0, TAU_Q)`.
pub open spec fn synth_phase_at(
    smags: Seq<Seq<i64>>,
    sdiffs: Seq<Seq<i64>>,
    uphases: Seq<Seq<i64>>,
    cutoff: int,
    t: int,
    b: int,
) -> int
    decreases t,
{
    if t <= 0 {
        sdiffs[0][b] as int
    } else {
        let time_phase = synth_phase_at(smags, sdiffs, uphases, cutoff, t - 1, b) + sdiffs[t][b];
        let p = if transient_spec(smags[t][b] as int, smags[t - 1][b] as int, cutoff) {
            uphases[t][b] as int
        } else {
            time_phase
        };
        wrap_spec(p)
    }
}

/// Phase range safety: every synthesis phase lies in `[0, TAU_Q)`, provided
/// the resampled phase differences and the nearest analysis phases do.
pub proof fn lemma_synth_phase_range(
    smags: Seq<Seq<i64>>,
    sdiffs: Seq<Seq<i64>>,
    uphases: Seq<Seq<i64>>,
    cutoff: int,
    t: int,
    b: int,
)
    requires
        0 <= t,
        forall|u: int| 0 <= u <= t ==> 0 <= #[trigger] (sdiffs[u][b] as int) < TAU_Q,
        forall|u: int| 0 <= u <= t ==> 0 <= #[trigger] (uphases[u][b] as int) < TAU_Q,
    ensures
        0 <= synth_phase_at(smags, sdiffs, uphases, cutoff, t, b) < TAU_Q,
    decreases t,
{
    if t <= 0 {
        assert(0 <= (sdiffs[0][b] as int) < TAU_Q);
    } else {
        lemma_synth_phase_range(smags, sdiffs, uphases, cutoff, t - 1, b);
        assert(0 <= (sdiffs[t][b] as int) < TAU_Q);
        assert(0 <= (uphases[t][b] as int) < TAU_Q);
    }
}

fn copy_row(v: &Vec<i64>) -> (r: Vec<i64>)
    ensures
        r@ == v@,
{
    let n = v.len();
    let mut out: Vec<i64> = Vec::new();
    let mut i: usize = 0;
    while i < n
        invariant
            i <= n,
            n == v@.len(),
            out@.len() == i,
            forall|j: int| 0 <= j < i ==> #[trigger] out@[j] == v@[j],
        decreases n - i,
    {
        out.push(v[i]);
        i += 1;
    }
    proof {
        assert(out@ =~= v@);
    }
    out
}

fn mags_row(frame: &Vec<Complex>) -> (r: Vec<i64>)
    requires
        forall|b: int|
            0 <= b < frame@.len() ==> -SPECTRUM_CAP <= #[trigger] frame@[b].re <= SPECTRUM_CAP
                && -SPECTRUM_CAP <= frame@[b].im <= SPECTRUM_CAP,
    ensures
        r@ == mags_row_spec(frame@),
        r@.len() == frame@.len(),
        forall|b: int| 0 <= b < r@.len() ==> 0 <= #[trigger] r@[b] <= SPECTRUM_CAP,
{
    let n = frame.len();
    let mut out: Vec<i64> = Vec::new();
    let mut b: usize = 0;
    while b < n
        invariant
            b <= n,
            n == frame@.len(),
            forall|t: int|
                0 <= t < frame@.len() ==> -SPECTRUM_CAP <= #[trigger] frame@[t].re <= SPECTRUM_CAP
                    && -SPECTRUM_CAP <= frame@[t].im <= SPECTRUM_CAP,
            out@.len() == b,
            forall|t: int| 0 <= t < b ==> #[trigger] out@[t] == mags_row_spec(frame@)[t],
            forall|t: int| 0 <= t < b ==> 0 <= #[trigger] out@[t] <= SPECTRUM_CAP,
        decreases n - b,
    {
        let c = frame[b];
        proof {
            assert(0 <= (c.re as i128) * (c.re as i128) <= 0x10000000000000000000000000 && 0 <= (
            c.im as i128) * (c.im as i128) <= 0x10000000000000000000000000) by (nonlinear_arith)
                requires
                    -SPECTRUM_CAP <= c.re <= SPECTRUM_CAP,
                    -SPECTRUM_CAP <= c.im <= SPECTRUM_CAP,
                    SPECTRUM_CAP == 35184372088832,
            ;
        }
        let rr: i128 = (c.re as i128) * (c.re as i128);
        let ii: i128 = (c.im as i128) * (c.im as i128);
        let sq: u128 = (rr + ii) as u128;
        let m0: u64 = isqrt(sq);
        let m: i64 = if m0 > (SPECTRUM_CAP as u64) {
            SPECTRUM_CAP
        } else {
            m0 as i64
        };
        proof {
            assert(rr + ii >= 0);
            assert(sq as int == c.re * c.re + c.im * c.im);
            assert(m as int == mag_spec(c));
        }
        out.push(m);
        b += 1;
    }
    proof {
        assert(out@ =~= mags_row_spec(frame@));
    }
    out
}

fn phases_row(frame: &Vec<Complex>) -> (r: Vec<i64>)
    requires
        forall|b: int|
            0 <= b < frame@.len() ==> -SPECTRUM_CAP <= #[trigger] frame@[b].re <= SPECTRUM_CAP
                && -SPECTRUM_CAP <= frame@[b].im <= SPECTRUM_CAP,
    ensures
        r@ == phases_row_spec(frame@),
        r@.len() == frame@.len(),
        forall|b: int| 0 <= b < r@.len() ==> 0 <= #[trigger] r@[b] < TAU_Q,
{
    let n = frame.len();
    let mut out: Vec<i64> = Vec::new();
    let mut b: usize = 0;
    while b < n
        invariant
            b <= n,
            n == frame@.len(),
            forall|t: int|
                0 <= t < frame@.len() ==> -SPECTRUM_CAP <= #[trigger] frame@[t].re <= SPECTRUM_CAP
                    && -SPECTRUM_CAP <= frame@[t].im <= SPECTRUM_CAP,
            out@.len() == b,
            forall|t: int| 0 <= t < b ==> #[trigger] out@[t] == phases_row_spec(frame@)[t],
            forall|t: int| 0 <= t < b ==> 0 <= #[trigger] out@[t] < TAU_Q,
        decreases n - b,
    {
        let c = frame[b];
        let p = atan2_q(c.im, c.re);
        out.push(p);
        b += 1;
    }
    proof {
        assert(out@ =~= phases_row_spec(frame@));
    }
    out
}

fn diff_row(cur: &Vec<i64>, prev: &Vec<i64>) -> (r: Vec<i64>)
    requires
        cur@.len() == prev@.len(),
        forall|b: int| 0 <= b < cur@.len() ==> 0 <= #[trigger] cur@[b] < TAU_Q,
        forall|b: int| 0 <= b < prev@.len() ==> 0 <= #[trigger] prev@[b] < TAU_Q,
    ensures
        r@ == diff_row_spec(cur@, prev@),
        r@.len() == cur@.len(),
        forall|b: int| 0 <= b < r@.len() ==> 0 <= #[trigger] r@[b] < TAU_Q,
{
    let n = cur.len();
    let mut out: Vec<i64> = Vec::new();
    let mut b: usize = 0;
    while b < n
        invariant
            b <= n,
            n == cur@.len(),
            cur@.len() == prev@.len(),
            forall|t: int| 0 <= t < cur@.len() ==> 0 <= #[trigger] cur@[t] < TAU_Q,
            forall|t: int| 0 <= t < prev@.len() ==> 0 <= #[trigger] prev@[t] < TAU_Q,
            out@.len() == b,
            forall|t: int| 0 <= t < b ==> #[trigger] out@[t] == diff_row_spec(cur@, prev@)[t],
            forall|t: int| 0 <= t < b ==> 0 <= #[trigger] out@[t] < TAU_Q,
        decreases n - b,
    {
        let d = wrap_phase(cur[b] - prev[b]);
        out.push(d);
        b += 1;
    }
    proof {
        assert(out@ =~= diff_row_spec(cur@, prev@));
    }
    out
}

/// The rows of a sample matrix, as sequences.
pub open spec fn rows_i64(m: Seq<Vec<i64>>) -> Seq<Seq<i64>> {
    Seq::new(m.len(), |t: int| m[t]@)
}

fn interp_lin_row(
    rows: &Vec<Vec<i64>>,
    frames: usize,
    scale: i64,
    t: usize,
    ws: usize,
    bound: Ghost<int>,
) -> (r: Vec<i64>)
    requires
        rows@.len() == frames,
        1 <= frames <= MAX_LEN,
        forall|q: int| 0 <= q < frames ==> #[trigger] rows@[q]@.len() == ws,
        0 <= bound@ <= SPECTRUM_CAP,
        forall|q: int, b: int|
            0 <= q < frames && 0 <= b < ws ==> 0 <= #[trigger] (rows@[q]@[b] as int) <= bound@,
        1 <= scale <= MAX_SCALE,
        t <= MAX_LEN,
    ensures
        r@.len() == ws,
        forall|b: int|
            0 <= b < ws ==> #[trigger] (r@[b] as int) == interp_lin_at(
                rows_i64(rows@),
                frames as int,
                scale as int,
                t as int,
                b,
            ),
        forall|b: int| 0 <= b < ws ==> 0 <= #[trigger] (r@[b] as int) <= bound@,
{
    let ghost bd = bound@;
    proof {
        assert(0 <= (t as i128) * (ONE as i128) <= 0x400000000000 && 0 <= ((t as i128) * (
        ONE as i128)) * (ONE as i128) <= 0x100000000000000000000) by (nonlinear_arith)
            requires
                0 <= (t as int) && (t as int) <= 67108864,
                ONE == 1048576,
        ;
    }
    let pos: i128 = ((t as i128) * (ONE as i128) * (ONE as i128)) / (scale as i128);
    let i0_128: i128 = pos / (ONE as i128);
    let d0_128: i128 = pos % (ONE as i128);
    proof {
        assert(pos as int == src_pos_spec(t as int, scale as int));
        assert(0 <= pos <= 0x100000000000000000000);
        assert(0 <= i0_128 <= pos && 0 <= d0_128 < ONE);
    }
    let d0: i64 = d0_128 as i64;
    let i0c: usize = if i0_128 < (frames as i128) - 1 {
        i0_128 as usize
    } else {
        frames - 1
    };
    let i1c: usize = if d0 == 0 {
        i0c
    } else if i0_128 + 1 < (frames as i128) - 1 {
        (i0_128 + 1) as usize
    } else {
        frames - 1
    };
    let w0: i64 = ONE - d0;
    let w1: i64 = if d0 == 0 {
        0
    } else {
        d0
    };
    proof {
        assert(i0c as int == (if (i0_128 as int) < frames - 1 {
            i0_128 as int
        } else {
            frames - 1
        }));
        assert(i1c as int == (if (if d0_128 == 0 {
            i0_128 as int
        } else {
            i0_128 as int + 1
        }) < frames - 1 {
            (if d0_128 == 0 {
                i0_128 as int
            } else {
                i0_128 as int + 1
            })
        } else {
            frames - 1
        }));
    }
    let row0: &Vec<i64> = &rows[i0c];
    let row1: &Vec<i64> = &rows[i1c];
    let mut out: Vec<i64> = Vec::new();
    let mut b: usize = 0;
    while b < ws
        invariant
            b <= ws,
            row0@ == rows@[i0c as int]@,
            row1@ == rows@[i1c as int]@,
            row0@.len() == ws,
            row1@.len() == ws,
            0 <= bd <= SPECTRUM_CAP,
            forall|x: int| 0 <= x < ws ==> 0 <= #[trigger] (row0@[x] as int) <= bd,
            forall|x: int| 0 <= x < ws ==> 0 <= #[trigger] (row1@[x] as int) <= bd,
            0 <= w0 <= ONE,
            0 <= w1 <= ONE,
            w0 + w1 == ONE,
            out@.len() == b,
            forall|x: int|
                0 <= x < b ==> #[trigger] (out@[x] as int) == (rows@[i0c as int]@[x] * w0
                    + rows@[i1c as int]@[x] * w1) / (ONE as int),
            forall|x: int| 0 <= x < b ==> 0 <= #[trigger] (out@[x] as int) <= bd,
        decreases ws - b,
    {
        let v0: i64 = row0[b];
        let v1: i64 = row1[b];
        proof {
            assert(0 <= (v0 as i128) * (w0 as i128) + (v1 as i128) * (w1 as i128) <= bd * (
            ONE as int)) by (nonlinear_arith)
                requires
                    0 <= v0 <= bd,
                    0 <= v1 <= bd,
                    0 <= w0 <= ONE,
                    0 <= w1 <= ONE,
                    w0 + w1 == ONE,
                    0 <= bd <= SPECTRUM_CAP,
                    SPECTRUM_CAP == 35184372088832,
                    ONE == 1048576,
            ;
            vstd::arithmetic::div_mod::lemma_div_is_ordered(
                (v0 as int) * (w0 as int) + (v1 as int) * (w1 as int),
                bd * (ONE as int),
                ONE as int,
            );
            vstd::arithmetic::div_mod::lemma_div_multiples_vanish(bd, ONE as int);
            vstd::arithmetic::div_mod::lemma_div_pos_is_pos(
                (v0 as int) * (w0 as int) + (v1 as int) * (w1 as int),
                ONE as int,
            );
            assert((ONE as int) * bd == bd * (ONE as int)) by (nonlinear_arith);
        }
        let v: i64 = (((v0 as i128) * (w0 as i128) + (v1 as i128) * (w1 as i128)) / (
        ONE as i128)) as i64;
        out.push(v);
        b += 1;
    }
    proof {
        assert forall|x: int| 0 <= x < ws implies #[trigger] (out@[x] as int) == interp_lin_at(
            rows_i64(rows@),
            frames as int,
            scale as int,
            t as int,
            x,
        ) by {
            assert(rows_i64(rows@)[i0c as int] == rows@[i0c as int]@);
            assert(rows_i64(rows@)[i1c as int] == rows@[i1c as int]@);
        }
    }
    out
}

fn interp_near_row(rows: &Vec<Vec<i64>>, frames: usize, scale: i64, t: usize, ws: usize) -> (r:
    Vec<i64>)
    requires
        rows@.len() == frames,
        1 <= frames <= MAX_LEN,
        forall|q: int| 0 <= q < frames ==> #[trigger] rows@[q]@.len() == ws,
        1 <= scale <= MAX_SCALE,
        t <= MAX_LEN,
    ensures
        r@.len() == ws,
        r@ == rows_i64(rows@)[near_index(frames as int, scale as int, t as int)],
{
    proof {
        assert(0 <= (t as i128) * (ONE as i128) <= 0x400000000000 && 0 <= ((t as i128) * (
        ONE as i128)) * (ONE as i128) <= 0x100000000000000000000) by (nonlinear_arith)
            requires
                0 <= (t as int) && (t as int) <= 67108864,
                ONE == 1048576,
        ;
    }
    let pos: i128 = ((t as i128) * (ONE as i128) * (ONE as i128)) / (scale as i128);
    proof {
        assert(pos as int == src_pos_spec(t as int, scale as int));
        assert(0 <= pos <= 0x100000000000000000000);
    }
    let i_128: i128 = (pos + (HALF as i128)) / (ONE as i128);
    let ic: usize = if i_128 < (frames as i128) - 1 {
        i_128 as usize
    } else {
        frames - 1
    };
    proof {
        assert(ic as int == near_index(frames as int, scale as int, t as int));
    }
    let r = copy_row(&rows[ic]);
    proof {
        assert(rows_i64(rows@)[ic as int] == rows@[ic as int]@);
    }
    r
}

fn fold_row(
    prev: &Vec<i64>,
    sd: &Vec<i64>,
    m0: &Vec<i64>,
    m1: &Vec<i64>,
    up: &Vec<i64>,
    cutoff: i64,
) -> (r: Vec<i64>)
    requires
        prev@.len() == sd@.len(),
        prev@.len() == m0@.len(),
        prev@.len() == m1@.len(),
        prev@.len() == up@.len(),
        forall|b: int| 0 <= b < prev@.len() ==> 0 <= #[trigger] prev@[b] < TAU_Q,
        forall|b: int| 0 <= b < sd@.len() ==> 0 <= #[trigger] sd@[b] < TAU_Q,
        forall|b: int| 0 <= b < up@.len() ==> 0 <= #[trigger] up@[b] < TAU_Q,
        forall|b: int| 0 <= b < m0@.len() ==> 0 <= #[trigger] m0@[b] <= SPECTRUM_CAP,
        forall|b: int| 0 <= b < m1@.len() ==> 0 <= #[trigger] m1@[b] <= SPECTRUM_CAP,
        -SPECTRUM_CAP <= cutoff <= SPECTRUM_CAP,
    ensures
        r@.len() == prev@.len(),
        forall|b: int|
            0 <= b < r@.len() ==> #[trigger] (r@[b] as int) == wrap_spec(
                if transient_spec(m0@[b] as int, m1@[b] as int, cutoff as int) {
                    up@[b] as int
                } else {
                    prev@[b] + sd@[b]
                },
            ),
        forall|b: int| 0 <= b < r@.len() ==> 0 <= #[trigger] r@[b] < TAU_Q,
{
    let n = prev.len();
    let mut out: Vec<i64> = Vec::new();
    let mut b: usize = 0;
    while b < n
        invariant
            b <= n,
            n == prev@.len(),
            prev@.len() == sd@.len(),
            prev@.len() == m0@.len(),
            prev@.len() == m1@.len(),
            prev@.len() == up@.len(),
            forall|x: int| 0 <= x < prev@.len() ==> 0 <= #[trigger] prev@[x] < TAU_Q,
            forall|x: int| 0 <= x < sd@.len() ==> 0 <= #[trigger] sd@[x] < TAU_Q,
            forall|x: int| 0 <= x < up@.len() ==> 0 <= #[trigger] up@[x] < TAU_Q,
            forall|x: int| 0 <= x < m0@.len() ==> 0 <= #[trigger] m0@[x] <= SPECTRUM_CAP,
            forall|x: int| 0 <= x < m1@.len() ==> 0 <= #[trigger] m1@[x] <= SPECTRUM_CAP,
            -SPECTRUM_CAP <= cutoff <= SPECTRUM_CAP,
            out@.len() == b,
            forall|x: int|
                0 <= x < b ==> #[trigger] (out@[x] as int) == wrap_spec(
                    if transient_spec(m0@[x] as int, m1@[x] as int, cutoff as int) {
                        up@[x] as int
                    } else {
                        prev@[x] + sd@[x]
                    },
                ),
            forall|x: int| 0 <= x < b ==> 0 <= #[trigger] out@[x] < TAU_Q,
        decreases n - b,
    {
        let ma: i64 = m0[b];
        let mb: i64 = m1[b];
        let is_transient: bool = if ma + mb > 0 {
            proof {
                assert(-0x400000000000000000 <= ((ma as i128) - (mb as i128)) * (ONE as i128)
                    <= 0x400000000000000000 && -0x8000000000000000000000000 <= (cutoff as i128) * ((
                ma as i128) + (mb as i128)) <= 0x8000000000000000000000000) by (nonlinear_arith)
                    requires
                        0 <= ma <= SPECTRUM_CAP,
                        0 <= mb <= SPECTRUM_CAP,
                        -SPECTRUM_CAP <= cutoff <= SPECTRUM_CAP,
                        SPECTRUM_CAP == 35184372088832,
                        ONE == 1048576,
                ;
            }
            ((ma as i128) - (mb as i128)) * (ONE as i128) >= (cutoff as i128) * ((ma as i128) + (
            mb as i128))
        } else {
            false
        };
        proof {
            assert(is_transient == transient_spec(ma as int, mb as int, cutoff as int));
        }
        let p: i64 = if is_transient {
            up[b]
        } else {
            prev[b] + sd[b]
        };
        let v = wrap_phase(p);
        out.push(v);
        b += 1;
    }
    out
}

fn recombine_row(m: &Vec<i64>, p: &Vec<i64>) -> (r: Vec<Complex>)
    requires
        m@.len() == p@.len(),
        forall|b: int| 0 <= b < m@.len() ==> 0 <= #[trigger] m@[b] <= SPECTRUM_CAP,
        forall|b: int| 0 <= b < p@.len() ==> 0 <= #[trigger] p@[b] < TAU_Q,
    ensures
        r@.len() == m@.len(),
        forall|b: int|
            0 <= b < r@.len() ==> #[trigger] r@[b] == (Complex {
                re: div_fp(m@[b] * cos_spec(p@[b] as int), ONE as int) as i64,
                im: div_fp(m@[b] * sin_spec(p@[b] as int), ONE as int) as i64,
            }),
        forall|b: int|
            0 <= b < r@.len() ==> -SPECTRUM_CAP <= #[trigger] r@[b].re <= SPECTRUM_CAP
                && -SPECTRUM_CAP <= r@[b].im <= SPECTRUM_CAP,
{
    let n = m.len();
    let mut out: Vec<Complex> = Vec::new();
    let mut b: usize = 0;
    while b < n
        invariant
            b <= n,
            n == m@.len(),
            m@.len() == p@.len(),
            forall|x: int| 0 <= x < m@.len() ==> 0 <= #[trigger] m@[x] <= SPECTRUM_CAP,
            forall|x: int| 0 <= x < p@.len() ==> 0 <= #[trigger] p@[x] < TAU_Q,
            out@.len() == b,
            forall|x: int|
                0 <= x < b ==> #[trigger] out@[x] == (Complex {
                    re: div_fp(m@[x] * cos_spec(p@[x] as int), ONE as int) as i64,
                    im: div_fp(m@[x] * sin_spec(p@[x] as int), ONE as int) as i64,
                }),
            forall|x: int|
                0 <= x < b ==> -SPECTRUM_CAP <= #[trigger] out@[x].re <= SPECTRUM_CAP
                    && -SPECTRUM_CAP <= out@[x].im <= SPECTRUM_CAP,
        decreases n - b,
    {
        let mv: i64 = m[b];
        let c: i64 = cos_q(p[b]);
        let sn: i64 = sin_q(p[b]);
        proof {
            assert((-mv as int) * ONE <= mv * c <= (mv as int) * ONE && (-mv as int) * ONE <= mv
                * sn <= (mv as int) * ONE && -0x400000000000000000 <= (mv as i128) * (c as i128)
                <= 0x400000000000000000 && -0x400000000000000000 <= (mv as i128) * (sn as i128)
                <= 0x400000000000000000) by (nonlinear_arith)
                requires
                    0 <= mv <= SPECTRUM_CAP,
                    -ONE <= c <= ONE,
                    -ONE <= sn <= ONE,
                    SPECTRUM_CAP == 35184372088832,
                    ONE == 1048576,
            ;
            lemma_div_fp_bounded(mv * c, ONE as int, mv as int);
            lemma_div_fp_bounded(mv * sn, ONE as int, mv as int);
            assert(-mv <= div_fp(mv * c, ONE as int) <= mv);
            assert(-mv <= div_fp(mv * sn, ONE as int) <= mv);
        }
        let re: i64 = ((mv as i128) * (c as i128) / (ONE as i128)) as i64;
        let im: i64 = ((mv as i128) * (sn as i128) / (ONE as i128)) as i64;
        proof {
            assert(-SPECTRUM_CAP <= re <= SPECTRUM_CAP);
            assert(-SPECTRUM_CAP <= im <= SPECTRUM_CAP);
        }
        out.push(Complex { re, im });
        b += 1;
    }
    out
}

fn stage_mags(m: &Vec<Vec<Complex>>, ws: usize) -> (r: Vec<Vec<i64>>)
    requires
        forall|t: int| 0 <= t < m@.len() ==> #[trigger] m@[t]@.len() == ws,
        forall|t: int, b: int|
            0 <= t < m@.len() && 0 <= b < ws ==> -SPECTRUM_CAP <= #[trigger] m@[t]@[b].re
                <= SPECTRUM_CAP && -SPECTRUM_CAP <= m@[t]@[b].im <= SPECTRUM_CAP,
    ensures
        r@.len() == m@.len(),
        forall|t: int| 0 <= t < m@.len() ==> #[trigger] r@[t]@ == mags_row_spec(m@[t]@),
        forall|t: int| 0 <= t < m@.len() ==> #[trigger] r@[t]@.len() == ws,
        forall|t: int, b: int|
            0 <= t < m@.len() && 0 <= b < ws ==> 0 <= #[trigger] (r@[t]@[b] as int)
                <= SPECTRUM_CAP,
{
    let n = m.len();
    let mut out: Vec<Vec<i64>> = Vec::new();
    let mut t: usize = 0;
    while t < n
        invariant
            t <= n,
            n == m@.len(),
            forall|q: int| 0 <= q < m@.len() ==> #[trigger] m@[q]@.len() == ws,
            forall|q: int, b: int|
                0 <= q < m@.len() && 0 <= b < ws ==> -SPECTRUM_CAP <= #[trigger] m@[q]@[b].re
                    <= SPECTRUM_CAP && -SPECTRUM_CAP <= m@[q]@[b].im <= SPECTRUM_CAP,
            out@.len() == t,
            forall|q: int| 0 <= q < t ==> #[trigger] out@[q]@ == mags_row_spec(m@[q]@),
            forall|q: int| 0 <= q < t ==> #[trigger] out@[q]@.len() == ws,
            forall|q: int, b: int|
                0 <= q < t && 0 <= b < ws ==> 0 <= #[trigger] (out@[q]@[b] as int) <= SPECTRUM_CAP,
        decreases n - t,
    {
        let row = mags_row(&m[t]);
        out.push(row);
        t += 1;
    }
    out
}

fn stage_phases(m: &Vec<Vec<Complex>>, ws: usize) -> (r: Vec<Vec<i64>>)
    requires
        forall|t: int| 0 <= t < m@.len() ==> #[trigger] m@[t]@.len() == ws,
        forall|t: int, b: int|
            0 <= t < m@.len() && 0 <= b < ws ==> -SPECTRUM_CAP <= #[trigger] m@[t]@[b].re
                <= SPECTRUM_CAP && -SPECTRUM_CAP <= m@[t]@[b].im <= SPECTRUM_CAP,
    ensures
        r@.len() == m@.len(),
        forall|t: int| 0 <= t < m@.len() ==> #[trigger] r@[t]@ == phases_row_spec(m@[t]@),
        forall|t: int| 0 <= t < m@.len() ==> #[trigger] r@[t]@.len() == ws,
        forall|t: int, b: int|
            0 <= t < m@.len() && 0 <= b < ws ==> 0 <= #[trigger] (r@[t]@[b] as int) < TAU_Q,
{
    let n = m.len();
    let mut out: Vec<Vec<i64>> = Vec::new();
    let mut t: usize = 0;
    while t < n
        invariant
            t <= n,
            n == m@.len(),
            forall|q: int| 0 <= q < m@.len() ==> #[trigger] m@[q]@.len() == ws,
            forall|q: int, b: int|
                0 <= q < m@.len() && 0 <= b < ws ==> -SPECTRUM_CAP <= #[trigger] m@[q]@[b].re
                    <= SPECTRUM_CAP && -SPECTRUM_CAP <= m@[q]@[b].im <= SPECTRUM_CAP,
            out@.len() == t,
            forall|q: int| 0 <= q < t ==> #[trigger] out@[q]@ == phases_row_spec(m@[q]@),
            forall|q: int| 0 <= q < t ==> #[trigger] out@[q]@.len() == ws,
            forall|q: int, b: int|
                0 <= q < t && 0 <= b < ws ==> 0 <= #[trigger] (out@[q]@[b] as int) < TAU_Q,
        decreases n - t,
    {
        let row = phases_row(&m[t]);
        out.push(row);
        t += 1;
    }
    out
}

fn stage_diffs(phases: &Vec<Vec<i64>>, ws: usize) -> (r: Vec<Vec<i64>>)
    requires
        phases@.len() >= 1,
        forall|t: int| 0 <= t < phases@.len() ==> #[trigger] phases@[t]@.len() == ws,
        forall|t: int, b: int|
            0 <= t < phases@.len() && 0 <= b < ws ==> 0 <= #[trigger] (phases@[t]@[b] as int)
                < TAU_Q,
    ensures
        r@.len() == phases@.len(),
        r@[0]@ == phases@[0]@,
        forall|t: int|
            1 <= t < phases@.len() ==> #[trigger] r@[t]@ == diff_row_spec(
                phases@[t]@,
                phases@[t - 1]@,
            ),
        forall|t: int| 0 <= t < phases@.len() ==> #[trigger] r@[t]@.len() == ws,
        forall|t: int, b: int|
            0 <= t < phases@.len() && 0 <= b < ws ==> 0 <= #[trigger] (r@[t]@[b] as int) < TAU_Q,
{
    let n = phases.len();
    let mut out: Vec<Vec<i64>> = Vec::new();
    let first = copy_row(&phases[0]);
    out.push(first);
    let mut t: usize = 1;
    while t < n
        invariant
            1 <= t <= n,
            n == phases@.len(),
            forall|q: int| 0 <= q < phases@.len() ==> #[trigger] phases@[q]@.len() == ws,
            forall|q: int, b: int|
                0 <= q < phases@.len() && 0 <= b < ws ==> 0 <= #[trigger] (phases@[q]@[b] as int)
                    < TAU_Q,
            out@.len() == t,
            out@[0]@ == phases@[0]@,
            forall|q: int|
                1 <= q < t ==> #[trigger] out@[q]@ == diff_row_spec(phases@[q]@, phases@[q - 1]@),
            forall|q: int| 0 <= q < t ==> #[trigger] out@[q]@.len() == ws,
            forall|q: int, b: int|
                0 <= q < t && 0 <= b < ws ==> 0 <= #[trigger] (out@[q]@[b] as int) < TAU_Q,
        decreases n - t,
    {
        let row = diff_row(&phases[t], &phases[t - 1]);
        out.push(row);
        t += 1;
    }
    out
}

fn interpolate_time_linear(
    rows: &Vec<Vec<i64>>,
    frames: usize,
    scale: i64,
    sf: usize,
    ws: usize,
    bound: Ghost<int>,
) -> (r: Vec<Vec<i64>>)
    requires
        rows@.len() == frames,
        1 <= frames <= MAX_LEN,
        forall|q: int| 0 <= q < frames ==> #[trigger] rows@[q]@.len() == ws,
        0 <= bound@ <= SPECTRUM_CAP,
        forall|q: int, b: int|
            0 <= q < frames && 0 <= b < ws ==> 0 <= #[trigger] (rows@[q]@[b] as int) <= bound@,
        1 <= scale <= MAX_SCALE,
        sf <= MAX_LEN,
    ensures
        r@.len() == sf,
        forall|t: int| 0 <= t < sf ==> #[trigger] r@[t]@.len() == ws,
        forall|t: int, b: int|
            0 <= t < sf && 0 <= b < ws ==> #[trigger] (r@[t]@[b] as int) == interp_lin_at(
                rows_i64(rows@),
                frames as int,
                scale as int,
                t,
                b,
            ),
        forall|t: int, b: int|
            0 <= t < sf && 0 <= b < ws ==> 0 <= #[trigger] (r@[t]@[b] as int) <= bound@,
{
    let mut out: Vec<Vec<i64>> = Vec::new();
    let mut t: usize = 0;
    while t < sf
        invariant
            t <= sf,
            sf <= MAX_LEN,
            rows@.len() == frames,
            1 <= frames <= MAX_LEN,
            forall|q: int| 0 <= q < frames ==> #[trigger] rows@[q]@.len() == ws,
            0 <= bound@ <= SPECTRUM_CAP,
            forall|q: int, b: int|
                0 <= q < frames && 0 <= b < ws ==> 0 <= #[trigger] (rows@[q]@[b] as int) <= bound@,
            1 <= scale <= MAX_SCALE,
            out@.len() == t,
            forall|q: int| 0 <= q < t ==> #[trigger] out@[q]@.len() == ws,
            forall|q: int, b: int|
                0 <= q < t && 0 <= b < ws ==> #[trigger] (out@[q]@[b] as int) == interp_lin_at(
                    rows_i64(rows@),
                    frames as int,
                    scale as int,
                    q,
                    b,
                ),
            forall|q: int, b: int|
                0 <= q < t && 0 <= b < ws ==> 0 <= #[trigger] (out@[q]@[b] as int) <= bound@,
        decreases sf - t,
    {
        let row = interp_lin_row(rows, frames, scale, t, ws, bound);
        out.push(row);
        t += 1;
    }
    out
}

fn interpolate_time_nearest(rows: &Vec<Vec<i64>>, frames: usize, scale: i64, sf: usize, ws: usize) -> (r:
    Vec<Vec<i64>>)
    requires
        rows@.len() == frames,
        1 <= frames <= MAX_LEN,
        forall|q: int| 0 <= q < frames ==> #[trigger] rows@[q]@.len() == ws,
        forall|q: int, b: int|
            0 <= q < frames && 0 <= b < ws ==> 0 <= #[trigger] (rows@[q]@[b] as int) < TAU_Q,
        1 <= scale <= MAX_SCALE,
        sf <= MAX_LEN,
    ensures
        r@.len() == sf,
        forall|t: int| 0 <= t < sf ==> #[trigger] r@[t]@.len() == ws,
        forall|t: int|
            0 <= t < sf ==> #[trigger] r@[t]@ == rows_i64(rows@)[near_index(
                frames as int,
                scale as int,
                t,
            )],
        forall|t: int, b: int|
            0 <= t < sf && 0 <= b < ws ==> 0 <= #[trigger] (r@[t]@[b] as int) < TAU_Q,
{
    let mut out: Vec<Vec<i64>> = Vec::new();
    let mut t: usize = 0;
    while t < sf
        invariant
            t <= sf,
            sf <= MAX_LEN,
            rows@.len() == frames,
            1 <= frames <= MAX_LEN,
            forall|q: int| 0 <= q < frames ==> #[trigger] rows@[q]@.len() == ws,
            forall|q: int, b: int|
                0 <= q < frames && 0 <= b < ws ==> 0 <= #[trigger] (rows@[q]@[b] as int) < TAU_Q,
            1 <= scale <= MAX_SCALE,
            out@.len() == t,
            forall|q: int| 0 <= q < t ==> #[trigger] out@[q]@.len() == ws,
            forall|q: int|
                0 <= q < t ==> #[trigger] out@[q]@ == rows_i64(rows@)[near_index(
                    frames as int,
                    scale as int,
                    q,
                )],
            forall|q: int, b: int|
                0 <= q < t && 0 <= b < ws ==> 0 <= #[trigger] (out@[q]@[b] as int) < TAU_Q,
        decreases sf - t,
    {
        let row = interp_near_row(rows, frames, scale, t, ws);
        proof {
            let ni = near_index(frames as int, scale as int, t as int);
            assert(0 <= ni < frames);
            assert(row@.len() == ws);
        }
        out.push(row);
        t += 1;
    }
    out
}

fn stage_fold(
    smags: &Vec<Vec<i64>>,
    sdiffs: &Vec<Vec<i64>>,
    uphases: &Vec<Vec<i64>>,
    cutoff: i64,
    sf: usize,
    ws: usize,
) -> (r: Vec<Vec<i64>>)
    requires
        1 <= sf,
        smags@.len() == sf,
        sdiffs@.len() == sf,
        uphases@.len() == sf,
        forall|t: int| 0 <= t < sf ==> #[trigger] smags@[t]@.len() == ws,
        forall|t: int| 0 <= t < sf ==> #[trigger] sdiffs@[t]@.len() == ws,
        forall|t: int| 0 <= t < sf ==> #[trigger] uphases@[t]@.len() == ws,
        forall|t: int, b: int|
            0 <= t < sf && 0 <= b < ws ==> 0 <= #[trigger] (smags@[t]@[b] as int) <= SPECTRUM_CAP,
        forall|t: int, b: int|
            0 <= t < sf && 0 <= b < ws ==> 0 <= #[trigger] (sdiffs@[t]@[b] as int) < TAU_Q,
        forall|t: int, b: int|
            0 <= t < sf && 0 <= b < ws ==> 0 <= #[trigger] (uphases@[t]@[b] as int) < TAU_Q,
        -SPECTRUM_CAP <= cutoff <= SPECTRUM_CAP,
    ensures
        r@.len() == sf,
        forall|t: int| 0 <= t < sf ==> #[trigger] r@[t]@.len() == ws,
        forall|t: int, b: int|
            0 <= t < sf && 0 <= b < ws ==> #[trigger] (r@[t]@[b] as int) == synth_phase_at(
                rows_i64(smags@),
                rows_i64(sdiffs@),
                rows_i64(uphases@),
                cutoff as int,
                t,
                b,
            ),
        forall|t: int, b: int|
            0 <= t < sf && 0 <= b < ws ==> 0 <= #[trigger] (r@[t]@[b] as int) < TAU_Q,
{
    let mut out: Vec<Vec<i64>> = Vec::new();
    let first = copy_row(&sdiffs[0]);
    proof {
        assert forall|b: int| 0 <= b < ws implies #[trigger] (first@[b] as int) == synth_phase_at(
            rows_i64(smags@),
            rows_i64(sdiffs@),
            rows_i64(uphases@),
            cutoff as int,
            0,
            b,
        ) by {
            assert(rows_i64(sdiffs@)[0] == sdiffs@[0]@);
        }
    }
    out.push(first);
    let mut t: usize = 1;
    while t < sf
        invariant
            1 <= t <= sf,
            smags@.len() == sf,
            sdiffs@.len() == sf,
            uphases@.len() == sf,
            forall|q: int| 0 <= q < sf ==> #[trigger] smags@[q]@.len() == ws,
            forall|q: int| 0 <= q < sf ==> #[trigger] sdiffs@[q]@.len() == ws,
            forall|q: int| 0 <= q < sf ==> #[trigger] uphases@[q]@.len() == ws,
            forall|q: int, b: int|
                0 <= q < sf && 0 <= b < ws ==> 0 <= #[trigger] (smags@[q]@[b] as int)
                    <= SPECTRUM_CAP,
            forall|q: int, b: int|
                0 <= q < sf && 0 <= b < ws ==> 0 <= #[trigger] (sdiffs@[q]@[b] as int) < TAU_Q,
            forall|q: int, b: int|
                0 <= q < sf && 0 <= b < ws ==> 0 <= #[trigger] (uphases@[q]@[b] as int) < TAU_Q,
            -SPECTRUM_CAP <= cutoff <= SPECTRUM_CAP,
            out@.len() == t,
            forall|q: int| 0 <= q < t ==> #[trigger] out@[q]@.len() == ws,
            forall|q: int, b: int|
                0 <= q < t && 0 <= b < ws ==> #[trigger] (out@[q]@[b] as int) == synth_phase_at(
                    rows_i64(smags@),
                    rows_i64(sdiffs@),
                    rows_i64(uphases@),
                    cutoff as int,
                    q,
                    b,
                ),
            forall|q: int, b: int|
                0 <= q < t && 0 <= b < ws ==> 0 <= #[trigger] (out@[q]@[b] as int) < TAU_Q,
        decreases sf - t,
    {
        let prev: &Vec<i64> = &out[t - 1];
        let row = fold_row(prev, &sdiffs[t], &smags[t], &smags[t - 1], &uphases[t], cutoff);
        proof {
            assert forall|b: int| 0 <= b < ws implies #[trigger] (row@[b] as int)
                == synth_phase_at(
                rows_i64(smags@),
                rows_i64(sdiffs@),
                rows_i64(uphases@),
                cutoff as int,
                t as int,
                b,
            ) by {
                assert(rows_i64(smags@)[t as int] == smags@[t as int]@);
                assert(rows_i64(smags@)[t as int - 1] == smags@[t as int - 1]@);
                assert(rows_i64(sdiffs@)[t as int] == sdiffs@[t as int]@);
                assert(rows_i64(uphases@)[t as int] == uphases@[t as int]@);
                assert((prev@[b] as int) == synth_phase_at(
                    rows_i64(smags@),
                    rows_i64(sdiffs@),
                    rows_i64(uphases@),
                    cutoff as int,
                    t as int - 1,
                    b,
                ));
            }
        }
        out.push(row);
        t += 1;
    }
    out
}

fn stage_recombine(smags: &Vec<Vec<i64>>, sphases: &Vec<Vec<i64>>, sf: usize, ws: usize) -> (r:
    Vec<Vec<Complex>>)
    requires
        smags@.len() == sf,
        sphases@.len() == sf,
        forall|t: int| 0 <= t < sf ==> #[trigger] smags@[t]@.len() == ws,
        forall|t: int| 0 <= t < sf ==> #[trigger] sphases@[t]@.len() == ws,
        forall|t: int, b: int|
            0 <= t < sf && 0 <= b < ws ==> 0 <= #[trigger] (smags@[t]@[b] as int) <= SPECTRUM_CAP,
        forall|t: int, b: int|
            0 <= t < sf && 0 <= b < ws ==> 0 <= #[trigger] (sphases@[t]@[b] as int) < TAU_Q,
    ensures
        r@.len() == sf,
        forall|t: int| 0 <= t < sf ==> #[trigger] r@[t]@.len() == ws,
        forall|t: int, b: int|
            0 <= t < sf && 0 <= b < ws ==> #[trigger] r@[t]@[b] == (Complex {
                re: div_fp(smags@[t]@[b] * cos_spec(sphases@[t]@[b] as int), ONE as int) as i64,
                im: div_fp(smags@[t]@[b] * sin_spec(sphases@[t]@[b] as int), ONE as int) as i64,
            }),
{
    let mut out: Vec<Vec<Complex>> = Vec::new();
    let mut t: usize = 0;
    while t < sf
        invariant
            t <= sf,
            smags@.len() == sf,
            sphases@.len() == sf,
            forall|q: int| 0 <= q < sf ==> #[trigger] smags@[q]@.len() == ws,
            forall|q: int| 0 <= q < sf ==> #[trigger] sphases@[q]@.len() == ws,
            forall|q: int, b: int|
                0 <= q < sf && 0 <= b < ws ==> 0 <= #[trigger] (smags@[q]@[b] as int)
                    <= SPECTRUM_CAP,
            forall|q: int, b: int|
                0 <= q < sf && 0 <= b < ws ==> 0 <= #[trigger] (sphases@[q]@[b] as int) < TAU_Q,
            out@.len() == t,
            forall|q: int| 0 <= q < t ==> #[trigger] out@[q]@.len() == ws,
            forall|q: int, b: int|
                0 <= q < t && 0 <= b < ws ==> #[trigger] out@[q]@[b] == (Complex {
                    re: div_fp(smags@[q]@[b] * cos_spec(sphases@[q]@[b] as int), ONE as int) as i64,
                    im: div_fp(smags@[q]@[b] * sin_spec(sphases@[q]@[b] as int), ONE as int) as i64,
                }),
        decreases sf - t,
    {
        let row = recombine_row(&smags[t], &sphases[t]);
        out.push(row);
        t += 1;
    }
    out
}

/// The analysis magnitude matrix of a signal.
pub open spec fn pv_mags(sig: Seq<i64>, win: Seq<i64>, ws: int, hop: int) -> Seq<Seq<i64>> {
    Seq::new(
        stft_frames(sig.len() as int, hop) as nat,
        |t: int| mags_row_spec(stft_frame_spec(sig, win, ws, hop, t)),
    )
}

/// The analysis phase matrix of a signal.
pub open spec fn pv_phases(sig: Seq<i64>, win: Seq<i64>, ws: int, hop: int) -> Seq<Seq<i64>> {
    Seq::new(
        stft_frames(sig.len() as int, hop) as nat,
        |t: int| phases_row_spec(stft_frame_spec(sig, win, ws, hop, t)),
    )
}

/// The per-frame phase differences, wrapped: the first frame differs against
/// an implicit all-zero frame, so it is its own difference.
pub open spec fn pv_diffs(sig: Seq<i64>, win: Seq<i64>, ws: int, hop: int) -> Seq<Seq<i64>> {
    let ph = pv_phases(sig, win, ws, hop);
    Seq::new(
        ph.len(),
        |t: int|
            if t == 0 {
                ph[0]
            } else {
                diff_row_spec(ph[t], ph[t - 1])
            },
    )
}

/// The number of synthesis frames: the analysis frame count scaled, rounded up.
pub open spec fn pv_synth_frames(len: int, scale: int, hop: int) -> int {
    (stft_frames(len, hop) * scale + ONE - 1) / (ONE as int)
}

/// The output length of the vocoder: one hop per synthesis frame plus one
/// window.
pub open spec fn pv_out_len(len: int, scale: int, ws: int, hop: int) -> int {
    pv_synth_frames(len, scale, hop) * hop + ws
}

/// The magnitudes resampled onto the synthesis grid.
pub open spec fn pv_smags(sig: Seq<i64>, win: Seq<i64>, scale: int, ws: int, hop: int) -> Seq<
    Seq<i64>,
> {
    let frames = stft_frames(sig.len() as int, hop);
    Seq::new(
        pv_synth_frames(sig.len() as int, scale, hop) as nat,
        |t: int|
            Seq::new(
                ws as nat,
                |b: int| interp_lin_at(pv_mags(sig, win, ws, hop), frames, scale, t, b) as i64,
            ),
    )
}

/// The phase differences resampled onto the synthesis grid.
pub open spec fn pv_sdiffs(sig: Seq<i64>, win: Seq<i64>, scale: int, ws: int, hop: int) -> Seq<
    Seq<i64>,
> {
    let frames = stft_frames(sig.len() as int, hop);
    Seq::new(
        pv_synth_frames(sig.len() as int, scale, hop) as nat,
        |t: int|
            Seq::new(
                ws as nat,
                |b: int| interp_lin_at(pv_diffs(sig, win, ws, hop), frames, scale, t, b) as i64,
            ),
    )
}

/// The frequency-locked phase estimate: the nearest analysis phase row for
/// each synthesis frame.
pub open spec fn pv_uphases(sig: Seq<i64>, win: Seq<i64>, scale: int, ws: int, hop: int) -> Seq<
    Seq<i64>,
> {
    let frames = stft_frames(sig.len() as int, hop);
    Seq::new(
        pv_synth_frames(sig.len() as int, scale, hop) as nat,
        |t: int| pv_phases(sig, win, ws, hop)[near_index(frames, scale, t)],
    )
}

/// The phase used to resynthesize synthesis frame `t` at bin `b`.
pub open spec fn pv_sphase_at(
    sig: Seq<i64>,
    win: Seq<i64>,
    scale: int,
    ws: int,
    hop: int,
    cutoff: int,
    t: int,
    b: int,
) -> int {
    synth_phase_at(
        pv_smags(sig, win, scale, ws, hop),
        pv_sdiffs(sig, win, scale, ws, hop),
        pv_uphases(sig, win, scale, ws, hop),
        cutoff,
        t,
        b,
    )
}

/// The synthesis spectrum matrix: resampled magnitude and synthesis phase
/// recombined into complex bins.
pub open spec fn pv_synth_rows(
    sig: Seq<i64>,
    win: Seq<i64>,
    scale: int,
    ws: int,
    hop: int,
    cutoff: int,
) -> Seq<Seq<Complex>> {
    Seq::new(
        pv_synth_frames(sig.len() as int, scale, hop) as nat,
        |t: int|
            Seq::new(
                ws as nat,
                |b: int|
                    Complex {
                        re: div_fp(
                            pv_smags(sig, win, scale, ws, hop)[t][b] * cos_spec(
                                pv_sphase_at(sig, win, scale, ws, hop, cutoff, t, b),
                            ),
                            ONE as int,
                        ) as i64,
                        im: div_fp(
                            pv_smags(sig, win, scale, ws, hop)[t][b] * sin_spec(
                                pv_sphase_at(sig, win, scale, ws, hop, cutoff, t, b),
                            ),
                            ONE as int,
                        ) as i64,
                    },
            ),
    )
}

/// The whole phase-vocoder output: the synthesis spectra sent through the
/// inverse short-time transform, weight-normalized.
pub open spec fn pv_spec(
    sig: Seq<i64>,
    win: Seq<i64>,
    scale: int,
    ws: int,
    hop: int,
    cutoff: int,
) -> Seq<i64> {
    let sf = pv_synth_frames(sig.len() as int, scale, hop);
    let out_len = pv_out_len(sig.len() as int, scale, ws, hop);
    Seq::new(
        out_len as nat,
        |k: int|
            norm_div(
                istft_sum_at(
                    pv_synth_rows(sig, win, scale, ws, hop, cutoff),
                    win,
                    ws,
                    hop,
                    out_len,
                    sf,
                    k,
                ),
                istft_wsum_at(win, ws, hop, out_len, sf, k),
            ) as i64,
    )
}

/// The four-quadrant arctangent always lands in `[0, TAU_Q)`.
pub proof fn lemma_atan2_spec_range(y: int, x: int)
    ensures
        0 <= atan2_spec(y, x) < TAU_Q,
{
}

/// Linear resampling keeps values within the bound of the rows it reads.
pub proof fn lemma_interp_lin_range(
    rows: Seq<Seq<i64>>,
    frames: int,
    scale: int,
    t: int,
    b: int,
    bound: int,
)
    requires
        frames >= 1,
        scale >= 1,
        t >= 0,
        bound >= 0,
        forall|q: int| 0 <= q < frames ==> 0 <= #[trigger] (rows[q][b] as int) <= bound,
    ensures
        0 <= interp_lin_at(rows, frames, scale, t, b) <= bound,
{
    let pos = src_pos_spec(t, scale);
    assert(t * ONE * ONE >= 0) by (nonlinear_arith)
        requires
            t >= 0,
            ONE == 1048576,
    ;
    vstd::arithmetic::div_mod::lemma_div_pos_is_pos(t * ONE * ONE, scale);
    let i0 = pos / (ONE as int);
    let d0 = pos % (ONE as int);
    vstd::arithmetic::div_mod::lemma_div_pos_is_pos(pos, ONE as int);
    let i1 = if d0 == 0 {
        i0
    } else {
        i0 + 1
    };
    let w0 = ONE - d0;
    let w1 = d0;
    let i0c = if i0 < frames - 1 {
        i0
    } else {
        frames - 1
    };
    let i1c = if i1 < frames - 1 {
        i1
    } else {
        frames - 1
    };
    assert(0 <= i0c < frames && 0 <= i1c < frames);
    let v0 = rows[i0c][b] as int;
    let v1 = rows[i1c][b] as int;
    assert(0 <= v0 * w0 + v1 * w1 <= bound * ONE) by (nonlinear_arith)
        requires
            0 <= v0 <= bound,
            0 <= v1 <= bound,
            0 <= w0 <= ONE,
            0 <= w1 <= ONE,
            w0 + w1 == ONE,
    ;
    vstd::arithmetic::div_mod::lemma_div_is_ordered(v0 * w0 + v1 * w1, bound * ONE, ONE as int);
    vstd::arithmetic::div_mod::lemma_div_multiples_vanish(bound, ONE as int);
    vstd::arithmetic::div_mod::lemma_div_pos_is_pos(v0 * w0 + v1 * w1, ONE as int);
    assert((ONE as int) * bound == bound * ONE) by (nonlinear_arith);
}

/// Every analysis phase lies in `[0, TAU_Q)`, and phase rows are one window
/// wide.
pub proof fn lemma_pv_phases_range(sig: Seq<i64>, win: Seq<i64>, ws: int, hop: int, q: int, v: int)
    requires
        0 <= ws,
        0 <= q < stft_frames(sig.len() as int, hop),
    ensures
        pv_phases(sig, win, ws, hop)[q].len() == ws,
        0 <= v < ws ==> 0 <= #[trigger] (pv_phases(sig, win, ws, hop)[q][v] as int) < TAU_Q,
{
    lemma_fft_spec_bounds(to_complex_seq(windowed_frame_spec(sig, win, q * hop, ws)), false);
    assert(stft_frame_spec(sig, win, ws, hop, q).len() == ws);
    if 0 <= v < ws {
        lemma_atan2_spec_range(
            stft_frame_spec(sig, win, ws, hop, q)[v].im as int,
            stft_frame_spec(sig, win, ws, hop, q)[v].re as int,
        );
    }
}

/// Every wrapped phase difference lies in `[0, TAU_Q)`.
pub proof fn lemma_pv_diffs_range(sig: Seq<i64>, win: Seq<i64>, ws: int, hop: int, q: int, v: int)
    requires
        0 <= ws,
        0 <= q < stft_frames(sig.len() as int, hop),
        0 <= v < ws,
    ensures
        0 <= #[trigger] (pv_diffs(sig, win, ws, hop)[q][v] as int) < TAU_Q,
{
    lemma_pv_phases_range(sig, win, ws, hop, q, v);
    if q > 0 {
        lemma_pv_phases_range(sig, win, ws, hop, q - 1, v);
    }
}

/// Phase range safety for the vocoder: every phase the resynthesis uses lies
/// in `[0, TAU_Q)`, one full turn, never negative.
pub proof fn lemma_pv_phase_range(
    sig: Seq<i64>,
    win: Seq<i64>,
    scale: int,
    ws: int,
    hop: int,
    cutoff: int,
    t: int,
    b: int,
)
    requires
        1 <= scale,
        1 <= hop,
        1 <= ws,
        1 <= sig.len(),
        0 <= t < pv_synth_frames(sig.len() as int, scale, hop),
        0 <= b < ws,
    ensures
        0 <= pv_sphase_at(sig, win, scale, ws, hop, cutoff, t, b) < TAU_Q,
{
    let frames = stft_frames(sig.len() as int, hop);
    let sf = pv_synth_frames(sig.len() as int, scale, hop);
    assert(frames >= 1) by {
        vstd::arithmetic::div_mod::lemma_div_is_ordered(
            hop,
            sig.len() as int + hop - 1,
            hop,
        );
        vstd::arithmetic::div_mod::lemma_div_multiples_vanish(1, hop);
        assert(hop * 1 == hop) by (nonlinear_arith);
    }
    let sd = pv_sdiffs(sig, win, scale, ws, hop);
    let up = pv_uphases(sig, win, scale, ws, hop);
    assert forall|u: int| 0 <= u <= t implies 0 <= #[trigger] (sd[u][b] as int) < TAU_Q by {
        assert forall|q: int| 0 <= q < frames implies 0 <= #[trigger] (pv_diffs(
            sig,
            win,
            ws,
            hop,
        )[q][b] as int) <= TAU_Q - 1 by {
            lemma_pv_diffs_range(sig, win, ws, hop, q, b);
        }
        lemma_interp_lin_range(pv_diffs(sig, win, ws, hop), frames, scale, u, b, TAU_Q - 1);
        assert(sd[u] == Seq::new(
            ws as nat,
            |x: int| interp_lin_at(pv_diffs(sig, win, ws, hop), frames, scale, u, x) as i64,
        ));
    }
    assert forall|u: int| 0 <= u <= t implies 0 <= #[trigger] (up[u][b] as int) < TAU_Q by {
        let pos = src_pos_spec(u, scale);
        assert(u * ONE * ONE >= 0) by (nonlinear_arith)
            requires
                u >= 0,
                ONE == 1048576,
        ;
        vstd::arithmetic::div_mod::lemma_div_pos_is_pos(u * ONE * ONE, scale);
        vstd::arithmetic::div_mod::lemma_div_pos_is_pos(pos + HALF, ONE as int);
        let ni = near_index(frames, scale, u);
        assert(0 <= ni < frames);
        lemma_pv_phases_range(sig, win, ws, hop, ni, b);
        assert(up[u] == pv_phases(sig, win, ws, hop)[ni]);
    }
    lemma_synth_phase_range(pv_smags(sig, win, scale, ws, hop), sd, up, cutoff, t, b);
}

/// Phase-vocoder time stretching: analyze `signal` with the short-time
/// transform, resample magnitudes and phase differences onto the stretched
/// frame grid, integrate phase over time (snapping transient bins to the
/// nearest analysis phase), and resynthesize with the inverse transform.
#[verifier::rlimit(100)]
pub fn phase_vocoder<F: Fn(i64, usize) -> i64>(
    signal: TimeDomainSignal,
    scale_factor: i64,
    window_size: usize,
    hop_length: usize,
    transient_cutoff: i64,
    window_fn: F,
) -> (r: TimeDomainSignal)
    requires
        engine_args_ok(signal@, scale_factor as int, window_size as int, hop_length as int),
        signal@.len() >= 1,
        shape_fn_req(window_fn, window_size as int),
        shape_fn_bounded(window_fn),
        -SPECTRUM_CAP <= transient_cutoff <= SPECTRUM_CAP,
        pv_synth_frames(signal@.len() as int, scale_factor as int, hop_length as int) <= MAX_LEN,
        pv_out_len(
            signal@.len() as int,
            scale_factor as int,
            window_size as int,
            hop_length as int,
        ) <= usize::MAX,
    ensures
        r.sample_rate == signal.sample_rate,
        r@.len() == pv_out_len(
            signal@.len() as int,
            scale_factor as int,
            window_size as int,
            hop_length as int,
        ),
        exists|w: Seq<i64>|
            #[trigger] window_result(window_fn, window_size as int, w) && r@ == pv_spec(
                signal@,
                w,
                scale_factor as int,
                window_size as int,
                hop_length as int,
                transient_cutoff as int,
            ),
{
    let rate = signal.sample_rate();
    let len = signal.num_samples();
    let ws = window_size;
    let hop = hop_length;
    let ghost sg = signal@;
    let window = build_window(window_fn, ws);
    let ghost wseq = window@;
    proof {
        assert forall|i: int| 0 <= i < ws implies 0 <= #[trigger] wseq[i] <= ONE by {
            assert(call_ensures(
                window_fn,
                (crate::windows::win_coord(i, ws as int) as i64, ws),
                wseq[i],
            ));
        }
    }
    let m = stft(&signal, ws, hop, &window);
    let frames = m.len();
    proof {
        vstd::arithmetic::div_mod::lemma_div_is_ordered(hop as int, len as int + hop - 1, hop as int);
        vstd::arithmetic::div_mod::lemma_div_multiples_vanish(1, hop as int);
        assert((hop as int) * 1 == hop) by (nonlinear_arith);
        assert(frames >= 1);
        vstd::arithmetic::div_mod::lemma_fundamental_div_mod(len as int + hop - 1, hop as int);
        assert(frames as int <= len as int) by (nonlinear_arith)
            requires
                (len as int) + hop - 1 == (hop as int) * (frames as int) + (len as int + hop - 1) % (
                hop as int),
                0 <= (len as int + hop - 1) % (hop as int) < (hop as int),
                1 <= (hop as int),
                1 <= (len as int),
                0 <= (frames as int),
        ;
        assert forall|t: int, b: int| 0 <= t < frames && 0 <= b < ws implies -SPECTRUM_CAP
            <= #[trigger] m@[t]@[b].re <= SPECTRUM_CAP && -SPECTRUM_CAP <= m@[t]@[b].im
            <= SPECTRUM_CAP by {
            lemma_fft_spec_bounds(to_complex_seq(windowed_frame_spec(sg, wseq, t * hop, ws as int)), false);
            assert(m@[t]@ == stft_frame_spec(sg, wseq, ws as int, hop as int, t));
        }
    }
    let mags = stage_mags(&m, ws);
    let phases = stage_phases(&m, ws);
    let diffs = stage_diffs(&phases, ws);
    proof {
        assert forall|t: int| 0 <= t < frames implies #[trigger] rows_i64(mags@)[t] == pv_mags(
            sg,
            wseq,
            ws as int,
            hop as int,
        )[t] by {
            assert(mags@[t]@ == mags_row_spec(m@[t]@));
            assert(m@[t]@ == stft_frame_spec(sg, wseq, ws as int, hop as int, t));
        }
        assert(rows_i64(mags@) =~= pv_mags(sg, wseq, ws as int, hop as int));
        assert forall|t: int| 0 <= t < frames implies #[trigger] rows_i64(phases@)[t] == pv_phases(
            sg,
            wseq,
            ws as int,
            hop as int,
        )[t] by {
            assert(phases@[t]@ == phases_row_spec(m@[t]@));
            assert(m@[t]@ == stft_frame_spec(sg, wseq, ws as int, hop as int, t));
        }
        assert(rows_i64(phases@) =~= pv_phases(sg, wseq, ws as int, hop as int));
        assert forall|t: int| 0 <= t < frames implies #[trigger] rows_i64(diffs@)[t] == pv_diffs(
            sg,
            wseq,
            ws as int,
            hop as int,
        )[t] by {
            if t == 0 {
                assert(diffs@[0]@ == phases@[0]@);
            } else {
                assert(diffs@[t]@ == diff_row_spec(phases@[t]@, phases@[t - 1]@));
            }
        }
        assert(rows_i64(diffs@) =~= pv_diffs(sg, wseq, ws as int, hop as int));
        assert(0 <= (frames as i64) * scale_factor <= 0x400000000000000) by (nonlinear_arith)
            requires
                1 <= (frames as int) && (frames as int) <= 67108864,
                1 <= scale_factor <= 134217728,
        ;
    }
    let sf64: i64 = ((frames as i64) * scale_factor + ONE - 1) / ONE;
    proof {
        assert(sf64 as int == pv_synth_frames(len as int, scale_factor as int, hop as int));
        assert((frames as int) * scale_factor >= 1) by (nonlinear_arith)
            requires
                1 <= (frames as int),
                1 <= scale_factor,
        ;
        vstd::arithmetic::div_mod::lemma_div_is_ordered(
            ONE as int,
            (frames as int) * scale_factor + ONE - 1,
            ONE as int,
        );
        vstd::arithmetic::div_mod::lemma_div_multiples_vanish(1, ONE as int);
        assert((ONE as int) * 1 == ONE) by (nonlinear_arith);
        assert(sf64 >= 1);
    }
    let sf: usize = sf64 as usize;
    let smags = interpolate_time_linear(&mags, frames, scale_factor, sf, ws, Ghost(SPECTRUM_CAP as int));
    let sdiffs = interpolate_time_linear(&diffs, frames, scale_factor, sf, ws, Ghost(TAU_Q as int - 1));
    let uphases = interpolate_time_nearest(&phases, frames, scale_factor, sf, ws);
    proof {
        assert forall|t: int| 0 <= t < sf implies #[trigger] rows_i64(smags@)[t] == pv_smags(
            sg,
            wseq,
            scale_factor as int,
            ws as int,
            hop as int,
        )[t] by {
            assert forall|b: int| 0 <= b < ws implies smags@[t]@[b] == #[trigger] pv_smags(
                sg,
                wseq,
                scale_factor as int,
                ws as int,
                hop as int,
            )[t][b] by {
                assert((smags@[t]@[b] as int) == interp_lin_at(
                    rows_i64(mags@),
                    frames as int,
                    scale_factor as int,
                    t,
                    b,
                ));
            }
            assert(smags@[t]@ =~= pv_smags(sg, wseq, scale_factor as int, ws as int, hop as int)[t]);
        }
        assert(rows_i64(smags@) =~= pv_smags(sg, wseq, scale_factor as int, ws as int, hop as int));
        assert forall|t: int| 0 <= t < sf implies #[trigger] rows_i64(sdiffs@)[t] == pv_sdiffs(
            sg,
            wseq,
            scale_factor as int,
            ws as int,
            hop as int,
        )[t] by {
            assert forall|b: int| 0 <= b < ws implies sdiffs@[t]@[b] == #[trigger] pv_sdiffs(
                sg,
                wseq,
                scale_factor as int,
                ws as int,
                hop as int,
            )[t][b] by {
                assert((sdiffs@[t]@[b] as int) == interp_lin_at(
                    rows_i64(diffs@),
                    frames as int,
                    scale_factor as int,
                    t,
                    b,
                ));
            }
            assert(sdiffs@[t]@ =~= pv_sdiffs(sg, wseq, scale_factor as int, ws as int, hop as int)[t]);
        }
        assert(rows_i64(sdiffs@) =~= pv_sdiffs(sg, wseq, scale_factor as int, ws as int, hop as int));
        assert forall|t: int| 0 <= t < sf implies #[trigger] rows_i64(uphases@)[t] == pv_uphases(
            sg,
            wseq,
            scale_factor as int,
            ws as int,
            hop as int,
        )[t] by {
            assert(uphases@[t]@ == rows_i64(phases@)[near_index(
                frames as int,
                scale_factor as int,
                t,
            )]);
        }
        assert(rows_i64(uphases@) =~= pv_uphases(
            sg,
            wseq,
            scale_factor as int,
            ws as int,
            hop as int,
        ));
    }
    let sphases = stage_fold(&smags, &sdiffs, &uphases, transient_cutoff, sf, ws);
    let synth = stage_recombine(&smags, &sphases, sf, ws);
    proof {
        assert forall|t: int| 0 <= t < sf implies #[trigger] rows_view(synth@)[t] == pv_synth_rows(
            sg,
            wseq,
            scale_factor as int,
            ws as int,
            hop as int,
            transient_cutoff as int,
        )[t] by {
            assert forall|b: int| 0 <= b < ws implies synth@[t]@[b] == #[trigger] pv_synth_rows(
                sg,
                wseq,
                scale_factor as int,
                ws as int,
                hop as int,
                transient_cutoff as int,
            )[t][b] by {
                assert((sphases@[t]@[b] as int) == synth_phase_at(
                    rows_i64(smags@),
                    rows_i64(sdiffs@),
                    rows_i64(uphases@),
                    transient_cutoff as int,
                    t,
                    b,
                ));
                assert((sphases@[t]@[b] as int) == pv_sphase_at(
                    sg,
                    wseq,
                    scale_factor as int,
                    ws as int,
                    hop as int,
                    transient_cutoff as int,
                    t,
                    b,
                ));
                assert(smags@[t]@[b] == pv_smags(
                    sg,
                    wseq,
                    scale_factor as int,
                    ws as int,
                    hop as int,
                )[t][b]);
            }
            assert(synth@[t]@ =~= pv_synth_rows(
                sg,
                wseq,
                scale_factor as int,
                ws as int,
                hop as int,
                transient_cutoff as int,
            )[t]);
        }
        assert(rows_view(synth@) =~= pv_synth_rows(
            sg,
            wseq,
            scale_factor as int,
            ws as int,
            hop as int,
            transient_cutoff as int,
        ));
        assert(0 <= (sf as u64) * (hop as u64) <= 0x10000000000000) by (nonlinear_arith)
            requires
                0 <= (sf as int) && (sf as int) <= 67108864,
                1 <= (hop as int) && (hop as int) <= 67108864,
        ;
    }
    let out_len64: u64 = (sf as u64) * (hop as u64) + (ws as u64);
    let out_len: usize = out_len64 as usize;
    let out = istft(synth, ws, hop, out_len, &window);
    proof {
        assert(out@ =~= pv_spec(
            sg,
            wseq,
            scale_factor as int,
            ws as int,
            hop as int,
            transient_cutoff as int,
        ));
        assert(window_result(window_fn, ws as int, wseq) && out@ == pv_spec(
            sg,
            wseq,
            scale_factor as int,
            ws as int,
            hop as int,
            transient_cutoff as int,
        ));
    }
    TimeDomainSignal { samples: out, sample_rate: rate }
}

} // verus!
