//! The transform adapter: an unnormalized forward and inverse discrete
//! Fourier transform over fixed-point complex values.
//!
//! The transform is pinned down exactly by [`fft_spec`]: an even length splits
//! into half-length transforms recombined with twiddle factors, an odd length
//! is the direct sum.  Every component is saturated into
//! `[-SPECTRUM_CAP, SPECTRUM_CAP]`, which gives every caller an overflow-free
//! bound whatever the input.  Forward followed by inverse scales by the
//! length; callers must not assume unitary scaling.

use vstd::prelude::*;

use crate::accum::{AccBuf, contrib_at, wcontrib_at, norm_div};
use crate::complex::Complex;
use crate::fixed::{
    ONE, TAU_Q, SPECTRUM_CAP, AMP_LIMIT, MAX_LEN, MAX_WINDOW, cl, div_fp, cos_spec, sin_spec,
    cos_q, sin_q, clamp_spectrum,
};
use crate::signal::TimeDomainSignal;

verus! {

/// The phase of twiddle factor `k` of an `n`-point transform: `k/n` of a turn,
/// negated (mirrored) for the forward direction.
pub open spec fn twiddle_angle(k: int, n: int, inv: bool) -> int {
    let a = (k * TAU_Q) / n;
    if inv {
        a
    } else if a == 0 {
        0
    } else {
        TAU_Q - a
    }
}

/// Twiddle factor `k` of an `n`-point transform, as fixed-point cosine and sine.
pub open spec fn twiddle_spec(k: int, n: int, inv: bool) -> Complex {
    Complex {
        re: cos_spec(twiddle_angle(k, n, inv)) as i64,
        im: sin_spec(twiddle_angle(k, n, inv)) as i64,
    }
}

fn twiddle(k: usize, n: usize, inv: bool) -> (r: Complex)
    requires
        0 < n <= MAX_WINDOW,
        k < n,
    ensures
        r == twiddle_spec(k as int, n as int, inv),
        -ONE <= r.re <= ONE,
        -ONE <= r.im <= ONE,
{
    proof {
        assert(0 <= (k as int * TAU_Q) / (n as int) < TAU_Q) by (nonlinear_arith)
            requires
                0 <= (k as int),
                (k as int) < (n as int),
                0 < (n as int),
                TAU_Q == 6588397,
        ;
    }
    let a: i64 = ((k as i64) * TAU_Q) / (n as i64);
    let ang: i64 = if inv {
        a
    } else if a == 0 {
        0
    } else {
        TAU_Q - a
    };
    Complex { re: cos_q(ang), im: sin_q(ang) }
}

/// Real part of the first `j` terms of the direct `n`-point sum at bin `k`.
pub open spec fn dft_sum_re(x: Seq<Complex>, k: int, inv: bool, j: nat) -> int
    decreases j,
{
    if j == 0 {
        0
    } else {
        let m = ((j - 1) * k) % (x.len() as int);
        let w = twiddle_spec(m, x.len() as int, inv);
        dft_sum_re(x, k, inv, (j - 1) as nat) + x[j - 1].re * w.re - x[j - 1].im * w.im
    }
}

/// Imaginary part of the first `j` terms of the direct `n`-point sum at bin `k`.
pub open spec fn dft_sum_im(x: Seq<Complex>, k: int, inv: bool, j: nat) -> int
    decreases j,
{
    if j == 0 {
        0
    } else {
        let m = ((j - 1) * k) % (x.len() as int);
        let w = twiddle_spec(m, x.len() as int, inv);
        dft_sum_im(x, k, inv, (j - 1) as nat) + x[j - 1].re * w.im + x[j - 1].im * w.re
    }
}

/// Saturate both parts of a component.
pub open spec fn clamp_c(c: Complex) -> Complex {
    Complex { re: cl(c.re as int) as i64, im: cl(c.im as int) as i64 }
}

/// The direct (sum-by-definition) transform, each bin saturated.
pub open spec fn dft_direct_spec(x: Seq<Complex>, inv: bool) -> Seq<Complex> {
    Seq::new(
        x.len(),
        |k: int|
            Complex {
                re: cl(div_fp(dft_sum_re(x, k, inv, x.len()), ONE as int)) as i64,
                im: cl(div_fp(dft_sum_im(x, k, inv, x.len()), ONE as int)) as i64,
            },
    )
}

/// The even-indexed half of a sequence.
pub open spec fn evens(x: Seq<Complex>) -> Seq<Complex> {
    Seq::new((x.len() / 2) as nat, |i: int| x[2 * i])
}

/// The odd-indexed half of a sequence.
pub open spec fn odds(x: Seq<Complex>) -> Seq<Complex> {
    Seq::new((x.len() / 2) as nat, |i: int| x[2 * i + 1])
}

/// One recombination step: `a + w * b`, scaled back and saturated.
pub open spec fn butterfly(a: Complex, b: Complex, w: Complex) -> Complex {
    let tre = b.re * w.re - b.im * w.im;
    let tim = b.re * w.im + b.im * w.re;
    Complex {
        re: cl(a.re + div_fp(tre, ONE as int)) as i64,
        im: cl(a.im + div_fp(tim, ONE as int)) as i64,
    }
}

/// The transform itself: even lengths recombine two half-length transforms,
/// odd lengths take the direct sum, lengths below two only saturate.
pub open spec fn fft_spec(x: Seq<Complex>, inv: bool) -> Seq<Complex>
    decreases x.len(),
{
    if x.len() <= 1 {
        Seq::new(x.len(), |i: int| clamp_c(x[i]))
    } else if x.len() % 2 == 0 {
        let e = fft_spec(evens(x), inv);
        let o = fft_spec(odds(x), inv);
        let h = x.len() as int / 2;
        Seq::new(
            x.len(),
            |k: int| butterfly(e[k % h], o[k % h], twiddle_spec(k, x.len() as int, inv)),
        )
    } else {
        dft_direct_spec(x, inv)
    }
}

/// Every component of a transform lies within the saturation range.
pub proof fn lemma_fft_spec_bounds(x: Seq<Complex>, inv: bool)
    ensures
        fft_spec(x, inv).len() == x.len(),
        forall|k: int|
            0 <= k < x.len() ==> -SPECTRUM_CAP <= #[trigger] fft_spec(x, inv)[k].re
                <= SPECTRUM_CAP && -SPECTRUM_CAP <= fft_spec(x, inv)[k].im <= SPECTRUM_CAP,
{
    assert forall|k: int| 0 <= k < x.len() implies -SPECTRUM_CAP <= #[trigger] fft_spec(x, inv)[k].re
        <= SPECTRUM_CAP && -SPECTRUM_CAP <= fft_spec(x, inv)[k].im <= SPECTRUM_CAP by {
        if x.len() <= 1 {
            assert(fft_spec(x, inv)[k] == clamp_c(x[k]));
        } else if x.len() % 2 == 0 {
            let e = fft_spec(evens(x), inv);
            let o = fft_spec(odds(x), inv);
            let h = x.len() as int / 2;
            assert(fft_spec(x, inv)[k] == butterfly(
                e[k % h],
                o[k % h],
                twiddle_spec(k, x.len() as int, inv),
            ));
        } else {
            assert(fft_spec(x, inv)[k] == dft_direct_spec(x, inv)[k]);
        }
    }
}

fn fft_rec(x: &Vec<Complex>, inv: bool) -> (r: Vec<Complex>)
    requires
        x@.len() <= MAX_WINDOW,
    ensures
        r@ == fft_spec(x@, inv),
        r@.len() == x@.len(),
    decreases x@.len(),
{
    let n = x.len();
    if n <= 1 {
        let mut out: Vec<Complex> = Vec::new();
        let mut i: usize = 0;
        while i < n
            invariant
                i <= n,
                n == x@.len(),
                out@.len() == i,
                forall|j: int| 0 <= j < i ==> out@[j] == clamp_c(x@[j]),
            decreases n - i,
        {
            let c = x[i];
            out.push(Complex { re: clamp_spectrum(c.re as i128), im: clamp_spectrum(c.im as i128) });
            i += 1;
        }
        proof {
            assert(out@ =~= fft_spec(x@, inv));
        }
        out
    } else if n % 2 == 0 {
        let h = n / 2;
        let mut ev: Vec<Complex> = Vec::new();
        let mut od: Vec<Complex> = Vec::new();
        let mut i: usize = 0;
        while i < h
            invariant
                i <= h,
                h == x@.len() / 2,
                n == x@.len(),
                n % 2 == 0,
                ev@.len() == i,
                od@.len() == i,
                forall|j: int| 0 <= j < i ==> ev@[j] == x@[2 * j],
                forall|j: int| 0 <= j < i ==> od@[j] == x@[2 * j + 1],
            decreases h - i,
        {
            ev.push(x[2 * i]);
            od.push(x[2 * i + 1]);
            i += 1;
        }
        proof {
            assert(ev@ =~= evens(x@));
            assert(od@ =~= odds(x@));
        }
        let e = fft_rec(&ev, inv);
        let o = fft_rec(&od, inv);
        proof {
            lemma_fft_spec_bounds(evens(x@), inv);
            lemma_fft_spec_bounds(odds(x@), inv);
        }
        let mut out: Vec<Complex> = Vec::new();
        let mut k: usize = 0;
        while k < n
            invariant
                k <= n,
                n == x@.len(),
                1 <= n <= MAX_WINDOW,
                n % 2 == 0,
                h == x@.len() / 2,
                e@ == fft_spec(evens(x@), inv),
                o@ == fft_spec(odds(x@), inv),
                e@.len() == h,
                o@.len() == h,
                forall|j: int|
                    0 <= j < h ==> -SPECTRUM_CAP <= #[trigger] o@[j].re <= SPECTRUM_CAP
                        && -SPECTRUM_CAP <= o@[j].im <= SPECTRUM_CAP,
                out@.len() == k,
                forall|j: int| 0 <= j < k ==> out@[j] == fft_spec(x@, inv)[j],
            decreases n - k,
        {
            let w = twiddle(k, n, inv);
            let a = e[k % h];
            let b = o[k % h];
            proof {
                assert(-73786976294838206464 <= (b.re as i128) * (w.re as i128)
                    <= 73786976294838206464 && -73786976294838206464 <= (b.im as i128) * (
                w.im as i128) <= 73786976294838206464 && -73786976294838206464 <= (b.re as i128) * (
                w.im as i128) <= 73786976294838206464 && -73786976294838206464 <= (b.im as i128) * (
                w.re as i128) <= 73786976294838206464) by (nonlinear_arith)
                    requires
                        -SPECTRUM_CAP <= b.re <= SPECTRUM_CAP,
                        -SPECTRUM_CAP <= b.im <= SPECTRUM_CAP,
                        -ONE <= w.re <= ONE,
                        -ONE <= w.im <= ONE,
                        SPECTRUM_CAP == 35184372088832,
                        ONE == 1048576,
                ;
            }
            let tre: i128 = (b.re as i128) * (w.re as i128) - (b.im as i128) * (w.im as i128);
            let tim: i128 = (b.re as i128) * (w.im as i128) + (b.im as i128) * (w.re as i128);
            let rre: i64 = clamp_spectrum((a.re as i128) + tre / (ONE as i128));
            let rim: i64 = clamp_spectrum((a.im as i128) + tim / (ONE as i128));
            out.push(Complex { re: rre, im: rim });
            proof {
                let kk = k as int;
                assert(out@[kk] == butterfly(
                    e@[kk % (h as int)],
                    o@[kk % (h as int)],
                    twiddle_spec(kk, n as int, inv),
                ));
                assert(out@[kk] == fft_spec(x@, inv)[kk]);
            }
            k += 1;
        }
        proof {
            assert(out@ =~= fft_spec(x@, inv));
        }
        out
    } else {
        let mut out: Vec<Complex> = Vec::new();
        let mut k: usize = 0;
        while k < n
            invariant
                k <= n,
                n == x@.len(),
                2 <= n <= MAX_WINDOW,
                n % 2 == 1,
                out@.len() == k,
                forall|j: int| 0 <= j < k ==> out@[j] == fft_spec(x@, inv)[j],
            decreases n - k,
        {
            let mut sre: i128 = 0;
            let mut sim: i128 = 0;
            let mut j: usize = 0;
            while j < n
                invariant
                    j <= n,
                    k < n,
                    n == x@.len(),
                    2 <= n <= MAX_WINDOW,
                    sre == dft_sum_re(x@, k as int, inv, j as nat),
                    sim == dft_sum_im(x@, k as int, inv, j as nat),
                    -(j as i128) * 0x1000000000000000000000 <= sre <= (j as i128)
                        * 0x1000000000000000000000,
                    -(j as i128) * 0x1000000000000000000000 <= sim <= (j as i128)
                        * 0x1000000000000000000000,
                decreases n - j,
            {
                proof {
                    assert((j as int) * (k as int) <= 4294836225) by (nonlinear_arith)
                        requires
                            0 <= (j as int),
                            (j as int) < (n as int),
                            0 <= (k as int) && (k as int) < (n as int),
                            0 < (n as int) && (n as int) <= 65536,
                    ;
                }
                let m = (j * k) % n;
                let w = twiddle(m, n, inv);
                let c = x[j];
                proof {
                    assert(-0x800000000000000000000 <= (c.re as i128) * (w.re as i128)
                        <= 0x800000000000000000000 && -0x800000000000000000000 <= (c.im as i128) * (
                    w.im as i128) <= 0x800000000000000000000 && -0x800000000000000000000 <= (
                    c.re as i128) * (w.im as i128) <= 0x800000000000000000000
                        && -0x800000000000000000000 <= (c.im as i128) * (w.re as i128)
                        <= 0x800000000000000000000) by (nonlinear_arith)
                        requires
                            -0x8000000000000000 <= c.re <= 0x8000000000000000,
                            -0x8000000000000000 <= c.im <= 0x8000000000000000,
                            -ONE <= w.re <= ONE,
                            -ONE <= w.im <= ONE,
                            ONE == 1048576,
                    ;
                }
                let pre: i128 = (c.re as i128) * (w.re as i128);
                let pim: i128 = (c.im as i128) * (w.im as i128);
                let qre: i128 = (c.re as i128) * (w.im as i128);
                let qim: i128 = (c.im as i128) * (w.re as i128);
                sre = sre + pre - pim;
                sim = sim + qre + qim;
                j += 1;
                proof {
                    assert((m as int) == ((j - 1) * (k as int)) % (x@.len() as int));
                    assert(sre == dft_sum_re(x@, k as int, inv, j as nat));
                    assert(sim == dft_sum_im(x@, k as int, inv, j as nat));
                }
            }
            out.push(
                Complex {
                    re: clamp_spectrum(sre / (ONE as i128)),
                    im: clamp_spectrum(sim / (ONE as i128)),
                },
            );
            proof {
                assert(out@[k as int] == dft_direct_spec(x@, inv)[k as int]);
                assert(out@[k as int] == fft_spec(x@, inv)[k as int]);
            }
            k += 1;
        }
        proof {
            assert(out@ =~= fft_spec(x@, inv));
        }
        out
    }
}

/// A real signal as a complex sequence with zero imaginary parts.
pub open spec fn to_complex_seq(s: Seq<i64>) -> Seq<Complex> {
    Seq::new(s.len(), |i: int| Complex { re: s[i], im: 0 })
}

/// Forward transform of a real frame; unnormalized, every bin saturated into
/// the spectrum range.
pub fn fft(signal: &Vec<i64>) -> (r: Vec<Complex>)
    requires
        signal@.len() <= MAX_WINDOW,
    ensures
        r@ == fft_spec(to_complex_seq(signal@), false),
        r@.len() == signal@.len(),
        forall|k: int|
            0 <= k < r@.len() ==> -SPECTRUM_CAP <= #[trigger] r@[k].re <= SPECTRUM_CAP
                && -SPECTRUM_CAP <= r@[k].im <= SPECTRUM_CAP,
{
    let n = signal.len();
    let mut buf: Vec<Complex> = Vec::new();
    let mut i: usize = 0;
    while i < n
        invariant
            i <= n,
            n == signal@.len(),
            buf@.len() == i,
            forall|j: int| 0 <= j < i ==> buf@[j] == (Complex { re: signal@[j], im: 0i64 }),
        decreases n - i,
    {
        buf.push(Complex { re: signal[i], im: 0 });
        i += 1;
    }
    proof {
        assert(buf@ =~= to_complex_seq(signal@));
        lemma_fft_spec_bounds(to_complex_seq(signal@), false);
    }
    fft_rec(&buf, false)
}

/// The real parts of the inverse transform (the time-domain frame, scaled by
/// the length relative to the analysis frame).
pub open spec fn ifft_spec(x: Seq<Complex>) -> Seq<i64> {
    Seq::new(x.len(), |i: int| fft_spec(x, true)[i].re)
}

/// Inverse transform of a spectrum frame, keeping the real parts;
/// unnormalized (scales by the length relative to the forward input).
pub fn ifft(spectrum: &Vec<Complex>) -> (r: Vec<i64>)
    requires
        spectrum@.len() <= MAX_WINDOW,
    ensures
        r@ == ifft_spec(spectrum@),
        r@.len() == spectrum@.len(),
        forall|k: int| 0 <= k < r@.len() ==> -SPECTRUM_CAP <= #[trigger] r@[k] <= SPECTRUM_CAP,
{
    let t = fft_rec(spectrum, true);
    proof {
        lemma_fft_spec_bounds(spectrum@, true);
    }
    let n = t.len();
    let mut out: Vec<i64> = Vec::new();
    let mut i: usize = 0;
    while i < n
        invariant
            i <= n,
            n == t@.len(),
            t@ == fft_spec(spectrum@, true),
            t@.len() == spectrum@.len(),
            out@.len() == i,
            forall|j: int| 0 <= j < i ==> out@[j] == fft_spec(spectrum@, true)[j].re,
        decreases n - i,
    {
        out.push(t[i].re);
        i += 1;
    }
    proof {
        assert(out@ =~= ifft_spec(spectrum@));
    }
    out
}

/// One analysis frame: up to `ws` samples starting at `off`, each scaled by
/// the window weight, zero-padded past the signal tail.
pub open spec fn windowed_frame_spec(sig: Seq<i64>, win: Seq<i64>, off: int, ws: int) -> Seq<i64> {
    Seq::new(
        ws as nat,
        |k: int|
            if off + k < sig.len() {
                div_fp(sig[off + k] * win[k], ONE as int) as i64
            } else {
                0i64
            },
    )
}

/// The number of analysis frames of a signal: one per hop, the tail frame
/// included.
pub open spec fn stft_frames(len: int, hop: int) -> int {
    (len + hop - 1) / hop
}

/// Frame `t` of the spectrum matrix: the forward transform of the windowed
/// frame at sample offset `t * hop`.
pub open spec fn stft_frame_spec(
    sig: Seq<i64>,
    win: Seq<i64>,
    ws: int,
    hop: int,
    t: int,
) -> Seq<Complex> {
    fft_spec(to_complex_seq(windowed_frame_spec(sig, win, t * hop, ws)), false)
}

/// The short-time Fourier transform: one spectrum frame per hop, each the
/// forward transform of the windowed, tail-padded frame at that hop's offset.
pub fn stft(
    signal: &TimeDomainSignal,
    window_size: usize,
    hop_length: usize,
    window: &Vec<i64>,
) -> (m: Vec<Vec<Complex>>)
    requires
        signal@.len() <= MAX_LEN,
        1 <= window_size <= MAX_WINDOW,
        1 <= hop_length <= MAX_LEN,
        window@.len() == window_size,
        forall|i: int| 0 <= i < signal@.len() ==> -AMP_LIMIT <= #[trigger] signal@[i] <= AMP_LIMIT,
        forall|i: int| 0 <= i < window_size ==> -ONE <= #[trigger] window@[i] <= ONE,
    ensures
        m@.len() == stft_frames(signal@.len() as int, hop_length as int),
        forall|t: int|
            0 <= t < m@.len() ==> #[trigger] m@[t]@ == stft_frame_spec(
                signal@,
                window@,
                window_size as int,
                hop_length as int,
                t,
            ),
        forall|t: int| 0 <= t < m@.len() ==> #[trigger] m@[t]@.len() == window_size,
{
    let len = signal.num_samples();
    let ws = window_size;
    let hop = hop_length;
    let frames: usize = (len + hop - 1) / hop;
    let mut m: Vec<Vec<Complex>> = Vec::new();
    let mut t: usize = 0;
    while t < frames
        invariant
            t <= frames,
            frames == stft_frames(signal@.len() as int, hop as int),
            len == signal@.len(),
            len <= MAX_LEN,
            1 <= ws <= MAX_WINDOW,
            1 <= hop <= MAX_LEN,
            window@.len() == ws,
            forall|i: int|
                0 <= i < signal@.len() ==> -AMP_LIMIT <= #[trigger] signal@[i] <= AMP_LIMIT,
            forall|i: int| 0 <= i < ws ==> -ONE <= #[trigger] window@[i] <= ONE,
            m@.len() == t,
            forall|q: int|
                0 <= q < t ==> #[trigger] m@[q]@ == stft_frame_spec(
                    signal@,
                    window@,
                    ws as int,
                    hop as int,
                    q,
                ),
            forall|q: int| 0 <= q < t ==> #[trigger] m@[q]@.len() == ws,
        decreases frames - t,
    {
        proof {
            if len == 0 {
                vstd::arithmetic::div_mod::lemma_basic_div(hop as int - 1, hop as int);
                assert(false);
            }
            assert((t as int) * (hop as int) < len as int) by (nonlinear_arith)
                requires
                    0 <= (t as int),
                    (t as int) < (len as int + hop as int - 1) / (hop as int),
                    1 <= (hop as int),
                    0 < (len as int),
            ;
        }
        let off: usize = t * hop;
        let mut frame: Vec<i64> = Vec::new();
        let mut k: usize = 0;
        while k < ws
            invariant
                k <= ws,
                off == (t as int) * (hop as int),
                off < len,
                len == signal@.len(),
                len <= MAX_LEN,
                1 <= ws <= MAX_WINDOW,
                window@.len() == ws,
                forall|i: int|
                    0 <= i < signal@.len() ==> -AMP_LIMIT <= #[trigger] signal@[i] <= AMP_LIMIT,
                forall|i: int| 0 <= i < ws ==> -ONE <= #[trigger] window@[i] <= ONE,
                frame@.len() == k,
                forall|j: int|
                    0 <= j < k ==> #[trigger] frame@[j] == windowed_frame_spec(
                        signal@,
                        window@,
                        off as int,
                        ws as int,
                    )[j],
            decreases ws - k,
        {
            let v: i64 = if off + k < len {
                let sv: i64 = *self_index(signal.samples(), off + k);
                let wv: i64 = window[k];
                proof {
                    assert(-0x10000000000000 <= sv * wv <= 0x10000000000000) by (nonlinear_arith)
                        requires
                            -AMP_LIMIT <= sv <= AMP_LIMIT,
                            -ONE <= wv <= ONE,
                            AMP_LIMIT == 16777216,
                            ONE == 1048576,
                    ;
                }
                (sv * wv) / ONE
            } else {
                0
            };
            frame.push(v);
            k += 1;
        }
        proof {
            assert(frame@ =~= windowed_frame_spec(signal@, window@, off as int, ws as int));
        }
        let spec_frame = fft(&frame);
        m.push(spec_frame);
        t += 1;
    }
    m
}

fn self_index(v: &Vec<i64>, i: usize) -> (r: &i64)
    requires
        i < v@.len(),
    ensures
        *r == v@[i as int],
{
    &v[i]
}

/// A length clipped to fit the accumulation buffer: what remains of `l` cells
/// placed at `pos` in a buffer of `out_len` cells.
pub open spec fn clip_len(l: int, pos: int, out_len: int) -> int {
    if pos >= out_len {
        0
    } else if pos + l > out_len {
        out_len - pos
    } else {
        l
    }
}

/// The spectrum matrix as a sequence of frame sequences.
pub open spec fn rows_view(m: Seq<Vec<Complex>>) -> Seq<Seq<Complex>> {
    Seq::new(m.len(), |t: int| m[t]@)
}

/// The sample accumulator of the inverse transform after the first `t` frames:
/// each frame's inverse transform, scaled by the window, placed at its hop
/// offset (clipped at the buffer end).
pub open spec fn istft_sum_at(
    rows: Seq<Seq<Complex>>,
    win: Seq<i64>,
    ws: int,
    hop: int,
    out_len: int,
    t: int,
    k: int,
) -> int
    decreases t,
{
    if t <= 0 {
        0
    } else {
        let pos = (t - 1) * hop;
        let l = clip_len(ws, pos, out_len);
        istft_sum_at(rows, win, ws, hop, out_len, t - 1, k) + contrib_at(
            ifft_spec(rows[t - 1]),
            win,
            0,
            pos,
            l,
            k,
        )
    }
}

/// The weight accumulator of the inverse transform after the first `t` frames.
pub open spec fn istft_wsum_at(
    win: Seq<i64>,
    ws: int,
    hop: int,
    out_len: int,
    t: int,
    k: int,
) -> int
    decreases t,
{
    if t <= 0 {
        0
    } else {
        let pos = (t - 1) * hop;
        let l = clip_len(ws, pos, out_len);
        istft_wsum_at(win, ws, hop, out_len, t - 1, k) + wcontrib_at(win, pos, l, k)
    }
}

/// The inverse short-time Fourier transform: every frame is inverse
/// transformed, scaled by the window, and added into a `num_samples`-cell
/// accumulation buffer at its hop offset; the result is the elementwise
/// weight normalization of that buffer.  A cell that no window weight ever
/// reached comes out exactly zero.
pub fn istft(
    spectrum: Vec<Vec<Complex>>,
    window_size: usize,
    hop_length: usize,
    num_samples: usize,
    window: &Vec<i64>,
) -> (r: Vec<i64>)
    requires
        spectrum@.len() <= MAX_LEN,
        1 <= window_size <= MAX_WINDOW,
        1 <= hop_length <= MAX_LEN,
        window@.len() == window_size,
        forall|t: int| 0 <= t < spectrum@.len() ==> #[trigger] spectrum@[t]@.len() == window_size,
        forall|i: int| 0 <= i < window_size ==> 0 <= #[trigger] window@[i] <= ONE,
    ensures
        r@.len() == num_samples,
        forall|k: int|
            0 <= k < num_samples ==> #[trigger] r@[k] == norm_div(
                istft_sum_at(
                    rows_view(spectrum@),
                    window@,
                    window_size as int,
                    hop_length as int,
                    num_samples as int,
                    spectrum@.len() as int,
                    k,
                ),
                istft_wsum_at(
                    window@,
                    window_size as int,
                    hop_length as int,
                    num_samples as int,
                    spectrum@.len() as int,
                    k,
                ),
            ),
        forall|k: int|
            0 <= k < num_samples && istft_wsum_at(
                window@,
                window_size as int,
                hop_length as int,
                num_samples as int,
                spectrum@.len() as int,
                k,
            ) == 0 ==> #[trigger] r@[k] == 0,
        forall|k: int| 0 <= k < num_samples ==> -SPECTRUM_CAP <= #[trigger] r@[k] <= SPECTRUM_CAP,
{
    let ws = window_size;
    let hop = hop_length;
    let frames = spectrum.len();
    let mut acc = AccBuf::new(num_samples, Ghost(SPECTRUM_CAP as int));
    let mut t: usize = 0;
    while t < frames
        invariant
            t <= frames,
            frames == spectrum@.len(),
            frames <= MAX_LEN,
            1 <= ws <= MAX_WINDOW,
            1 <= hop <= MAX_LEN,
            window@.len() == ws,
            forall|q: int| 0 <= q < frames ==> #[trigger] spectrum@[q]@.len() == ws,
            forall|i: int| 0 <= i < ws ==> 0 <= #[trigger] window@[i] <= ONE,
            acc.wf(),
            acc.len_spec() == num_samples,
            acc.bound_spec() == SPECTRUM_CAP as int,
            forall|k: int|
                0 <= k < num_samples ==> #[trigger] acc.sum_at(k) == istft_sum_at(
                    rows_view(spectrum@),
                    window@,
                    ws as int,
                    hop as int,
                    num_samples as int,
                    t as int,
                    k,
                ),
            forall|k: int|
                0 <= k < num_samples ==> #[trigger] acc.weight_at(k) == istft_wsum_at(
                    window@,
                    ws as int,
                    hop as int,
                    num_samples as int,
                    t as int,
                    k,
                ),
            forall|k: int|
                0 <= k < num_samples ==> #[trigger] acc.weight_at(k) <= (t as int) * (ONE as int),
        decreases frames - t,
    {
        let row: &Vec<Complex> = &spectrum[t];
        let vals = ifft(row);
        let ghost pos_g = (t as int) * (hop as int);
        proof {
            assert(0 <= pos_g <= 0x10000000000000) by (nonlinear_arith)
                requires
                    pos_g == (t as int) * (hop as int),
                    0 <= (t as int) && (t as int) < 67108865,
                    1 <= (hop as int) && (hop as int) <= 67108864,
            ;
            assert(rows_view(spectrum@)[t as int] == spectrum@[t as int]@);
            assert forall|k: int| 0 <= k < num_samples implies #[trigger] acc.weight_at(k) + ONE
                <= crate::accum::WEIGHT_CAP by {
                assert((t as int) * (ONE as int) <= 67108864 * 1048576) by (nonlinear_arith)
                    requires
                        0 <= (t as int) && (t as int) <= 67108864,
                        ONE == 1048576,
                ;
            }
        }
        let pos64: u64 = (t as u64) * (hop as u64);
        let ghost t_old = t as int;
        let ghost sum_old = acc;
        if pos64 < num_samples as u64 {
            let pos: usize = pos64 as usize;
            let l: usize = if ws < num_samples - pos {
                ws
            } else {
                num_samples - pos
            };
            proof {
                assert(l as int == clip_len(ws as int, pos_g, num_samples as int));
            }
            acc.add_frame(&vals, 0, window, pos, l);
        } else {
            proof {
                assert(clip_len(ws as int, pos_g, num_samples as int) == 0);
                assert forall|k: int| 0 <= k < num_samples implies #[trigger] acc.sum_at(k)
                    == istft_sum_at(
                    rows_view(spectrum@),
                    window@,
                    ws as int,
                    hop as int,
                    num_samples as int,
                    t as int + 1,
                    k,
                ) && acc.weight_at(k) == istft_wsum_at(
                    window@,
                    ws as int,
                    hop as int,
                    num_samples as int,
                    t as int + 1,
                    k,
                ) by {
                    assert(contrib_at(ifft_spec(rows_view(spectrum@)[t as int]), window@, 0, pos_g, 0, k) == 0);
                    assert(wcontrib_at(window@, pos_g, 0, k) == 0);
                }
            }
        }
        t += 1;
    }
    acc.normalize()
}

} // verus!
