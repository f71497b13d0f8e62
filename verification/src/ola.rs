//! Overlap-add time stretching: each analysis frame is windowed and placed at
//! a scaled synthesis offset in a pair of accumulation buffers, and the output
//! is their elementwise weight normalization.  A pure time-domain relocation:
//! frequency content is untouched, which is why it shows phase-cancellation
//! artifacts that the synchronized variant and the phase vocoder avoid.

use vstd::prelude::*;

use crate::accum::{AccBuf, WEIGHT_CAP, contrib_at, wcontrib_at, norm_div};
use crate::fft::{stft_frames, clip_len};
use crate::fixed::{ONE, HALF, AMP_LIMIT, MAX_LEN, MAX_WINDOW, MAX_SCALE, div_fp};
use crate::signal::TimeDomainSignal;
use crate::windows::{build_window, shape_fn_req, shape_fn_bounded, window_result};

verus! {

/// The bounds every time-domain engine asks of its arguments: a bounded
/// signal, a window that fits the machine, a positive hop, and a positive
/// scale factor no larger than `MAX_SCALE`.
pub open spec fn engine_args_ok(sig: Seq<i64>, scale: int, ws: int, hop: int) -> bool {
    &&& sig.len() <= MAX_LEN
    &&& forall|i: int| 0 <= i < sig.len() ==> -AMP_LIMIT <= #[trigger] sig[i] <= AMP_LIMIT
    &&& 1 <= ws <= MAX_WINDOW
    &&& 1 <= hop <= MAX_LEN
    &&& 1 <= scale <= MAX_SCALE
}

/// The synthesis hop: the analysis hop scaled, rounded to nearest.
pub open spec fn synth_hop_spec(hop: int, scale: int) -> int {
    (hop * scale + HALF) / (ONE as int)
}

/// The synthesis offset of the frame at input offset `i`: `i` scaled, rounded
/// to nearest.
pub open spec fn synth_pos_spec(i: int, scale: int) -> int {
    (i * scale + HALF) / (ONE as int)
}

/// The output length law: one synthesis hop per analysis frame
/// (`ceil(len / hop)` of them) plus one window.
pub open spec fn ola_out_len(len: int, scale: int, ws: int, hop: int) -> int {
    stft_frames(len, hop) * synth_hop_spec(hop, scale) + ws
}

/// The input length of the frame at input offset `i`: a full window, clipped
/// at the signal tail.
pub open spec fn frame_len_spec(len: int, i: int, ws: int) -> int {
    if ws <= len - i {
        ws
    } else {
        len - i
    }
}

/// The sample accumulator after placing the first `q` frames, at cell `k`.
pub open spec fn ola_sum_at(
    sig: Seq<i64>,
    win: Seq<i64>,
    scale: int,
    ws: int,
    hop: int,
    out_len: int,
    q: int,
    k: int,
) -> int
    decreases q,
{
    if q <= 0 {
        0
    } else {
        let i = (q - 1) * hop;
        let pos = synth_pos_spec(i, scale);
        let l = clip_len(frame_len_spec(sig.len() as int, i, ws), pos, out_len);
        ola_sum_at(sig, win, scale, ws, hop, out_len, q - 1, k) + contrib_at(
            sig,
            win,
            i,
            pos,
            l,
            k,
        )
    }
}

/// The weight accumulator after placing the first `q` frames, at cell `k`.
pub open spec fn ola_wsum_at(
    len: int,
    win: Seq<i64>,
    scale: int,
    ws: int,
    hop: int,
    out_len: int,
    q: int,
    k: int,
) -> int
    decreases q,
{
    if q <= 0 {
        0
    } else {
        let i = (q - 1) * hop;
        let pos = synth_pos_spec(i, scale);
        let l = clip_len(frame_len_spec(len, i, ws), pos, out_len);
        ola_wsum_at(len, win, scale, ws, hop, out_len, q - 1, k) + wcontrib_at(win, pos, l, k)
    }
}

/// The whole overlap-add output: every cell is the weight normalization of
/// the two accumulators after all frames are placed.
pub open spec fn ola_spec(sig: Seq<i64>, win: Seq<i64>, scale: int, ws: int, hop: int) -> Seq<
    i64,
> {
    let out_len = ola_out_len(sig.len() as int, scale, ws, hop);
    let frames = stft_frames(sig.len() as int, hop);
    Seq::new(
        out_len as nat,
        |k: int|
            norm_div(
                ola_sum_at(sig, win, scale, ws, hop, out_len, frames, k),
                ola_wsum_at(sig.len() as int, win, scale, ws, hop, out_len, frames, k),
            ) as i64,
    )
}

/// Overlap-add: stretch `signal` by `scale_factor` (fixed-point), windowing
/// each analysis frame with the shape `window_fn` and placing it at its scaled
/// synthesis offset.  The output length follows the length law exactly, for
/// every accepted input; placements past the buffer end are clipped.
pub fn ola<F: Fn(i64, usize) -> i64>(
    signal: TimeDomainSignal,
    scale_factor: i64,
    window_size: usize,
    hop_length: usize,
    window_fn: F,
) -> (r: TimeDomainSignal)
    requires
        engine_args_ok(signal@, scale_factor as int, window_size as int, hop_length as int),
        shape_fn_req(window_fn, window_size as int),
        shape_fn_bounded(window_fn),
        ola_out_len(
            signal@.len() as int,
            scale_factor as int,
            window_size as int,
            hop_length as int,
        ) <= usize::MAX,
    ensures
        r.sample_rate == signal.sample_rate,
        r@.len() == ola_out_len(
            signal@.len() as int,
            scale_factor as int,
            window_size as int,
            hop_length as int,
        ),
        exists|w: Seq<i64>|
            #[trigger] window_result(window_fn, window_size as int, w) && r@ == ola_spec(
                signal@,
                w,
                scale_factor as int,
                window_size as int,
                hop_length as int,
            ),
{
    let rate = signal.sample_rate();
    let len = signal.num_samples();
    let ws = window_size;
    let hop = hop_length;
    let window = build_window(window_fn, ws);
    let ghost wseq = window@;
    proof {
        assert forall|i: int| 0 <= i < ws implies 0 <= #[trigger] wseq[i] <= ONE by {
            assert(call_ensures(
                window_fn,
                (crate::windows::win_coord(i, ws as int) as i64, ws),
                wseq[i],
            ));
        }
    }
    let frames: usize = (len + hop - 1) / hop;
    proof {
        vstd::arithmetic::div_mod::lemma_div_basics_5(len as int + hop as int - 1, hop as int);
        assert(frames as int <= len as int + hop as int - 1);
        assert(0 <= (hop as i64) * scale_factor <= 0x20000000000000) by (nonlinear_arith)
            requires
                1 <= (hop as int) && (hop as int) <= 67108864,
                1 <= scale_factor <= 134217728,
        ;
    }
    let sh: i64 = ((hop as i64) * scale_factor + HALF) / ONE;
    proof {
        assert(frames as int == stft_frames(len as int, hop as int));
        assert(sh as int == synth_hop_spec(hop as int, scale_factor as int));
        assert(0 <= (frames as int) * (sh as int) <= ola_out_len(
            len as int,
            scale_factor as int,
            ws as int,
            hop as int,
        )) by (nonlinear_arith)
            requires
                0 <= (frames as int),
                0 <= (sh as int),
                0 < (ws as int),
                ola_out_len(len as int, scale_factor as int, ws as int, hop as int) == (
                frames as int) * (sh as int) + (ws as int),
        ;
    }
    let out_len64: u64 = (frames as u64) * (sh as u64) + (ws as u64);
    let out_len: usize = out_len64 as usize;
    let mut acc = AccBuf::new(out_len, Ghost(AMP_LIMIT as int));
    let mut q: usize = 0;
    while q < frames
        invariant
            q <= frames,
            frames == stft_frames(len as int, hop as int),
            frames <= 134217727,
            len == signal@.len(),
            out_len == ola_out_len(len as int, scale_factor as int, ws as int, hop as int),
            engine_args_ok(signal@, scale_factor as int, ws as int, hop as int),
            wseq == window@,
            window@.len() == ws,
            forall|i: int| 0 <= i < ws ==> 0 <= #[trigger] wseq[i] <= ONE,
            acc.wf(),
            acc.len_spec() == out_len,
            acc.bound_spec() == AMP_LIMIT as int,
            forall|k: int|
                0 <= k < out_len ==> #[trigger] acc.sum_at(k) == ola_sum_at(
                    signal@,
                    wseq,
                    scale_factor as int,
                    ws as int,
                    hop as int,
                    out_len as int,
                    q as int,
                    k,
                ),
            forall|k: int|
                0 <= k < out_len ==> #[trigger] acc.weight_at(k) == ola_wsum_at(
                    len as int,
                    wseq,
                    scale_factor as int,
                    ws as int,
                    hop as int,
                    out_len as int,
                    q as int,
                    k,
                ),
            forall|k: int|
                0 <= k < out_len ==> #[trigger] acc.weight_at(k) <= (q as int) * (ONE as int),
        decreases frames - q,
    {
        proof {
            if len == 0 {
                vstd::arithmetic::div_mod::lemma_basic_div(hop as int - 1, hop as int);
                assert(false);
            }
            assert((q as int) * (hop as int) < len as int) by (nonlinear_arith)
                requires
                    0 <= (q as int),
                    (q as int) < (len as int + hop as int - 1) / (hop as int),
                    1 <= (hop as int),
                    0 < (len as int),
            ;
            assert forall|k: int| 0 <= k < out_len implies #[trigger] acc.weight_at(k) + ONE
                <= WEIGHT_CAP by {
                assert((q as int) * (ONE as int) <= 134217728 * 1048576) by (nonlinear_arith)
                    requires
                        0 <= (q as int) && (q as int) <= 134217728,
                        ONE == 1048576,
                ;
            }
        }
        let i: usize = q * hop;
        let l0: usize = if ws < len - i {
            ws
        } else {
            len - i
        };
        proof {
            assert(l0 as int == frame_len_spec(len as int, i as int, ws as int));
            assert(0 <= (i as i64) * scale_factor <= 0x400000000000000) by (nonlinear_arith)
                requires
                    0 <= (i as int) && (i as int) < 67108864,
                    1 <= scale_factor <= 134217728,
            ;
        }
        let pos64: i64 = ((i as i64) * scale_factor + HALF) / ONE;
        let ghost pos_g = synth_pos_spec(i as int, scale_factor as int);
        proof {
            assert(pos64 as int == pos_g);
            assert(pos64 >= 0);
        }
        if (pos64 as u64) < (out_len as u64) {
            let pos: usize = pos64 as usize;
            let l: usize = if l0 < out_len - pos {
                l0
            } else {
                out_len - pos
            };
            proof {
                assert(l as int == clip_len(
                    frame_len_spec(len as int, i as int, ws as int),
                    pos_g,
                    out_len as int,
                ));
            }
            acc.add_frame(signal.samples(), i, &window, pos, l);
        } else {
            proof {
                assert(clip_len(
                    frame_len_spec(len as int, i as int, ws as int),
                    pos_g,
                    out_len as int,
                ) == 0);
                assert forall|k: int| 0 <= k < out_len implies #[trigger] acc.sum_at(k)
                    == ola_sum_at(
                    signal@,
                    wseq,
                    scale_factor as int,
                    ws as int,
                    hop as int,
                    out_len as int,
                    q as int + 1,
                    k,
                ) && acc.weight_at(k) == ola_wsum_at(
                    len as int,
                    wseq,
                    scale_factor as int,
                    ws as int,
                    hop as int,
                    out_len as int,
                    q as int + 1,
                    k,
                ) by {
                    assert(contrib_at(signal@, wseq, i as int, pos_g, 0, k) == 0);
                    assert(wcontrib_at(wseq, pos_g, 0, k) == 0);
                }
            }
        }
        q += 1;
    }
    let out = acc.normalize();
    proof {
        assert(out@ =~= ola_spec(
            signal@,
            wseq,
            scale_factor as int,
            ws as int,
            hop as int,
        ));
        assert(window_result(window_fn, ws as int, wseq) && out@ == ola_spec(
            signal@,
            wseq,
            scale_factor as int,
            ws as int,
            hop as int,
        ));
    }
    TimeDomainSignal { samples: out, sample_rate: rate }
}

/// At unit scale the synthesis grid is the analysis grid: scaled offsets and
/// hops come back unchanged.
pub proof fn lemma_unit_scale_positions(i: int)
    requires
        i >= 0,
    ensures
        synth_pos_spec(i, ONE as int) == i,
        synth_hop_spec(i, ONE as int) == i,
{
    vstd::arithmetic::div_mod::lemma_div_multiples_vanish_fancy(i, HALF as int, ONE as int);
    assert((ONE as int) * i == i * ONE) by (nonlinear_arith);
}

/// The accumulators of unit-scale, unit-weight overlap-add stay proportional
/// to the signal: at every cell the sample sum is the weight sum times the
/// sample that lives there.
proof fn lemma_ola_unit_acc(
    sig: Seq<i64>,
    win: Seq<i64>,
    ws: int,
    hop: int,
    out_len: int,
    q: int,
    k: int,
)
    requires
        1 <= hop,
        win.len() == ws,
        forall|i: int| 0 <= i < ws ==> win[i] == ONE,
        0 <= k < sig.len(),
    ensures
        ola_sum_at(sig, win, ONE as int, ws, hop, out_len, q, k) * (ONE as int) == ola_wsum_at(
            sig.len() as int,
            win,
            ONE as int,
            ws,
            hop,
            out_len,
            q,
            k,
        ) * sig[k],
        ola_wsum_at(sig.len() as int, win, ONE as int, ws, hop, out_len, q, k) >= 0,
    decreases q,
{
    if q <= 0 {
    } else {
        lemma_ola_unit_acc(sig, win, ws, hop, out_len, q - 1, k);
        let i = (q - 1) * hop;
        assert(i >= 0) by (nonlinear_arith)
            requires
                q >= 1,
                hop >= 1,
                i == (q - 1) * hop,
        ;
        lemma_unit_scale_positions(i);
        let pos = synth_pos_spec(i, ONE as int);
        let l = clip_len(frame_len_spec(sig.len() as int, i, ws), pos, out_len);
        let sum0 = ola_sum_at(sig, win, ONE as int, ws, hop, out_len, q - 1, k);
        let wsum0 = ola_wsum_at(sig.len() as int, win, ONE as int, ws, hop, out_len, q - 1, k);
        if pos <= k < pos + l {
            assert(0 <= k - pos < ws);
            assert(win[k - pos] == ONE);
            assert(contrib_at(sig, win, i, pos, l, k) == div_fp(sig[i + (k - pos)] * ONE, ONE as int));
            assert(i + (k - pos) == k);
            let x = sig[k] as int;
            assert(div_fp(x * ONE, ONE as int) == x) by {
                if x >= 0 {
                    vstd::arithmetic::div_mod::lemma_div_multiples_vanish(x, ONE as int);
                    assert((ONE as int) * x == x * ONE) by (nonlinear_arith);
                } else {
                    vstd::arithmetic::div_mod::lemma_div_multiples_vanish(-x, ONE as int);
                    assert((ONE as int) * (-x) == -(x * ONE)) by (nonlinear_arith);
                }
            }
            assert((sum0 + x) * (ONE as int) == wsum0 * x + (ONE as int) * x + (sum0 * (
            ONE as int) - wsum0 * x)) by (nonlinear_arith);
            assert((wsum0 + ONE) * x == wsum0 * x + (ONE as int) * x) by (nonlinear_arith);
        } else {
            assert(contrib_at(sig, win, i, pos, l, k) == 0);
            assert(wcontrib_at(win, pos, l, k) == 0);
        }
    }
}

/// Unit-weight overlap-add only ever adds weight: the weight sum never
/// shrinks as frames are placed.
proof fn lemma_ola_wsum_monotone(
    len: int,
    win: Seq<i64>,
    scale: int,
    ws: int,
    hop: int,
    out_len: int,
    q1: int,
    q2: int,
    k: int,
)
    requires
        0 <= q1 <= q2,
        win.len() == ws,
        forall|i: int| 0 <= i < win.len() ==> win[i] >= 0,
    ensures
        ola_wsum_at(len, win, scale, ws, hop, out_len, q1, k) <= ola_wsum_at(
            len,
            win,
            scale,
            ws,
            hop,
            out_len,
            q2,
            k,
        ),
    decreases q2 - q1,
{
    if q1 < q2 {
        lemma_ola_wsum_monotone(len, win, scale, ws, hop, out_len, q1, q2 - 1, k);
        let i = (q2 - 1) * hop;
        let pos = synth_pos_spec(i, scale);
        let l = clip_len(frame_len_spec(len, i, ws), pos, out_len);
        if pos <= k < pos + l {
            assert(l <= ws);
            assert(0 <= k - pos < win.len());
            assert(wcontrib_at(win, pos, l, k) >= 0);
        } else {
            assert(wcontrib_at(win, pos, l, k) == 0);
        }
    }
}

/// Overlap-add identity: at unit scale, with a window of all-unit weights and
/// a hop no longer than the window, every input cell comes back exactly.
/// (With a shaped window the identity holds only up to fixed-point
/// truncation, which the tests check.)
pub proof fn lemma_ola_identity(sig: Seq<i64>, win: Seq<i64>, ws: int, hop: int, k: int)
    requires
        1 <= hop <= ws,
        win.len() == ws,
        forall|i: int| 0 <= i < ws ==> win[i] == ONE,
        0 <= k < sig.len(),
        sig.len() <= MAX_LEN,
    ensures
        ola_spec(sig, win, ONE as int, ws, hop)[k] == sig[k],
{
    let len = sig.len() as int;
    let out_len = ola_out_len(len, ONE as int, ws, hop);
    let frames = stft_frames(len, hop);
    lemma_unit_scale_positions(hop);
    assert(out_len == frames * hop + ws);
    vstd::arithmetic::div_mod::lemma_fundamental_div_mod(len + hop - 1, hop);
    assert(frames * hop >= len) by (nonlinear_arith)
        requires
            len + hop - 1 == hop * frames + (len + hop - 1) % hop,
            0 <= (len + hop - 1) % hop < hop,
            1 <= hop,
    ;
    assert(0 <= k < out_len) by (nonlinear_arith)
        requires
            0 <= k < len,
            frames * hop >= len,
            out_len == frames * hop + ws,
            ws >= 1,
    ;
    // The frame at the hop below `k` covers cell `k`.
    let qs = k / hop;
    vstd::arithmetic::div_mod::lemma_fundamental_div_mod(k, hop);
    vstd::arithmetic::div_mod::lemma_div_pos_is_pos(k, hop);
    let i = qs * hop;
    assert(i == hop * qs) by (nonlinear_arith)
        requires
            i == qs * hop,
    ;
    assert(i <= k < i + hop);
    assert(qs < frames) by (nonlinear_arith)
        requires
            i == qs * hop,
            i <= k < len,
            frames * hop >= len,
            1 <= hop,
            0 <= qs,
            frames >= 0,
            k < frames * hop,
    ;
    lemma_unit_scale_positions(i);
    let l0 = frame_len_spec(len, i, ws);
    assert(k - i < l0);
    assert(i + l0 <= out_len) by (nonlinear_arith)
        requires
            i == qs * hop,
            0 <= qs < frames,
            l0 <= ws,
            out_len == frames * hop + ws,
            1 <= hop,
    ;
    let l = clip_len(l0, i, out_len);
    assert(l == l0);
    lemma_ola_unit_acc(sig, win, ws, hop, out_len, qs, k);
    lemma_ola_unit_acc(sig, win, ws, hop, out_len, qs + 1, k);
    lemma_ola_unit_acc(sig, win, ws, hop, out_len, frames, k);
    let w_before = ola_wsum_at(len, win, ONE as int, ws, hop, out_len, qs, k);
    let w_after = ola_wsum_at(len, win, ONE as int, ws, hop, out_len, qs + 1, k);
    assert(wcontrib_at(win, i, l, k) == ONE);
    assert(w_after == w_before + ONE);
    lemma_ola_wsum_monotone(len, win, ONE as int, ws, hop, out_len, qs + 1, frames, k);
    let wsum = ola_wsum_at(len, win, ONE as int, ws, hop, out_len, frames, k);
    let sum = ola_sum_at(sig, win, ONE as int, ws, hop, out_len, frames, k);
    assert(wsum >= ONE);
    assert(sum * ONE == wsum * sig[k]);
    let x = sig[k] as int;
    assert(norm_div(sum, wsum) == div_fp(sum * ONE, wsum));
    assert(div_fp(wsum * x, wsum) == x) by {
        if x >= 0 {
            vstd::arithmetic::div_mod::lemma_div_multiples_vanish(x, wsum);
        } else {
            vstd::arithmetic::div_mod::lemma_div_multiples_vanish(-x, wsum);
            assert(wsum * (-x) == -(wsum * x)) by (nonlinear_arith);
        }
    }
    assert(ola_spec(sig, win, ONE as int, ws, hop)[k] == norm_div(sum, wsum) as i64);
}

} // verus!
