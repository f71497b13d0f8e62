//! Synchronized overlap-add: overlap-add with a per-hop alignment search.
//! Before placing a frame, the nominal synthesis offset is backed off by a
//! tenth of a window and a small neighborhood is scanned for the offset whose
//! windowed segment best correlates with the audio already synthesized (the
//! lowest negated dot product wins, first strict minimum kept).  The search
//! reads already-normalized audio, so every placed span is renormalized as
//! soon as it lands.

use vstd::prelude::*;

use crate::accum::{AccBuf, WEIGHT_CAP, contrib_at, wcontrib_at, norm_div};
use crate::fft::{stft_frames, clip_len};
use crate::fixed::{ONE, HALF, AMP_LIMIT, div_fp, lemma_div_fp_bounded};
use crate::ola::{engine_args_ok, synth_pos_spec, synth_hop_spec, ola_out_len, frame_len_spec};
use crate::signal::TimeDomainSignal;
use crate::windows::{build_window, shape_fn_req, shape_fn_bounded, window_result};

verus! {

/// The smaller of two values.
pub open spec fn smin(a: int, b: int) -> int {
    if a <= b {
        a
    } else {
        b
    }
}

/// Subtraction that stops at zero.
pub open spec fn ssub(a: int, b: int) -> int {
    if a >= b {
        a - b
    } else {
        0
    }
}

/// The synthesis state after some hops: both accumulators and the offset the
/// last placed frame landed on.
pub struct SolaState {
    pub sums: Seq<int>,
    pub weights: Seq<int>,
    pub last_index: int,
}

/// The windowed segment of the frame at input offset `i`: `l` input samples,
/// each scaled by its window weight.
pub open spec fn wseg_spec(sig: Seq<i64>, win: Seq<i64>, i: int, l: int) -> Seq<i64> {
    Seq::new(l as nat, |k: int| div_fp(sig[i + k] * win[k], ONE as int) as i64)
}

/// The synthesized audio a state shows: every cell weight-normalized.
pub open spec fn state_norm(st: SolaState, out_len: int) -> Seq<i64> {
    Seq::new(out_len as nat, |k: int| norm_div(st.sums[k], st.weights[k]) as i64)
}

/// The correlation area of a candidate: the negated dot product of the first
/// `ov` windowed-segment samples with the normalized output at offset `j`.
/// The most similar candidate has the lowest area.
pub open spec fn area_spec(wseg: Seq<i64>, nrm: Seq<i64>, j: int, ov: int) -> int
    decreases ov,
{
    if ov <= 0 {
        0
    } else {
        area_spec(wseg, nrm, j, ov - 1) - wseg[ov - 1] * nrm[j + ov - 1]
    }
}

/// The offset the scan settles on: candidates `idx + s` for `s` up to `count`,
/// candidate `s` correlated over `ov0 - s` cells, the first strict minimum
/// kept.
pub open spec fn search_rec(
    wseg: Seq<i64>,
    nrm: Seq<i64>,
    idx: int,
    ov0: int,
    count: int,
    s: int,
    best_j: int,
    best_a: int,
) -> int
    decreases count - s,
{
    if s >= count {
        best_j
    } else {
        let a = area_spec(wseg, nrm, idx + s, ov0 - s);
        if a < best_a {
            search_rec(wseg, nrm, idx, ov0, count, s + 1, idx + s, a)
        } else {
            search_rec(wseg, nrm, idx, ov0, count, s + 1, best_j, best_a)
        }
    }
}

/// The scan never leaves its candidates: it answers the running best or a
/// candidate not yet visited.
pub proof fn lemma_search_rec_range(
    wseg: Seq<i64>,
    nrm: Seq<i64>,
    idx: int,
    ov0: int,
    count: int,
    s: int,
    best_j: int,
    best_a: int,
)
    requires
        0 <= s,
    ensures
        search_rec(wseg, nrm, idx, ov0, count, s, best_j, best_a) == best_j || idx + s
            <= search_rec(wseg, nrm, idx, ov0, count, s, best_j, best_a) < idx + count,
    decreases count - s,
{
    if s < count {
        let a = area_spec(wseg, nrm, idx + s, ov0 - s);
        if a < best_a {
            lemma_search_rec_range(wseg, nrm, idx, ov0, count, s + 1, idx + s, a);
        } else {
            lemma_search_rec_range(wseg, nrm, idx, ov0, count, s + 1, best_j, best_a);
        }
    }
}

/// Where hop `q` (a hop after the first) places its frame: the nominal scaled
/// offset, backed off by a tenth of a window, then moved to the best-aligned
/// candidate within a fifth of a window (bounded by the signal tail, the
/// buffer end, and the last frame's window extent).
pub open spec fn sola_pos(
    sig: Seq<i64>,
    win: Seq<i64>,
    scale: int,
    ws: int,
    hop: int,
    out_len: int,
    st: SolaState,
    q: int,
) -> int {
    let i = q * hop;
    let nominal = synth_pos_spec(i, scale);
    let idx0 = ssub(nominal, ws / 10);
    let l = frame_len_spec(sig.len() as int, i, ws);
    let ov0 = smin(smin(ssub(ws, idx0) + st.last_index, ssub(out_len, idx0)), l);
    let end = smin(smin(idx0 + ws / 5, out_len - l), idx0 + ov0);
    let count = ssub(end, idx0);
    search_rec(
        wseg_spec(sig, win, i, l),
        state_norm(st, out_len),
        idx0,
        ov0,
        count,
        0,
        idx0,
        i128::MAX as int,
    )
}

/// One hop: place the windowed frame at its chosen offset (the scaled offset
/// for the first hop, the search result after) and record that offset.
pub open spec fn sola_step(
    sig: Seq<i64>,
    win: Seq<i64>,
    scale: int,
    ws: int,
    hop: int,
    out_len: int,
    st: SolaState,
    q: int,
) -> SolaState {
    let i = q * hop;
    let l = frame_len_spec(sig.len() as int, i, ws);
    let pos = if q == 0 {
        0
    } else {
        sola_pos(sig, win, scale, ws, hop, out_len, st, q)
    };
    let l2 = clip_len(l, pos, out_len);
    SolaState {
        sums: Seq::new(out_len as nat, |k: int| st.sums[k] + contrib_at(sig, win, i, pos, l2, k)),
        weights: Seq::new(out_len as nat, |k: int| st.weights[k] + wcontrib_at(win, pos, l2, k)),
        last_index: pos,
    }
}

/// The synthesis state after the first `q` hops.
pub open spec fn sola_state(
    sig: Seq<i64>,
    win: Seq<i64>,
    scale: int,
    ws: int,
    hop: int,
    out_len: int,
    q: int,
) -> SolaState
    decreases q,
{
    if q <= 0 {
        SolaState {
            sums: Seq::new(out_len as nat, |k: int| 0int),
            weights: Seq::new(out_len as nat, |k: int| 0int),
            last_index: 0,
        }
    } else {
        sola_step(
            sig,
            win,
            scale,
            ws,
            hop,
            out_len,
            sola_state(sig, win, scale, ws, hop, out_len, q - 1),
            q - 1,
        )
    }
}

/// The whole synchronized overlap-add output: the normalized view of the
/// state after every hop is placed.
pub open spec fn sola_spec(sig: Seq<i64>, win: Seq<i64>, scale: int, ws: int, hop: int) -> Seq<
    i64,
> {
    let out_len = ola_out_len(sig.len() as int, scale, ws, hop);
    let frames = stft_frames(sig.len() as int, hop);
    state_norm(sola_state(sig, win, scale, ws, hop, out_len, frames), out_len)
}

/// The alignment offset stays in the search span: a hop after the first lands
/// on the backed-off nominal offset itself or strictly within a fifth of a
/// window above it (the span clamped to the buffer and overlap bounds).
pub proof fn lemma_sola_search_bound(
    sig: Seq<i64>,
    win: Seq<i64>,
    scale: int,
    ws: int,
    hop: int,
    out_len: int,
    st: SolaState,
    q: int,
)
    requires
        q >= 1,
        ws >= 1,
    ensures
        ({
            let idx0 = ssub(synth_pos_spec(q * hop, scale), ws / 10);
            let pos = sola_pos(sig, win, scale, ws, hop, out_len, st, q);
            idx0 <= pos && (pos == idx0 || pos < idx0 + ws / 5)
        }),
{
    let i = q * hop;
    let nominal = synth_pos_spec(i, scale);
    let idx0 = ssub(nominal, ws / 10);
    let l = frame_len_spec(sig.len() as int, i, ws);
    let ov0 = smin(smin(ssub(ws, idx0) + st.last_index, ssub(out_len, idx0)), l);
    let end = smin(smin(idx0 + ws / 5, out_len - l), idx0 + ov0);
    let count = ssub(end, idx0);
    lemma_search_rec_range(
        wseg_spec(sig, win, i, l),
        state_norm(st, out_len),
        idx0,
        ov0,
        count,
        0,
        idx0,
        i128::MAX as int,
    );
    assert(count <= ws / 5);
}

/// Scan `count` candidate offsets starting at `idx`, candidate `s` correlated
/// over `overlap0 - s` cells, and return the first strict minimum of the
/// correlation area (the starting offset when there is no candidate).
pub fn align_search(
    wseg: &Vec<i64>,
    nrm: &Vec<i64>,
    idx: usize,
    overlap0: usize,
    count: usize,
) -> (j: usize)
    requires
        count <= overlap0,
        overlap0 <= wseg@.len(),
        idx + overlap0 <= nrm@.len(),
        forall|k: int| 0 <= k < wseg@.len() ==> -AMP_LIMIT <= #[trigger] wseg@[k] <= AMP_LIMIT,
        forall|k: int| 0 <= k < nrm@.len() ==> -AMP_LIMIT <= #[trigger] nrm@[k] <= AMP_LIMIT,
    ensures
        j as int == search_rec(
            wseg@,
            nrm@,
            idx as int,
            overlap0 as int,
            count as int,
            0,
            idx as int,
            i128::MAX as int,
        ),
        idx <= j,
        j == idx || (j as int) < idx as int + count as int,
{
    let ghost w = wseg@;
    let ghost n = nrm@;
    let n_len: usize = nrm.len();
    let w_len: usize = wseg.len();
    let mut best_j: usize = idx;
    let mut best_a: i128 = i128::MAX;
    let mut s: usize = 0;
    while s < count
        invariant
            s <= count,
            count <= overlap0,
            overlap0 <= w_len,
            idx + overlap0 <= n_len,
            n_len == n.len(),
            w_len == w.len(),
            w == wseg@,
            n == nrm@,
            forall|k: int| 0 <= k < w.len() ==> -AMP_LIMIT <= #[trigger] w[k] <= AMP_LIMIT,
            forall|k: int| 0 <= k < n.len() ==> -AMP_LIMIT <= #[trigger] n[k] <= AMP_LIMIT,
            idx <= best_j,
            best_j == idx || (best_j as int) < idx as int + s as int,
            search_rec(w, n, idx as int, overlap0 as int, count as int, s as int, best_j as int, best_a as int)
                == search_rec(
                w,
                n,
                idx as int,
                overlap0 as int,
                count as int,
                0,
                idx as int,
                i128::MAX as int,
            ),
        decreases count - s,
    {
        let ov: usize = overlap0 - s;
        let j: usize = idx + s;
        let mut a: i128 = 0;
        let mut k: usize = 0;
        while k < ov
            invariant
                k <= ov,
                ov == overlap0 - s,
                j == idx + s,
                s < count,
                count <= overlap0,
                overlap0 <= w_len,
                idx + overlap0 <= n_len,
                n_len == n.len(),
                w_len == w.len(),
                w == wseg@,
                n == nrm@,
                forall|t: int| 0 <= t < w.len() ==> -AMP_LIMIT <= #[trigger] w[t] <= AMP_LIMIT,
                forall|t: int| 0 <= t < n.len() ==> -AMP_LIMIT <= #[trigger] n[t] <= AMP_LIMIT,
                a == area_spec(w, n, j as int, k as int),
                -(k as i128) * 0x1000000000000 <= a <= (k as i128) * 0x1000000000000,
            decreases ov - k,
        {
            let wv: i64 = wseg[k];
            let nv: i64 = nrm[j + k];
            proof {
                assert(-0x1000000000000 <= (wv as i128) * (nv as i128) <= 0x1000000000000)
                    by (nonlinear_arith)
                    requires
                        -AMP_LIMIT <= wv <= AMP_LIMIT,
                        -AMP_LIMIT <= nv <= AMP_LIMIT,
                        AMP_LIMIT == 16777216,
                ;
            }
            a = a - (wv as i128) * (nv as i128);
            k += 1;
        }
        proof {
            assert(search_rec(
                w,
                n,
                idx as int,
                overlap0 as int,
                count as int,
                s as int,
                best_j as int,
                best_a as int,
            ) == if (a as int) < (best_a as int) {
                search_rec(
                    w,
                    n,
                    idx as int,
                    overlap0 as int,
                    count as int,
                    s as int + 1,
                    j as int,
                    a as int,
                )
            } else {
                search_rec(
                    w,
                    n,
                    idx as int,
                    overlap0 as int,
                    count as int,
                    s as int + 1,
                    best_j as int,
                    best_a as int,
                )
            });
        }
        if a < best_a {
            best_j = j;
            best_a = a;
        }
        s += 1;
    }
    best_j
}

fn make_wseg(xs: &Vec<i64>, win: &Vec<i64>, off: usize, l: usize) -> (r: Vec<i64>)
    requires
        off + l <= xs@.len(),
        l <= win@.len(),
        forall|t: int| 0 <= t < xs@.len() ==> -AMP_LIMIT <= #[trigger] xs@[t] <= AMP_LIMIT,
        forall|t: int| 0 <= t < win@.len() ==> 0 <= #[trigger] win@[t] <= ONE,
    ensures
        r@ == wseg_spec(xs@, win@, off as int, l as int),
        r@.len() == l,
        forall|k: int| 0 <= k < l ==> -AMP_LIMIT <= #[trigger] r@[k] <= AMP_LIMIT,
{
    let xs_len: usize = xs.len();
    let mut out: Vec<i64> = Vec::new();
    let mut k: usize = 0;
    while k < l
        invariant
            k <= l,
            off + l <= xs_len,
            xs_len == xs@.len(),
            l <= win@.len(),
            forall|t: int| 0 <= t < xs@.len() ==> -AMP_LIMIT <= #[trigger] xs@[t] <= AMP_LIMIT,
            forall|t: int| 0 <= t < win@.len() ==> 0 <= #[trigger] win@[t] <= ONE,
            out@.len() == k,
            forall|t: int|
                0 <= t < k ==> #[trigger] out@[t] == wseg_spec(xs@, win@, off as int, l as int)[t]
                    && -AMP_LIMIT <= out@[t] <= AMP_LIMIT,
        decreases l - k,
    {
        let sv: i64 = xs[off + k];
        let wv: i64 = win[k];
        proof {
            assert((-AMP_LIMIT) * (wv as int) <= sv * wv <= AMP_LIMIT * (wv as int)
                && -0x10000000000000 <= sv * wv <= 0x10000000000000) by (nonlinear_arith)
                requires
                    -AMP_LIMIT <= sv <= AMP_LIMIT,
                    0 <= wv <= ONE,
                    AMP_LIMIT == 16777216,
                    ONE == 1048576,
            ;
            assert((-AMP_LIMIT) * ONE <= sv * wv <= AMP_LIMIT * ONE) by (nonlinear_arith)
                requires
                    (-AMP_LIMIT) * (wv as int) <= sv * wv <= AMP_LIMIT * (wv as int),
                    0 <= wv <= ONE,
                    AMP_LIMIT == 16777216,
                    ONE == 1048576,
            ;
            lemma_div_fp_bounded(sv * wv, ONE as int, AMP_LIMIT as int);
        }
        let v: i64 = (sv * wv) / ONE;
        out.push(v);
        k += 1;
    }
    proof {
        assert(out@ =~= wseg_spec(xs@, win@, off as int, l as int));
    }
    out
}


fn place_and_renorm(
    acc: &mut AccBuf,
    nrm: &mut Vec<i64>,
    xs: &Vec<i64>,
    xs_off: usize,
    window: &Vec<i64>,
    pos64: u64,
    l0: usize,
    out_len: usize,
)
    requires
        old(acc).wf(),
        old(acc).len_spec() == out_len,
        old(acc).bound_spec() == AMP_LIMIT as int,
        xs_off + l0 <= xs@.len(),
        l0 <= window@.len(),
        forall|t: int| 0 <= t < xs@.len() ==> -AMP_LIMIT <= #[trigger] xs@[t] <= AMP_LIMIT,
        forall|t: int| 0 <= t < window@.len() ==> 0 <= #[trigger] window@[t] <= ONE,
        old(nrm)@.len() == out_len,
        forall|k: int|
            0 <= k < out_len ==> #[trigger] old(nrm)@[k] == norm_div(
                old(acc).sum_at(k),
                old(acc).weight_at(k),
            ) as i64,
        forall|k: int| 0 <= k < out_len ==> -AMP_LIMIT <= #[trigger] old(nrm)@[k] <= AMP_LIMIT,
        forall|k: int|
            0 <= k < out_len ==> #[trigger] old(acc).weight_at(k) + ONE <= WEIGHT_CAP,
    ensures
        final(acc).wf(),
        final(acc).len_spec() == out_len,
        final(acc).bound_spec() == AMP_LIMIT as int,
        final(nrm)@.len() == out_len,
        forall|k: int|
            0 <= k < out_len ==> #[trigger] final(acc).sum_at(k) == old(acc).sum_at(k)
                + contrib_at(
                xs@,
                window@,
                xs_off as int,
                pos64 as int,
                clip_len(l0 as int, pos64 as int, out_len as int),
                k,
            ),
        forall|k: int|
            0 <= k < out_len ==> #[trigger] final(acc).weight_at(k) == old(acc).weight_at(k)
                + wcontrib_at(
                window@,
                pos64 as int,
                clip_len(l0 as int, pos64 as int, out_len as int),
                k,
            ),
        forall|k: int|
            0 <= k < out_len ==> #[trigger] final(nrm)@[k] == norm_div(
                final(acc).sum_at(k),
                final(acc).weight_at(k),
            ) as i64,
        forall|k: int| 0 <= k < out_len ==> -AMP_LIMIT <= #[trigger] final(nrm)@[k] <= AMP_LIMIT,
        forall|k: int|
            0 <= k < out_len ==> #[trigger] final(acc).weight_at(k) <= old(acc).weight_at(k) + ONE,
{
    let ghost l2_g = clip_len(l0 as int, pos64 as int, out_len as int);
    if pos64 < (out_len as u64) {
        let pos: usize = pos64 as usize;
        let l2: usize = if l0 < out_len - pos {
            l0
        } else {
            out_len - pos
        };
        proof {
            assert(l2 as int == l2_g);
        }
        acc.add_frame(xs, xs_off, window, pos, l2);
        let mut d: usize = 0;
        while d < l2
            invariant
                d <= l2,
                pos + l2 <= out_len,
                acc.wf(),
                acc.len_spec() == out_len,
                acc.bound_spec() == AMP_LIMIT as int,
                nrm@.len() == out_len,
                forall|k: int|
                    0 <= k < out_len && !(pos + d <= k < pos + l2) ==> #[trigger] nrm@[k]
                        == norm_div(acc.sum_at(k), acc.weight_at(k)) as i64,
                forall|k: int|
                    0 <= k < out_len && !(pos + d <= k < pos + l2) ==> -AMP_LIMIT
                        <= #[trigger] nrm@[k] <= AMP_LIMIT,
                forall|k: int|
                    0 <= k < out_len ==> #[trigger] acc.sum_at(k) == old(acc).sum_at(k)
                        + contrib_at(xs@, window@, xs_off as int, pos64 as int, l2_g, k),
                forall|k: int|
                    0 <= k < out_len ==> #[trigger] acc.weight_at(k) == old(acc).weight_at(k)
                        + wcontrib_at(window@, pos64 as int, l2_g, k),
            decreases l2 - d,
        {
            let v = acc.norm_value(pos + d);
            nrm[pos + d] = v;
            d += 1;
        }
    } else {
        proof {
            assert(l2_g == 0);
            assert forall|k: int| 0 <= k < out_len implies #[trigger] nrm@[k] == norm_div(
                acc.sum_at(k) + contrib_at(xs@, window@, xs_off as int, pos64 as int, l2_g, k),
                acc.weight_at(k) + wcontrib_at(window@, pos64 as int, l2_g, k),
            ) as i64 by {
                assert(contrib_at(xs@, window@, xs_off as int, pos64 as int, 0, k) == 0);
                assert(wcontrib_at(window@, pos64 as int, 0, k) == 0);
            }
        }
    }
}

/// Synchronized overlap-add: stretch `signal` by `scale_factor` (fixed-point),
/// placing the first frame at offset zero and every later frame at the offset
/// its alignment search chooses; each placed span is renormalized at once so
/// the next hop correlates against finished audio.  The output length obeys
/// the same law as plain overlap-add, for every accepted input.
#[verifier::rlimit(100)]
pub fn sola<F: Fn(i64, usize) -> i64>(
    signal: TimeDomainSignal,
    scale_factor: i64,
    window_size: usize,
    hop_length: usize,
    window_fn: F,
) -> (r: TimeDomainSignal)
    requires
        engine_args_ok(signal@, scale_factor as int, window_size as int, hop_length as int),
        shape_fn_req(window_fn, window_size as int),
        shape_fn_bounded(window_fn),
        ola_out_len(
            signal@.len() as int,
            scale_factor as int,
            window_size as int,
            hop_length as int,
        ) <= usize::MAX,
    ensures
        r.sample_rate == signal.sample_rate,
        r@.len() == ola_out_len(
            signal@.len() as int,
            scale_factor as int,
            window_size as int,
            hop_length as int,
        ),
        exists|w: Seq<i64>|
            #[trigger] window_result(window_fn, window_size as int, w) && r@ == sola_spec(
                signal@,
                w,
                scale_factor as int,
                window_size as int,
                hop_length as int,
            ),
{
    let rate = signal.sample_rate();
    let len = signal.num_samples();
    let ws = window_size;
    let hop = hop_length;
    let window = build_window(window_fn, ws);
    let ghost wseq = window@;
    proof {
        assert forall|i: int| 0 <= i < ws implies 0 <= #[trigger] wseq[i] <= ONE by {
            assert(call_ensures(
                window_fn,
                (crate::windows::win_coord(i, ws as int) as i64, ws),
                wseq[i],
            ));
        }
    }
    let frames: usize = (len + hop - 1) / hop;
    proof {
        vstd::arithmetic::div_mod::lemma_div_basics_5(len as int + hop as int - 1, hop as int);
        assert(0 <= (hop as i64) * scale_factor <= 0x20000000000000) by (nonlinear_arith)
            requires
                1 <= (hop as int) && (hop as int) <= 67108864,
                1 <= scale_factor <= 134217728,
        ;
    }
    let sh: i64 = ((hop as i64) * scale_factor + HALF) / ONE;
    proof {
        assert(frames as int == stft_frames(len as int, hop as int));
        assert(sh as int == synth_hop_spec(hop as int, scale_factor as int));
        assert(0 <= (frames as int) * (sh as int) <= ola_out_len(
            len as int,
            scale_factor as int,
            ws as int,
            hop as int,
        )) by (nonlinear_arith)
            requires
                0 <= (frames as int),
                0 <= (sh as int),
                0 < (ws as int),
                ola_out_len(len as int, scale_factor as int, ws as int, hop as int) == (
                frames as int) * (sh as int) + (ws as int),
        ;
    }
    let out_len64: u64 = (frames as u64) * (sh as u64) + (ws as u64);
    let out_len: usize = out_len64 as usize;
    let mut acc = AccBuf::new(out_len, Ghost(AMP_LIMIT as int));
    let mut nrm: Vec<i64> = Vec::new();
    let mut z: usize = 0;
    while z < out_len
        invariant
            z <= out_len,
            nrm@.len() == z,
            forall|k: int| 0 <= k < z ==> #[trigger] nrm@[k] == 0,
        decreases out_len - z,
    {
        nrm.push(0);
        z += 1;
    }
    let mut last64: u64 = 0;
    let mut q: usize = 0;
    while q < frames
        invariant
            q <= frames,
            frames == stft_frames(len as int, hop as int),
            frames <= 134217727,
            len == signal@.len(),
            out_len == ola_out_len(len as int, scale_factor as int, ws as int, hop as int),
            ws <= out_len,
            engine_args_ok(signal@, scale_factor as int, ws as int, hop as int),
            wseq == window@,
            window@.len() == ws,
            forall|i: int| 0 <= i < ws ==> 0 <= #[trigger] wseq[i] <= ONE,
            acc.wf(),
            acc.len_spec() == out_len,
            acc.bound_spec() == AMP_LIMIT as int,
            nrm@.len() == out_len,
            last64 <= 0x800000000000000,
            forall|k: int|
                0 <= k < out_len ==> #[trigger] acc.sum_at(k) == sola_state(
                    signal@,
                    wseq,
                    scale_factor as int,
                    ws as int,
                    hop as int,
                    out_len as int,
                    q as int,
                ).sums[k],
            forall|k: int|
                0 <= k < out_len ==> #[trigger] acc.weight_at(k) == sola_state(
                    signal@,
                    wseq,
                    scale_factor as int,
                    ws as int,
                    hop as int,
                    out_len as int,
                    q as int,
                ).weights[k],
            last64 as int == sola_state(
                signal@,
                wseq,
                scale_factor as int,
                ws as int,
                hop as int,
                out_len as int,
                q as int,
            ).last_index,
            forall|k: int|
                0 <= k < out_len ==> #[trigger] nrm@[k] == norm_div(
                    acc.sum_at(k),
                    acc.weight_at(k),
                ) as i64,
            forall|k: int| 0 <= k < out_len ==> -AMP_LIMIT <= #[trigger] nrm@[k] <= AMP_LIMIT,
            forall|k: int|
                0 <= k < out_len ==> #[trigger] acc.weight_at(k) <= (q as int) * (ONE as int),
        decreases frames - q,
    {
        let ghost st = sola_state(
            signal@,
            wseq,
            scale_factor as int,
            ws as int,
            hop as int,
            out_len as int,
            q as int,
        );
        proof {
            if len == 0 {
                vstd::arithmetic::div_mod::lemma_basic_div(hop as int - 1, hop as int);
                assert(false);
            }
            assert((q as int) * (hop as int) < len as int) by (nonlinear_arith)
                requires
                    0 <= (q as int),
                    (q as int) < (len as int + hop as int - 1) / (hop as int),
                    1 <= (hop as int),
                    0 < (len as int),
            ;
            assert forall|k: int| 0 <= k < out_len implies #[trigger] acc.weight_at(k) + ONE
                <= WEIGHT_CAP by {
                assert((q as int) * (ONE as int) <= 134217728 * 1048576) by (nonlinear_arith)
                    requires
                        0 <= (q as int) && (q as int) <= 134217728,
                        ONE == 1048576,
                ;
            }
        }
        let i: usize = q * hop;
        let l0: usize = if ws < len - i {
            ws
        } else {
            len - i
        };
        proof {
            assert(l0 as int == frame_len_spec(len as int, i as int, ws as int));
            assert(0 <= (i as i64) * scale_factor <= 0x400000000000000) by (nonlinear_arith)
                requires
                    0 <= (i as int) && (i as int) < 67108864,
                    1 <= scale_factor <= 134217728,
            ;
        }
        let wseg = make_wseg(signal.samples(), &window, i, l0);
        let pos64: u64;
        if q == 0 {
            pos64 = 0;
        } else {
            let nominal: i64 = ((i as i64) * scale_factor + HALF) / ONE;
            proof {
                assert(nominal as int == synth_pos_spec(i as int, scale_factor as int));
                assert(0 <= nominal <= 0x4000000000000);
            }
            let back: i64 = (ws / 10) as i64;
            let idx0u: u64 = if nominal > back {
                (nominal - back) as u64
            } else {
                0
            };
            proof {
                assert(idx0u as int == ssub(nominal as int, ws as int / 10));
            }
            let ws64: u64 = ws as u64;
            let a1: u64 = (if ws64 > idx0u {
                ws64 - idx0u
            } else {
                0
            }) + last64;
            let a2: u64 = if (out_len as u64) > idx0u {
                (out_len as u64) - idx0u
            } else {
                0
            };
            let a3: u64 = l0 as u64;
            let m12: u64 = if a1 <= a2 {
                a1
            } else {
                a2
            };
            let ov0u: u64 = if m12 <= a3 {
                m12
            } else {
                a3
            };
            let e1: u64 = idx0u + (ws / 5) as u64;
            let e2: u64 = (out_len as u64) - (l0 as u64);
            let e3: u64 = idx0u + ov0u;
            let m45: u64 = if e1 <= e2 {
                e1
            } else {
                e2
            };
            let endu: u64 = if m45 <= e3 {
                m45
            } else {
                e3
            };
            let countu: u64 = if endu > idx0u {
                endu - idx0u
            } else {
                0
            };
            let ghost idx0_g = ssub(nominal as int, ws as int / 10);
            let ghost ov0_g = smin(
                smin(ssub(ws as int, idx0_g) + st.last_index, ssub(out_len as int, idx0_g)),
                l0 as int,
            );
            let ghost count_g = ssub(
                smin(smin(idx0_g + ws as int / 5, out_len as int - l0), idx0_g + ov0_g),
                idx0_g,
            );
            proof {
                assert(ov0u as int == ov0_g);
                assert(countu as int == count_g);
                assert(nrm@ =~= state_norm(st, out_len as int));
            }
            if countu == 0 {
                pos64 = idx0u;
                proof {
                    assert(pos64 as int == sola_pos(
                        signal@,
                        wseq,
                        scale_factor as int,
                        ws as int,
                        hop as int,
                        out_len as int,
                        st,
                        q as int,
                    ));
                }
            } else {
                proof {
                    assert(idx0u < (out_len as u64));
                    assert(idx0u as int + ov0u as int <= out_len as int);
                }
                let jj = align_search(
                    &wseg,
                    &nrm,
                    idx0u as usize,
                    ov0u as usize,
                    countu as usize,
                );
                pos64 = jj as u64;
                proof {
                    assert(pos64 as int == sola_pos(
                        signal@,
                        wseq,
                        scale_factor as int,
                        ws as int,
                        hop as int,
                        out_len as int,
                        st,
                        q as int,
                    ));
                }
            }
        }
        let ghost pos_g = if q as int == 0 {
            0int
        } else {
            sola_pos(
                signal@,
                wseq,
                scale_factor as int,
                ws as int,
                hop as int,
                out_len as int,
                st,
                q as int,
            )
        };
        let ghost stn = sola_state(
            signal@,
            wseq,
            scale_factor as int,
            ws as int,
            hop as int,
            out_len as int,
            q as int + 1,
        );
        proof {
            assert(pos64 as int == pos_g);
            assert(stn == sola_step(
                signal@,
                wseq,
                scale_factor as int,
                ws as int,
                hop as int,
                out_len as int,
                st,
                q as int,
            ));
        }
        place_and_renorm(&mut acc, &mut nrm, signal.samples(), i, &window, pos64, l0, out_len);
        last64 = pos64;
        proof {
            assert forall|k: int| 0 <= k < out_len implies #[trigger] acc.sum_at(k) == stn.sums[k]
                && acc.weight_at(k) == stn.weights[k] by {
                assert(acc.sum_at(k) == st.sums[k] + contrib_at(
                    signal@,
                    wseq,
                    i as int,
                    pos_g,
                    clip_len(l0 as int, pos_g, out_len as int),
                    k,
                ));
                assert(stn.sums[k] == st.sums[k] + contrib_at(
                    signal@,
                    wseq,
                    i as int,
                    pos_g,
                    clip_len(frame_len_spec(len as int, i as int, ws as int), pos_g, out_len as int),
                    k,
                ));
            }
            assert(last64 as int == stn.last_index);
            assert forall|k: int| 0 <= k < out_len implies #[trigger] acc.weight_at(k) <= (
            q as int + 1) * (ONE as int) by {
                assert((q as int + 1) * (ONE as int) == (q as int) * (ONE as int) + ONE)
                    by (nonlinear_arith);
            }
        }
        q += 1;
    }
    proof {
        assert(nrm@ =~= sola_spec(
            signal@,
            wseq,
            scale_factor as int,
            ws as int,
            hop as int,
        ));
        assert(window_result(window_fn, ws as int, wseq) && nrm@ == sola_spec(
            signal@,
            wseq,
            scale_factor as int,
            ws as int,
            hop as int,
        ));
    }
    TimeDomainSignal { samples: nrm, sample_rate: rate }
}

} // verus!
