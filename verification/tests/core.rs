use timestretch::fft::{fft, ifft, istft, stft};
use timestretch::fixed::{atan2_q, cos_q, isqrt, sin_q, wrap_phase, AMP_LIMIT, ONE, TAU_Q};
use timestretch::merge::merge;
use timestretch::ola::ola;
use timestretch::signal::TimeDomainSignal;
use timestretch::sola::{align_search, sola};
use timestretch::windows::{build_window, hann_window};

fn sine_signal(len: usize, period: f64, amp: f64) -> Vec<i64> {
    let mut out = Vec::new();
    for i in 0..len {
        let v = amp * (2.0 * std::f64::consts::PI * (i as f64) / period).sin();
        out.push((v * ONE as f64) as i64);
    }
    out
}

fn rect_shape(_x: i64, n: usize) -> i64 {
    ONE / (n as i64)
}

fn zero_shape(_x: i64, _n: usize) -> i64 {
    0
}

#[test]
fn window_symmetry_hann() {
    for &n in &[8usize, 16, 17, 64, 1024] {
        let w = build_window(hann_window, n);
        assert_eq!(w.len(), n);
        for i in 0..n {
            assert_eq!(w[i], w[n - 1 - i], "slot {} of window size {}", i, n);
        }
    }
}

#[test]
fn window_hann_center_peak_and_edges() {
    let n = 16usize;
    let w = build_window(hann_window, n);
    // The squared-cosine shape scaled by 1/n peaks near ONE/n at the center
    // and falls toward zero at the edges.
    let peak = ONE / n as i64;
    assert!(w[7] > peak / 2, "center weight {} too small", w[7]);
    assert!(w[8] > peak / 2);
    assert!(w[0] < peak / 8, "edge weight {} too large", w[0]);
    for i in 0..n {
        assert!(w[i] >= 0 && w[i] <= ONE);
    }
}

#[test]
fn stft_istft_round_trip() {
    // A rectangular window of weight 1/n has squared values that sum to a
    // constant across any 50%-overlap tiling, so analysis followed by
    // synthesis reproduces the signal (up to fixed-point truncation).
    let ws = 16usize;
    let hop = 8usize;
    let len = 64usize;
    let samples = sine_signal(len, 12.0, 0.5);
    let signal = TimeDomainSignal::from_iter(44100, samples.clone());
    let window = build_window(rect_shape, ws);
    let m = stft(&signal, ws, hop, &window);
    assert_eq!(m.len(), (len + hop - 1) / hop);
    for row in &m {
        assert_eq!(row.len(), ws);
    }
    let out = istft(m, ws, hop, len, &window);
    assert_eq!(out.len(), len);
    let tol = ONE / 50; // about 0.02 of full scale, from truncation and twiddle rounding
    for k in 0..len {
        let d = (out[k] - samples[k]).abs();
        assert!(
            d <= tol,
            "cell {}: reconstructed {} expected {} (diff {})",
            k,
            out[k],
            samples[k],
            d
        );
    }
}

#[test]
fn fft_of_constant_concentrates_in_bin_zero() {
    let n = 16usize;
    let c = ONE / 4;
    let frame = vec![c; n];
    let spec = fft(&frame);
    assert_eq!(spec.len(), n);
    // Bin zero carries n times the constant; the rest is rounding noise.
    let want = (n as i64) * c;
    assert!((spec[0].re - want).abs() <= want / 100);
    assert!(spec[0].im.abs() <= want / 100);
    for k in 1..n {
        assert!(spec[k].re.abs() <= want / 100, "bin {} leaked {}", k, spec[k].re);
        assert!(spec[k].im.abs() <= want / 100);
    }
}

#[test]
fn ifft_undoes_fft_scaled_by_length() {
    let n = 32usize;
    let frame = sine_signal(n, 7.3, 0.4);
    let spec = fft(&frame);
    let back = ifft(&spec);
    assert_eq!(back.len(), n);
    let tol = (n as i64) * (ONE / 200);
    for k in 0..n {
        let want = (n as i64) * frame[k];
        assert!(
            (back[k] - want).abs() <= tol,
            "cell {}: {} vs {}",
            k,
            back[k],
            want
        );
    }
}

#[test]
fn ola_identity_at_unit_scale() {
    let ws = 16usize;
    let hop = 8usize;
    let len = 128usize;
    let samples = sine_signal(len, 16.0, 0.5);
    let signal = TimeDomainSignal::from_iter(8000, samples.clone());
    let out = ola(signal, ONE, ws, hop, hann_window);
    assert_eq!(out.sample_rate(), 8000);
    // Interior cells reproduce the input exactly up to truncation: every
    // contribution at a cell carries the very sample that lives there.
    let got = out.samples();
    for k in ws..(len - ws) {
        let d = (got[k] - samples[k]).abs();
        assert!(d <= ONE / 100, "cell {}: {} vs {}", k, got[k], samples[k]);
    }
}

#[test]
fn ola_length_law() {
    for &(len, ws, hop, scale) in &[
        (100usize, 16usize, 8usize, ONE),
        (100, 16, 8, 3 * ONE / 2),
        (97, 13, 5, 2 * ONE),
        (64, 16, 16, ONE / 2),
        (1, 4, 3, 5 * ONE),
    ] {
        let samples = sine_signal(len, 9.0, 0.25);
        let signal = TimeDomainSignal::from_iter(8000, samples);
        let out = ola(signal, scale, ws, hop, hann_window);
        let frames = (len + hop - 1) / hop;
        let synth_hop = ((hop as i64) * scale + ONE / 2) / ONE;
        let want = frames * (synth_hop as usize) + ws;
        assert_eq!(out.num_samples(), want, "len {} ws {} hop {} scale {}", len, ws, hop, scale);
    }
}

#[test]
fn sola_length_law_and_rate() {
    let len = 200usize;
    let ws = 20usize;
    let hop = 10usize;
    let scale = 2 * ONE;
    let samples = sine_signal(len, 10.0, 0.5);
    let signal = TimeDomainSignal::from_iter(22050, samples);
    let out = sola(signal, scale, ws, hop, hann_window);
    let frames = (len + hop - 1) / hop;
    let synth_hop = ((hop as i64) * scale + ONE / 2) / ONE;
    assert_eq!(out.num_samples(), frames * (synth_hop as usize) + ws);
    assert_eq!(out.sample_rate(), 22050);
}

#[test]
fn sola_alignment_search_bound_and_choice() {
    // The synthesized buffer repeats every 8 cells; the segment matches best
    // at offset 8 within the span [4, 4 + count).
    let mut nrm: Vec<i64> = Vec::new();
    for k in 0..64 {
        nrm.push(if (k / 4) % 2 == 0 { 1000 } else { -1000 });
    }
    let wseg: Vec<i64> = (0..16).map(|k| if (k / 4) % 2 == 0 { 1000 } else { -1000 }).collect();
    let idx = 4usize;
    let overlap0 = 16usize;
    let count = 8usize;
    let j = align_search(&wseg, &nrm, idx, overlap0, count);
    assert!(j >= idx);
    assert!(j < idx + count);
    assert_eq!(j, 8);
    // With no candidate the search answers the starting offset.
    let j0 = align_search(&wseg, &nrm, idx, overlap0, 0);
    assert_eq!(j0, idx);
    // On a tie (every candidate area is zero) the first candidate wins.
    let flat = vec![0i64; 16];
    let jt = align_search(&flat, &nrm, idx, overlap0, count);
    assert_eq!(jt, idx);
}

#[test]
fn zero_weight_cells_come_out_zero() {
    // A shape that is zero everywhere accumulates zero weight at every cell:
    // normalization must yield exact zeros, never a division blowup.
    let len = 40usize;
    let samples = sine_signal(len, 7.0, 0.9);
    let signal = TimeDomainSignal::from_iter(8000, samples);
    let out = ola(signal, ONE, 8, 4, zero_shape);
    for (k, &v) in out.samples().iter().enumerate() {
        assert_eq!(v, 0, "cell {}", k);
    }
}

#[test]
fn istft_zero_weight_tail_is_zero() {
    // One frame placed at offset zero leaves the tail of a longer buffer
    // untouched: its weight is zero there and the output is exactly zero.
    let ws = 8usize;
    let hop = 4usize;
    let window = build_window(hann_window, ws);
    let mut frame = vec![timestretch::complex::Complex::zero(); ws];
    frame[0].re = ONE;
    let out = istft(vec![frame], ws, hop, 32, &window);
    assert_eq!(out.len(), 32);
    for k in ws..32 {
        assert_eq!(out[k], 0, "tail cell {}", k);
    }
}

#[test]
fn phase_primitives_stay_in_range() {
    for p in [0i64, 1, TAU_Q / 4, TAU_Q / 2, TAU_Q - 1] {
        let c = cos_q(p);
        let s = sin_q(p);
        assert!(-ONE <= c && c <= ONE);
        assert!(-ONE <= s && s <= ONE);
    }
    assert_eq!(cos_q(0), ONE);
    assert!(wrap_phase(-1) == TAU_Q - 1);
    assert!(wrap_phase(TAU_Q) == 0);
    assert!(wrap_phase(TAU_Q + 5) == 5);
    for &(y, x) in &[(0i64, 100i64), (100, 0), (-100, 0), (0, -100), (3, 4), (-3, -4)] {
        let a = atan2_q(y, x);
        assert!(0 <= a && a < TAU_Q, "atan2({}, {}) = {}", y, x, a);
    }
    assert_eq!(atan2_q(0, 123), 0);
    // A right angle, within the approximation's tolerance.
    let quarter = atan2_q(1000, 0);
    assert!((quarter - TAU_Q / 4).abs() < TAU_Q / 200);
}

#[test]
fn isqrt_exact_values() {
    assert_eq!(isqrt(0), 0);
    assert_eq!(isqrt(1), 1);
    assert_eq!(isqrt(2), 1);
    assert_eq!(isqrt(144), 12);
    assert_eq!(isqrt(145), 12);
    assert_eq!(isqrt((1u128 << 90) - 1), (1u64 << 45) - 1);
}

#[test]
fn merge_adds_pairs() {
    let a = TimeDomainSignal::from_iter(8000, vec![1, 2, 3]);
    let b = TimeDomainSignal::from_iter(8000, vec![10, 20, 30]);
    let m = merge(a, b, |x: i64, y: i64| x + y);
    assert_eq!(m.into_samples(), vec![11, 22, 33]);
}

#[test]
fn normalize_scales_to_full_range() {
    let mut s = TimeDomainSignal::from_iter(8000, vec![ONE / 4, -ONE / 2, ONE / 8]);
    s.normalize();
    let got = s.into_samples();
    assert_eq!(got[1], -ONE);
    assert_eq!(got[0], ONE / 2);
    assert_eq!(got[2], ONE / 4);
}

#[test]
fn signal_accessors() {
    let s = TimeDomainSignal::from_fn(44100, 5, |i: usize| (i as i64) * 10);
    assert_eq!(s.sample_rate(), 44100);
    assert_eq!(s.num_samples(), 5);
    assert_eq!(s.window(1, 4), vec![10, 20, 30]);
    let z = TimeDomainSignal::from_zeros(3, 8000);
    assert_eq!(z.into_samples(), vec![0, 0, 0]);
}

#[test]
fn ola_stretch_carries_content() {
    // Doubling the scale doubles the synthesis grid; the stretched middle
    // still carries audible signal, not silence.
    let len = 256usize;
    let samples = sine_signal(len, 32.0, 0.5);
    let signal = TimeDomainSignal::from_iter(8000, samples);
    let out = ola(signal, 2 * ONE, 32, 16, hann_window);
    let got = out.samples();
    let mid = &got[64..got.len() - 64];
    let peak = mid.iter().map(|v| v.abs()).max().unwrap();
    assert!(peak > ONE / 8, "stretched output too quiet: peak {}", peak);
}

#[test]
fn sola_stretch_carries_content() {
    let len = 256usize;
    let samples = sine_signal(len, 32.0, 0.5);
    let signal = TimeDomainSignal::from_iter(8000, samples);
    let out = sola(signal, 2 * ONE, 32, 16, hann_window);
    let got = out.samples();
    let mid = &got[64..got.len() - 64];
    let peak = mid.iter().map(|v| v.abs()).max().unwrap();
    assert!(peak > ONE / 8, "stretched output too quiet: peak {}", peak);
}

#[test]
fn ola_amplitude_bound_from_amp_limit() {
    // Every engine output stays within the accumulator bound.
    let len = 50usize;
    let samples = vec![AMP_LIMIT; len];
    let signal = TimeDomainSignal::from_iter(8000, samples);
    let out = ola(signal, ONE, 8, 4, hann_window);
    for &v in out.samples().iter() {
        assert!(v.abs() <= AMP_LIMIT);
    }
}
