use timestretch::fixed::ONE;
use timestretch::phase_vocoder::phase_vocoder;
use timestretch::signal::TimeDomainSignal;
use timestretch::windows::hann_window;

/// Magnitude of the signal at one frequency, by direct correlation.
fn magnitude_at(samples: &[i64], sample_rate: f64, freq: f64) -> f64 {
    let mut re = 0.0f64;
    let mut im = 0.0f64;
    for (i, &s) in samples.iter().enumerate() {
        let v = s as f64 / ONE as f64;
        let ph = 2.0 * std::f64::consts::PI * freq * (i as f64) / sample_rate;
        re += v * ph.cos();
        im += v * ph.sin();
    }
    (re * re + im * im).sqrt()
}

fn sine_440(sample_rate: u32, seconds: f64) -> TimeDomainSignal {
    let n = (sample_rate as f64 * seconds) as usize;
    let mut samples = Vec::with_capacity(n);
    for i in 0..n {
        let v = 0.5 * (2.0 * std::f64::consts::PI * 440.0 * (i as f64) / sample_rate as f64).sin();
        samples.push((v * ONE as f64) as i64);
    }
    TimeDomainSignal::from_iter(sample_rate, samples)
}

#[test]
fn vocoder_length_for_small_input() {
    let signal = sine_440(8000, 0.05);
    let len = signal.num_samples();
    let ws = 64usize;
    let hop = 16usize;
    let scale = 2 * ONE;
    let out = phase_vocoder(signal, scale, ws, hop, ONE / 2, hann_window);
    let frames = (len + hop - 1) / hop;
    let synth_frames = ((frames as i64 * scale) + ONE - 1) / ONE;
    assert_eq!(out.num_samples(), synth_frames as usize * hop + ws);
    assert_eq!(out.sample_rate(), 8000);
}

#[test]
fn vocoder_double_length_keeps_pitch() {
    // One second of a 440 Hz sine at 44100 Hz, stretched by two: the output
    // lasts about two seconds and its dominant frequency stays at 440 Hz.
    let sample_rate = 44100u32;
    let signal = sine_440(sample_rate, 1.0);
    let ws = 1024usize;
    let hop = 256usize;
    let scale = 2 * ONE;
    let out = phase_vocoder(signal, scale, ws, hop, ONE / 2, hann_window);
    let out_len = out.num_samples();
    // The stretched content spans about 2 * 44100 samples (within a couple of
    // hops of rounding), plus the final window.
    let content = out_len as i64 - ws as i64;
    assert!(
        (content - 2 * 44100).abs() <= 2 * hop as i64,
        "content length {} not about {}",
        content,
        2 * 44100
    );
    // Probe the spectrum around 440 Hz: the peak must stay within a few Hz.
    let samples = out.into_samples();
    let probe = &samples[ws..samples.len() - ws];
    let mut best_f = 0.0f64;
    let mut best_m = 0.0f64;
    let mut f = 400.0f64;
    while f <= 480.0 {
        let m = magnitude_at(probe, sample_rate as f64, f);
        if m > best_m {
            best_m = m;
            best_f = f;
        }
        f += 1.0;
    }
    assert!(
        (best_f - 440.0).abs() <= 3.0,
        "dominant frequency drifted to {} Hz",
        best_f
    );
    // And the stretched tone is much louder at 440 Hz than well away from it.
    let off = magnitude_at(probe, sample_rate as f64, 550.0);
    assert!(best_m > 4.0 * off, "peak {} vs off-peak {}", best_m, off);
}

#[test]
fn vocoder_silence_stays_silent() {
    let signal = TimeDomainSignal::from_zeros(400, 8000);
    let out = phase_vocoder(signal, 3 * ONE / 2, 32, 8, ONE / 2, hann_window);
    for &v in out.samples().iter() {
        assert_eq!(v, 0);
    }
}
