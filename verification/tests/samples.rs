use timestretch::fixed::ONE;
use timestretch::sample::{AudioSample, ConvertSample, ConvertSamples, SampleFormat};

#[test]
fn sample_formats_and_bit_widths() {
    assert_eq!(<i16 as AudioSample>::sample_format(), SampleFormat::Int);
    assert_eq!(<i16 as AudioSample>::bits_per_sample(), 16);
    assert_eq!(<i32 as AudioSample>::sample_format(), SampleFormat::Int);
    assert_eq!(<i64 as AudioSample>::sample_format(), SampleFormat::Float);
    assert_eq!(<i64 as AudioSample>::bits_per_sample(), 32);
}

#[test]
fn convert_i16_widening_and_narrowing() {
    let x: i16 = 1234;
    let wide: i32 = x.convert_sample();
    assert_eq!(wide, 1234 * 65536);
    let back: i16 = wide.convert_sample();
    assert_eq!(back, 1234);
    let neg: i32 = (-2i16).convert_sample();
    assert_eq!(neg, -131072);
    let back_neg: i16 = neg.convert_sample();
    assert_eq!(back_neg, -2);
}

#[test]
fn convert_to_fixed_point_and_back() {
    let full: i16 = 32767;
    let fp: i64 = full.convert_sample();
    assert_eq!(fp, ONE);
    let back: i16 = fp.convert_sample();
    assert_eq!(back, 32767);

    let half: i16 = 16384;
    let fp_half: i64 = half.convert_sample();
    // 16384 / 32767 of a unit, truncated.
    assert_eq!(fp_half, (16384i64 * ONE) / 32767);
    let back_half: i16 = fp_half.convert_sample();
    assert!((back_half as i64 - 16384).abs() <= 1);

    let min16: i16 = -32768;
    let fp_min: i64 = min16.convert_sample();
    assert_eq!(fp_min, -ONE, "full negative scale saturates at minus one unit");
}

#[test]
fn convert_fixed_point_saturates() {
    let loud: i64 = 3 * ONE;
    let s16: i16 = loud.convert_sample();
    assert_eq!(s16, 32767);
    let quiet: i64 = -3 * ONE;
    let s16n: i16 = quiet.convert_sample();
    assert_eq!(s16n, -32768);
    let s32: i32 = loud.convert_sample();
    assert_eq!(s32, 2147483647);
}

#[test]
fn convert_rounds_to_nearest() {
    // Half a 16-bit step rounds away from zero.
    let v: i64 = ONE / 2;
    let s: i16 = v.convert_sample();
    assert!((s as i64 - 16384).abs() <= 1, "got {}", s);
}

#[test]
fn convert_whole_buffers() {
    let buf: Vec<i16> = vec![0, 100, -100, 32767];
    let fp: Vec<i64> = buf.convert_samples();
    assert_eq!(fp.len(), 4);
    assert_eq!(fp[0], 0);
    assert_eq!(fp[3], ONE);
    let back: Vec<i16> = fp.convert_samples();
    assert_eq!(back[0], 0);
    assert!((back[1] as i64 - 100).abs() <= 1);
    assert!((back[2] as i64 + 100).abs() <= 1);
    assert_eq!(back[3], 32767);
}
