//! Sample normalization and mono conversion.

use tx::sample::{mono_from_pair, sample_from_i16, sample_from_i32, SAMPLE_UNIT};

fn to_float(s: i64) -> f64 {
    s as f64 / SAMPLE_UNIT as f64
}

#[test]
fn int16_positive_full_scale_is_not_one() {
    let s = sample_from_i16(32767);
    assert_eq!(s, 32767i64 * 65536);
    let f = to_float(s) as f32;
    assert!(f < 1.0);
    assert!((f - 0.99997).abs() < 1e-4);
}

#[test]
fn int16_negative_full_scale_is_exactly_minus_one() {
    let s = sample_from_i16(-32768);
    assert_eq!(s, -SAMPLE_UNIT);
    assert_eq!(to_float(s), -1.0);
}

#[test]
fn int16_zero_and_midpoints() {
    assert_eq!(sample_from_i16(0), 0);
    assert_eq!(to_float(sample_from_i16(16384)), 0.5);
    assert_eq!(to_float(sample_from_i16(-16384)), -0.5);
}

#[test]
fn int32_full_scale() {
    assert_eq!(sample_from_i32(i32::MIN), -SAMPLE_UNIT);
    assert_eq!(to_float(sample_from_i32(i32::MIN)), -1.0);
    let s = sample_from_i32(i32::MAX);
    assert_eq!(s, i32::MAX as i64);
    assert!(to_float(s) < 1.0);
}

#[test]
fn stereo_mean_synthetic_block() {
    // The stereo block [(1.0, -1.0), (0.5, 0.5)] mixes down to [0.0, 0.5].
    let m0 = mono_from_pair(SAMPLE_UNIT, -SAMPLE_UNIT);
    let m1 = mono_from_pair(SAMPLE_UNIT / 2, SAMPLE_UNIT / 2);
    assert_eq!(to_float(m0), 0.0);
    assert_eq!(to_float(m1), 0.5);
}

#[test]
fn mono_mean_rounds_toward_zero() {
    assert_eq!(mono_from_pair(3, 4), 3);
    assert_eq!(mono_from_pair(-3, -4), -3);
    assert_eq!(mono_from_pair(1, -2), 0);
}
