//! Resampler behaviour on concrete waveforms.

use tx::resample::resample;
use tx::sample::SAMPLE_UNIT;

fn to_float(v: &[i64]) -> Vec<f64> {
    v.iter().map(|&s| s as f64 / SAMPLE_UNIT as f64).collect()
}

#[test]
fn identity_at_equal_rates() {
    let s: Vec<i64> = vec![0, 1000, -1000, 500, -2, 7, SAMPLE_UNIT, -SAMPLE_UNIT];
    let out = resample(&s, 44100, 44100);
    assert_eq!(out, s);
}

#[test]
fn identity_at_target_rate() {
    let s: Vec<i64> = (0..1000).map(|i| (i * 37 % 2001) - 1000).collect();
    let out = resample(&s, 16000, 16000);
    assert_eq!(out, s);
}

#[test]
fn length_law_downsampling() {
    let s: Vec<i64> = vec![0; 1000];
    let out = resample(&s, 44100, 16000);
    // floor(1000 * 16000 / 44100) == 362
    assert_eq!(out.len(), 362);
}

#[test]
fn length_law_upsampling() {
    let s: Vec<i64> = vec![0; 1000];
    let out = resample(&s, 16000, 44100);
    // floor(1000 * 44100 / 16000) == 2756
    assert_eq!(out.len(), 2756);
}

#[test]
fn length_law_empty_input() {
    let s: Vec<i64> = Vec::new();
    let out = resample(&s, 48000, 16000);
    assert_eq!(out.len(), 0);
}

#[test]
fn interpolation_exact_values() {
    // Doubling the rate of [0, 1000000] interpolates the midpoint and
    // holds the final sample where no right neighbour exists.
    let s: Vec<i64> = vec![0, 1_000_000];
    let out = resample(&s, 1, 2);
    assert_eq!(out, vec![0, 500_000, 1_000_000, 1_000_000]);
}

#[test]
fn downsampling_exact_values() {
    // Halving the rate keeps every second sample.
    let s: Vec<i64> = vec![10, 20, 30, 40, 50, 60];
    let out = resample(&s, 2, 1);
    assert_eq!(out, vec![10, 30, 50]);
}

#[test]
fn bounds_law_no_overshoot() {
    let s: Vec<i64> = (0..500).map(|i| ((i * 7919) % 4001) - 2000).collect();
    let lo = *s.iter().min().unwrap();
    let hi = *s.iter().max().unwrap();
    for &(from, to) in &[(44100u32, 16000u32), (16000, 44100), (48000, 16000), (8000, 16000)] {
        let out = resample(&s, from, to);
        for &v in &out {
            assert!(lo <= v && v <= hi, "sample {} outside [{}, {}]", v, lo, hi);
        }
    }
}

#[test]
fn resampled_floats_stay_in_unit_range() {
    let s: Vec<i64> = vec![SAMPLE_UNIT, -SAMPLE_UNIT, SAMPLE_UNIT / 2, -SAMPLE_UNIT / 3];
    let out = resample(&s, 44100, 16000);
    for v in to_float(&out) {
        assert!((-1.0..=1.0).contains(&v));
    }
}
