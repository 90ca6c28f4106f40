//! Capture session: mono conversion, encodings, and the stop signal.

use tx::capture::{CaptureSession, SampleBlock, SampleEncoding};
use tx::sample::SAMPLE_UNIT;

#[test]
fn stereo_unit_block_mixes_to_mono() {
    // The stereo block [(1.0, -1.0), (0.5, 0.5)] becomes the mono
    // waveform [0.0, 0.5].
    let mut s = CaptureSession::new(2, SampleEncoding::Unit);
    s.push_block(&SampleBlock::Unit(vec![
        SAMPLE_UNIT,
        -SAMPLE_UNIT,
        SAMPLE_UNIT / 2,
        SAMPLE_UNIT / 2,
    ]));
    s.stop();
    let w = s.finish(16000);
    assert_eq!(w, vec![0, SAMPLE_UNIT / 2]);
    let floats: Vec<f32> = w.iter().map(|&v| v as f32 / SAMPLE_UNIT as f32).collect();
    assert_eq!(floats, vec![0.0, 0.5]);
}

#[test]
fn mono_int16_block_is_normalized() {
    let mut s = CaptureSession::new(1, SampleEncoding::Int16);
    s.push_block(&SampleBlock::Int16(vec![32767, -32768, 0, 16384]));
    s.stop();
    let w = s.finish(16000);
    assert_eq!(w, vec![32767i64 * 65536, -SAMPLE_UNIT, 0, 16384i64 * 65536]);
}

#[test]
fn stereo_int16_block_means_pairs() {
    let mut s = CaptureSession::new(2, SampleEncoding::Int16);
    s.push_block(&SampleBlock::Int16(vec![100, 200, -100, 100]));
    s.stop();
    let w = s.finish(16000);
    assert_eq!(w, vec![150i64 * 65536, 0]);
}

#[test]
fn mono_int32_block_is_kept() {
    let mut s = CaptureSession::new(1, SampleEncoding::Int32);
    s.push_block(&SampleBlock::Int32(vec![i32::MAX, i32::MIN, 7]));
    s.stop();
    let w = s.finish(16000);
    assert_eq!(w, vec![i32::MAX as i64, i32::MIN as i64, 7]);
}

#[test]
fn blocks_accumulate_in_order() {
    let mut s = CaptureSession::new(1, SampleEncoding::Unit);
    s.push_block(&SampleBlock::Unit(vec![1, 2]));
    s.push_block(&SampleBlock::Unit(vec![3]));
    s.push_block(&SampleBlock::Unit(vec![4, 5]));
    assert_eq!(s.sample_count(), 5);
    s.stop();
    assert_eq!(s.finish(16000), vec![1, 2, 3, 4, 5]);
}

#[test]
fn no_sample_appended_after_stop() {
    let mut s = CaptureSession::new(1, SampleEncoding::Unit);
    s.push_block(&SampleBlock::Unit(vec![10, 20, 30]));
    assert_eq!(s.sample_count(), 3);
    s.stop();
    assert!(s.is_stopped());
    // A mock stream keeps delivering blocks after the stop signal:
    // every one of them is discarded.
    for i in 0..64 {
        s.push_block(&SampleBlock::Unit(vec![i, i + 1, i + 2]));
    }
    assert_eq!(s.sample_count(), 3);
    assert_eq!(s.finish(16000), vec![10, 20, 30]);
}

#[test]
fn block_run_after_stop_is_discarded() {
    let mut s = CaptureSession::new(1, SampleEncoding::Int16);
    s.push_block(&SampleBlock::Int16(vec![5]));
    s.stop();
    let late: Vec<SampleBlock> = (0..32).map(|i| SampleBlock::Int16(vec![i as i16; 4])).collect();
    s.push_blocks(&late);
    assert_eq!(s.sample_count(), 1);
}

#[test]
fn finish_resamples_when_device_rate_differs() {
    let mut s = CaptureSession::new(1, SampleEncoding::Unit);
    let block: Vec<i64> = (0..32000).map(|i| i % 1000).collect();
    s.push_block(&SampleBlock::Unit(block));
    s.stop();
    // 32 kHz capture halves to 16 kHz: floor(32000 * 16000 / 32000).
    let w = s.finish(32000);
    assert_eq!(w.len(), 16000);
}

#[test]
fn finish_at_target_rate_returns_buffer_unchanged() {
    let mut s = CaptureSession::new(1, SampleEncoding::Unit);
    s.push_block(&SampleBlock::Unit(vec![9, 8, 7]));
    s.stop();
    assert_eq!(s.finish(16000), vec![9, 8, 7]);
}

#[test]
fn empty_session_finishes_empty() {
    let mut s = CaptureSession::new(1, SampleEncoding::Unit);
    s.stop();
    let w = s.finish(44100);
    assert_eq!(w.len(), 0);
}
