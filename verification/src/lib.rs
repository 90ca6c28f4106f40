//! Core of a speech-to-text tool: waveform normalization and resampling,
//! a capture session with a cooperative stop signal, and a transcript
//! store with derived short identifiers.

use vstd::prelude::*;

pub mod capture;
pub mod cli;
pub mod format;
pub mod ident;
pub mod store;
pub mod resample;
pub mod sample;
pub mod text;

verus! {

/// Target sample rate of every finished waveform, in hertz.
pub const SAMPLE_RATE: u32 = 16000;

/// A recording meets the minimum duration rule when it holds at least
/// half a second of audio at the target rate.
pub fn meets_minimum_duration(len: usize) -> (r: bool)
    ensures
        r == (len >= SAMPLE_RATE / 2),
{
    len >= (SAMPLE_RATE / 2) as usize
}

} // verus!
