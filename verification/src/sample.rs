//! Fixed-point sample values.
//!
//! A sample is stored as a signed 64-bit count of fixed-point steps:
//! the value `v` stands for the amplitude `v / SAMPLE_UNIT`, so the
//! normalized range of roughly minus one to one is the range
//! `-SAMPLE_UNIT ..= SAMPLE_UNIT`.  A 16-bit source sample `r` maps to
//! `r * 65536` (so `-32768` maps exactly to minus full scale) and a
//! 32-bit source sample maps to itself.

use vstd::prelude::*;

verus! {

/// Number of fixed-point steps in one unit of amplitude.
pub const SAMPLE_UNIT: i64 = 0x8000_0000;

/// A sample is valid when it lies in the normalized amplitude range.
pub open spec fn valid_sample(s: i64) -> bool {
    -SAMPLE_UNIT <= s <= SAMPLE_UNIT
}

/// Quotient rounded toward zero, as the machine division of two
/// possibly negative operands computes it.
pub open spec fn div_trunc(a: int, b: int) -> int
    recommends
        b > 0,
{
    if a >= 0 {
        a / b
    } else {
        -((-a) / b)
    }
}

/// Mean of two samples, rounded toward zero.
pub open spec fn avg2(a: int, b: int) -> int {
    div_trunc(a + b, 2)
}

/// Normalizes a 16-bit integer sample: scaled by the 16-bit full-scale
/// magnitude, so `-32768` becomes exactly minus one unit and `32767`
/// becomes just under one unit.
pub fn sample_from_i16(raw: i16) -> (s: i64)
    ensures
        s == raw as int * 65536,
        valid_sample(s),
{
    (raw as i64) * 65536
}

/// Normalizes a 32-bit integer sample: the 32-bit full-scale magnitude
/// equals one unit, so the sample is its own step count.
pub fn sample_from_i32(raw: i32) -> (s: i64)
    ensures
        s == raw as int,
        valid_sample(s),
{
    raw as i64
}

/// Mixes one stereo frame down to a mono sample: the arithmetic mean of
/// the two channels.
pub fn mono_from_pair(left: i64, right: i64) -> (m: i64)
    requires
        valid_sample(left),
        valid_sample(right),
    ensures
        m == avg2(left as int, right as int),
        valid_sample(m),
{
    let sum = left + right;
    if sum >= 0 {
        sum / 2
    } else {
        -((-sum) / 2)
    }
}

} // verus!
