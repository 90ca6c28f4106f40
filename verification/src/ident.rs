//! Derivation of short transcript identifiers.
//!
//! An identifier is the first seven hexadecimal digits of a 64-bit
//! Fowler–Noll–Vo hash over the transcript text and the creation
//! timestamp.  The hash is fast rather than collision-resistant: the
//! identifiers exist as short human-typeable references, not as a
//! security measure, and two records whose text and timestamp agree
//! collide on purpose (the later write wins in the store).

use vstd::prelude::*;

verus! {

/// Offset basis of the 64-bit Fowler–Noll–Vo hash.
pub const FNV_OFFSET: u64 = 0xcbf2_9ce4_8422_2325;

/// Multiplier of the 64-bit Fowler–Noll–Vo hash.
pub const FNV_PRIME: u64 = 0x0000_0100_0000_01b3;

/// One hash step: mix one value into the running state.
pub open spec fn fnv_step(h: u64, v: u64) -> u64 {
    vstd::wrapping::u64_specs::wrapping_mul(h ^ v, FNV_PRIME)
}

/// Hash state after mixing in every character of `s`, left to right.
pub open spec fn fnv_chars(h: u64, s: Seq<char>) -> u64
    decreases s.len(),
{
    if s.len() == 0 {
        h
    } else {
        fnv_chars(fnv_step(h, s[0] as u64), s.drop_first())
    }
}

/// Byte `k` of the little-endian form of `n`.
pub open spec fn le_byte(n: u64, k: int) -> u64
    recommends
        0 <= k < 8,
{
    (n >> ((8 * k) as u64)) & 0xff
}

/// Hash state after mixing in bytes `k` through 7 of the little-endian
/// form of `n`.
pub open spec fn fnv_le_bytes(h: u64, n: u64, k: int) -> u64
    decreases 8 - k,
{
    if k < 0 || k >= 8 {
        h
    } else {
        fnv_le_bytes(fnv_step(h, le_byte(n, k)), n, k + 1)
    }
}

/// Hash of a transcript's text and timestamp: the text's characters
/// followed by the eight little-endian bytes of the timestamp, which is
/// the timestamp's canonical serialized form for this purpose.
pub open spec fn id_hash(text: Seq<char>, timestamp: i64) -> u64 {
    fnv_le_bytes(fnv_chars(FNV_OFFSET, text), timestamp as u64, 0)
}

/// Lower-case hexadecimal digit for a value below sixteen.
pub open spec fn hex_digit(d: u64) -> char
    recommends
        d < 16,
{
    if d < 10 {
        (('0' as u8) + d as u8) as char
    } else {
        (('a' as u8) + (d - 10) as u8) as char
    }
}

/// The seven leading hexadecimal digits of `h`, most significant first.
pub open spec fn hex_prefix7(h: u64) -> Seq<char> {
    Seq::new(7, |k: int| hex_digit((h >> ((60 - 4 * k) as u64)) & 0xf))
}

/// The identifier derived from a transcript's text and timestamp.
pub open spec fn transcript_id(text: Seq<char>, timestamp: i64) -> Seq<char> {
    hex_prefix7(id_hash(text, timestamp))
}

/// Computes the short identifier for the given text and timestamp.
pub fn generate_id(text: &str, timestamp: i64) -> (id: String)
    ensures
        id@ == transcript_id(text@, timestamp),
        id@.len() == 7,
{
    let n: usize = text.unicode_len();
    let mut h: u64 = FNV_OFFSET;
    let mut i: usize = 0;
    proof {
        assert(text@.skip(0) =~= text@);
    }
    while i < n
        invariant
            n == text@.len(),
            0 <= i <= n,
            fnv_chars(FNV_OFFSET, text@) == fnv_chars(h, text@.skip(i as int)),
        decreases n - i,
    {
        let c = text.get_char(i);
        proof {
            assert(text@.skip(i as int).drop_first() =~= text@.skip(i + 1));
            assert(text@.skip(i as int)[0] == c);
        }
        h = (h ^ (c as u64)).wrapping_mul(FNV_PRIME);
        i = i + 1;
    }
    proof {
        assert(text@.skip(n as int) =~= Seq::<char>::empty());
    }
    let ts_bits: u64 = #[verifier::truncate] (timestamp as u64);
    let mut k: usize = 0;
    while k < 8
        invariant
            0 <= k <= 8,
            id_hash(text@, timestamp) == fnv_le_bytes(h, ts_bits, k as int),
            ts_bits == timestamp as u64,
        decreases 8 - k,
    {
        let b: u64 = (ts_bits >> ((8 * k) as u64)) & 0xff;
        h = (h ^ b).wrapping_mul(FNV_PRIME);
        k = k + 1;
    }
    let mut id = String::new();
    let mut k: usize = 0;
    while k < 7
        invariant
            0 <= k <= 7,
            h == id_hash(text@, timestamp),
            id@ =~= transcript_id(text@, timestamp).take(k as int),
        decreases 7 - k,
    {
        let shift: u64 = (60 - 4 * k) as u64;
        let d: u64 = (h >> shift) & 0xf;
        proof {
            assert(d < 16) by (bit_vector)
                requires
                    d == (h >> shift) & 0xf,
            ;
        }
        let c: char = if d < 10 {
            (('0' as u8) + d as u8) as char
        } else {
            (('a' as u8) + (d - 10) as u8) as char
        };
        crate::text::push_char(&mut id, c);
        proof {
            assert(transcript_id(text@, timestamp).take(k + 1) =~= transcript_id(
                text@,
                timestamp,
            ).take(k as int).push(c));
        }
        k = k + 1;
    }
    proof {
        assert(transcript_id(text@, timestamp).take(7) =~= transcript_id(text@, timestamp));
    }
    id
}

} // verus!
