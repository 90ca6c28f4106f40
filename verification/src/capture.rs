//! Capture session: the state of one recording.
//!
//! A session owns the sample buffer and a stop flag.  The capture
//! callback hands blocks of raw device frames to `push_block`, which
//! converts them to mono fixed-point samples and appends them — unless
//! the stop flag has been set, in which case the whole block is
//! discarded, so no sample is ever appended after the stop signal was
//! observed.  When the session is over, `finish` yields the waveform,
//! resampled to the target rate when the device rate differs.

use vstd::prelude::*;

use crate::resample::{interp_at, resample, resample_len};
use crate::sample::{avg2, mono_from_pair, sample_from_i16, sample_from_i32, valid_sample};
use crate::SAMPLE_RATE;

verus! {

/// Sample encoding negotiated with the input device at session start.
/// Any encoding outside these three is rejected before a session is
/// created.
#[derive(Clone, Copy, Debug, PartialEq, Eq, Structural)]
pub enum SampleEncoding {
    /// The device delivers samples already scaled to the unit range;
    /// the caller hands them over as fixed-point step counts.
    Unit,
    /// Signed 16-bit integer samples.
    Int16,
    /// Signed 32-bit integer samples.
    Int32,
}

/// One block of frames as delivered by the device, in the encoding the
/// session was set up with.
pub enum SampleBlock {
    Unit(Vec<i64>),
    Int16(Vec<i16>),
    Int32(Vec<i32>),
}

/// The encoding a block carries.
pub open spec fn block_encoding(b: SampleBlock) -> SampleEncoding {
    match b {
        SampleBlock::Unit(_) => SampleEncoding::Unit,
        SampleBlock::Int16(_) => SampleEncoding::Int16,
        SampleBlock::Int32(_) => SampleEncoding::Int32,
    }
}

/// Number of raw samples in a block.
pub open spec fn block_len(b: SampleBlock) -> nat {
    match b {
        SampleBlock::Unit(v) => v@.len(),
        SampleBlock::Int16(v) => v@.len(),
        SampleBlock::Int32(v) => v@.len(),
    }
}

/// Normalized fixed-point value of raw sample `j` of a block.
pub open spec fn block_sample(b: SampleBlock, j: int) -> int
    recommends
        0 <= j < block_len(b),
{
    match b {
        SampleBlock::Unit(v) => v@[j] as int,
        SampleBlock::Int16(v) => v@[j] as int * 65536,
        SampleBlock::Int32(v) => v@[j] as int,
    }
}

/// A block is valid when every sample it carries is within the
/// normalized range.  Integer encodings are within range by
/// construction; unit-range blocks carry what the caller scaled.
pub open spec fn block_valid(b: SampleBlock) -> bool {
    match b {
        SampleBlock::Unit(v) => forall|j: int| 0 <= j < v@.len() ==> valid_sample(#[trigger] v@[j]),
        SampleBlock::Int16(_) => true,
        SampleBlock::Int32(_) => true,
    }
}

/// The mono samples a block contributes to the buffer: the mean of
/// each stereo pair when the session captures two channels, otherwise
/// the normalized samples themselves.
pub open spec fn mono_block(b: SampleBlock, channels: u16) -> Seq<i64> {
    if channels == 2 {
        Seq::new(
            block_len(b) / 2,
            |i: int| avg2(block_sample(b, 2 * i), block_sample(b, 2 * i + 1)) as i64,
        )
    } else {
        Seq::new(block_len(b), |i: int| block_sample(b, i) as i64)
    }
}

/// The mono samples a whole run of blocks contributes, in order.
pub open spec fn mono_concat(blocks: Seq<SampleBlock>, channels: u16) -> Seq<i64>
    decreases blocks.len(),
{
    if blocks.len() == 0 {
        Seq::<i64>::empty()
    } else {
        mono_concat(blocks.drop_last(), channels) + mono_block(blocks.last(), channels)
    }
}

/// Converts a raw block to normalized mono-agnostic fixed-point
/// samples, one output sample per raw sample.
pub fn convert_block(block: &SampleBlock) -> (v: Vec<i64>)
    requires
        block_valid(*block),
    ensures
        v@.len() == block_len(*block),
        forall|j: int| 0 <= j < v@.len() ==> #[trigger] v@[j] == block_sample(*block, j),
        forall|j: int| 0 <= j < v@.len() ==> valid_sample(#[trigger] v@[j]),
{
    let mut v: Vec<i64> = Vec::new();
    match block {
        SampleBlock::Unit(data) => {
            let mut i: usize = 0;
            while i < data.len()
                invariant
                    0 <= i <= data@.len(),
                    v@.len() == i,
                    forall|j: int| 0 <= j < data@.len() ==> valid_sample(#[trigger] data@[j]),
                    forall|j: int| 0 <= j < i ==> #[trigger] v@[j] == data@[j],
                decreases data@.len() - i,
            {
                v.push(data[i]);
                i = i + 1;
            }
        },
        SampleBlock::Int16(data) => {
            let mut i: usize = 0;
            while i < data.len()
                invariant
                    0 <= i <= data@.len(),
                    v@.len() == i,
                    forall|j: int| 0 <= j < i ==> #[trigger] v@[j] == data@[j] as int * 65536,
                    forall|j: int| 0 <= j < i ==> valid_sample(#[trigger] v@[j]),
                decreases data@.len() - i,
            {
                v.push(sample_from_i16(data[i]));
                i = i + 1;
            }
        },
        SampleBlock::Int32(data) => {
            let mut i: usize = 0;
            while i < data.len()
                invariant
                    0 <= i <= data@.len(),
                    v@.len() == i,
                    forall|j: int| 0 <= j < i ==> #[trigger] v@[j] == data@[j] as int,
                    forall|j: int| 0 <= j < i ==> valid_sample(#[trigger] v@[j]),
                decreases data@.len() - i,
            {
                v.push(sample_from_i32(data[i]));
                i = i + 1;
            }
        },
    }
    v
}

/// The state of one recording: the sample buffer, the stop flag, and
/// the channel count and encoding discovered from the device when the
/// session started.
pub struct CaptureSession {
    buffer: Vec<i64>,
    stopped: bool,
    channels: u16,
    encoding: SampleEncoding,
}

impl CaptureSession {
    /// The mono fixed-point samples captured so far.
    pub closed spec fn samples(self) -> Seq<i64> {
        self.buffer@
    }

    /// Whether the stop signal has been observed.
    pub closed spec fn stopped(self) -> bool {
        self.stopped
    }

    /// Channel count of the source stream.
    pub closed spec fn channels(self) -> u16 {
        self.channels
    }

    /// Encoding of the source stream.
    pub closed spec fn encoding(self) -> SampleEncoding {
        self.encoding
    }

    /// Well-formedness: every buffered sample is within the normalized
    /// range.  Constructors establish it and every method keeps it.
    pub closed spec fn wf(self) -> bool {
        forall|j: int| 0 <= j < self.buffer@.len() ==> valid_sample(#[trigger] self.buffer@[j])
    }

    /// Starts a session for a stream with the given channel count and
    /// encoding.
    pub fn new(channels: u16, encoding: SampleEncoding) -> (s: CaptureSession)
        requires
            channels >= 1,
        ensures
            s.wf(),
            s.samples() == Seq::<i64>::empty(),
            !s.stopped(),
            s.channels() == channels,
            s.encoding() == encoding,
    {
        let s = CaptureSession { buffer: Vec::new(), stopped: false, channels, encoding };
        proof {
            assert(s.samples() =~= Seq::<i64>::empty());
        }
        s
    }

    /// Records that the stop signal fired.  Every later block is
    /// discarded.
    pub fn stop(&mut self)
        requires
            old(self).wf(),
        ensures
            final(self).wf(),
            final(self).stopped(),
            final(self).samples() == old(self).samples(),
            final(self).channels() == old(self).channels(),
            final(self).encoding() == old(self).encoding(),
    {
        self.stopped = true;
        proof {
            assert(self.samples() == old(self).samples());
        }
    }

    /// Handles one block from the capture callback: discarded entirely
    /// when the stop flag is already set, otherwise converted to mono
    /// fixed-point samples and appended to the buffer.
    pub fn push_block(&mut self, block: &SampleBlock)
        requires
            old(self).wf(),
            block_encoding(*block) == old(self).encoding(),
            block_valid(*block),
            old(self).channels() == 2 ==> block_len(*block) % 2 == 0,
        ensures
            final(self).wf(),
            final(self).stopped() == old(self).stopped(),
            final(self).channels() == old(self).channels(),
            final(self).encoding() == old(self).encoding(),
            old(self).stopped() ==> final(self).samples() == old(self).samples(),
            !old(self).stopped() ==> final(self).samples() == old(self).samples() + mono_block(
                *block,
                old(self).channels(),
            ),
    {
        if self.stopped {
            return ;
        }
        let conv = convert_block(block);
        let ghost prev = self.buffer@;
        proof {
            assert(prev == old(self).samples());
            assert(forall|j: int| 0 <= j < prev.len() ==> valid_sample(#[trigger] prev[j]));
        }
        if self.channels == 2 {
            let half = conv.len() / 2;
            proof {
                assert(mono_block(*block, 2).take(0) =~= Seq::<i64>::empty());
                assert(prev + mono_block(*block, 2).take(0) =~= prev);
            }
            let mut i: usize = 0;
            while i < half
                invariant
                    half == conv@.len() / 2,
                    conv@.len() <= usize::MAX,
                    self.wf(),
                    conv@.len() == block_len(*block),
                    forall|j: int|
                        0 <= j < conv@.len() ==> #[trigger] conv@[j] == block_sample(*block, j),
                    forall|j: int| 0 <= j < conv@.len() ==> valid_sample(#[trigger] conv@[j]),
                    0 <= i <= half,
                    self.buffer@ =~= prev + mono_block(*block, 2).take(i as int),
                    self.stopped == old(self).stopped,
                    self.channels == old(self).channels,
                    self.encoding == old(self).encoding,
                    self.channels == 2,
                    forall|j: int| 0 <= j < prev.len() ==> valid_sample(#[trigger] prev[j]),
                decreases half - i,
            {
                let m = mono_from_pair(conv[2 * i], conv[2 * i + 1]);
                let ghost b0 = self.buffer@;
                self.buffer.push(m);
                proof {
                    assert forall|j: int| 0 <= j < self.buffer@.len() implies valid_sample(
                        #[trigger] self.buffer@[j],
                    ) by {
                        if j < b0.len() {
                            assert(self.buffer@[j] == b0[j]);
                        } else {
                            assert(self.buffer@[j] == m);
                        }
                    }
                    assert(mono_block(*block, 2).take(i + 1) =~= mono_block(*block, 2).take(
                        i as int,
                    ).push(m));
                }
                i = i + 1;
            }
            proof {
                assert(mono_block(*block, 2).take(half as int) =~= mono_block(*block, 2));
                assert(self.buffer@ =~= prev + mono_block(*block, old(self).channels()));
            }
        } else {
            proof {
                assert(mono_block(*block, old(self).channels()).take(0) =~= Seq::<i64>::empty());
                assert(prev + mono_block(*block, old(self).channels()).take(0) =~= prev);
            }
            let mut i: usize = 0;
            while i < conv.len()
                invariant
                    self.wf(),
                    conv@.len() == block_len(*block),
                    forall|j: int|
                        0 <= j < conv@.len() ==> #[trigger] conv@[j] == block_sample(*block, j),
                    forall|j: int| 0 <= j < conv@.len() ==> valid_sample(#[trigger] conv@[j]),
                    0 <= i <= conv@.len(),
                    self.buffer@ =~= prev + mono_block(*block, self.channels).take(i as int),
                    self.stopped == old(self).stopped,
                    self.channels == old(self).channels,
                    self.encoding == old(self).encoding,
                    self.channels != 2,
                    forall|j: int| 0 <= j < prev.len() ==> valid_sample(#[trigger] prev[j]),
                decreases conv@.len() - i,
            {
                let m = conv[i];
                let ghost b0 = self.buffer@;
                self.buffer.push(m);
                proof {
                    assert forall|j: int| 0 <= j < self.buffer@.len() implies valid_sample(
                        #[trigger] self.buffer@[j],
                    ) by {
                        if j < b0.len() {
                            assert(self.buffer@[j] == b0[j]);
                        } else {
                            assert(self.buffer@[j] == m);
                        }
                    }
                    assert(mono_block(*block, self.channels).take(i + 1) =~= mono_block(
                        *block,
                        self.channels,
                    ).take(i as int).push(m));
                }
                i = i + 1;
            }
            proof {
                assert(mono_block(*block, self.channels).take(block_len(*block) as int)
                    =~= mono_block(*block, self.channels));
                assert(self.buffer@ =~= prev + mono_block(*block, old(self).channels()));
            }
        }
    }

    /// Handles a whole run of blocks, in order.  After the stop signal
    /// has fired, the buffer stays as it was no matter how many blocks
    /// still arrive: that is the cancellation-safety law.
    pub fn push_blocks(&mut self, blocks: &Vec<SampleBlock>)
        requires
            old(self).wf(),
            forall|k: int|
                0 <= k < blocks@.len() ==> block_encoding(#[trigger] blocks@[k]) == old(
                    self,
                ).encoding(),
            forall|k: int| 0 <= k < blocks@.len() ==> block_valid(#[trigger] blocks@[k]),
            old(self).channels() == 2 ==> forall|k: int|
                0 <= k < blocks@.len() ==> block_len(#[trigger] blocks@[k]) % 2 == 0,
        ensures
            final(self).wf(),
            final(self).stopped() == old(self).stopped(),
            final(self).channels() == old(self).channels(),
            final(self).encoding() == old(self).encoding(),
            old(self).stopped() ==> final(self).samples() == old(self).samples(),
            !old(self).stopped() ==> final(self).samples() == old(self).samples() + mono_concat(
                blocks@,
                old(self).channels(),
            ),
    {
        let mut k: usize = 0;
        proof {
            assert(mono_concat(blocks@.take(0), old(self).channels()) =~= Seq::<i64>::empty());
            assert(old(self).samples() + Seq::<i64>::empty() =~= old(self).samples());
        }
        while k < blocks.len()
            invariant
                old(self).wf(),
                self.wf(),
                0 <= k <= blocks@.len(),
                forall|j: int|
                    0 <= j < blocks@.len() ==> block_encoding(#[trigger] blocks@[j]) == old(
                        self,
                    ).encoding(),
                forall|j: int| 0 <= j < blocks@.len() ==> block_valid(#[trigger] blocks@[j]),
                old(self).channels() == 2 ==> forall|j: int|
                    0 <= j < blocks@.len() ==> block_len(#[trigger] blocks@[j]) % 2 == 0,
                self.stopped() == old(self).stopped(),
                self.channels() == old(self).channels(),
                self.encoding() == old(self).encoding(),
                old(self).stopped() ==> self.samples() == old(self).samples(),
                !old(self).stopped() ==> self.samples() == old(self).samples() + mono_concat(
                    blocks@.take(k as int),
                    old(self).channels(),
                ),
            decreases blocks@.len() - k,
        {
            self.push_block(&blocks[k]);
            proof {
                assert(blocks@.take(k + 1).drop_last() =~= blocks@.take(k as int));
                assert(blocks@.take(k + 1).last() == blocks@[k as int]);
                if !old(self).stopped() {
                    assert(old(self).samples() + mono_concat(
                        blocks@.take(k + 1),
                        old(self).channels(),
                    ) =~= old(self).samples() + mono_concat(
                        blocks@.take(k as int),
                        old(self).channels(),
                    ) + mono_block(blocks@[k as int], old(self).channels()));
                }
            }
            k = k + 1;
        }
        proof {
            assert(blocks@.take(blocks@.len() as int) =~= blocks@);
        }
    }

    /// Whether the stop signal has been observed.
    pub fn is_stopped(&self) -> (r: bool)
        ensures
            r == self.stopped(),
    {
        self.stopped
    }

    /// Number of mono samples captured so far.
    pub fn sample_count(&self) -> (n: usize)
        ensures
            n == self.samples().len(),
    {
        self.buffer.len()
    }

    /// Ends the session and yields the waveform at the target rate:
    /// the buffer itself when the device already ran at the target
    /// rate, otherwise the buffer resampled from the device rate.
    pub fn finish(self, device_rate: u32) -> (w: Vec<i64>)
        requires
            self.wf(),
            self.stopped(),
            device_rate >= 1,
            self.samples().len() * SAMPLE_RATE <= usize::MAX,
        ensures
            device_rate == SAMPLE_RATE ==> w@ == self.samples(),
            device_rate != SAMPLE_RATE ==> w@.len() == resample_len(
                self.samples().len() as int,
                device_rate as int,
                SAMPLE_RATE as int,
            ),
            device_rate != SAMPLE_RATE ==> forall|j: int|
                0 <= j < w@.len() ==> w@[j] == interp_at(
                    self.samples(),
                    device_rate as int,
                    SAMPLE_RATE as int,
                    j,
                ),
            forall|j: int| 0 <= j < w@.len() ==> valid_sample(#[trigger] w@[j]),
    {
        if device_rate != SAMPLE_RATE {
            resample(&self.buffer, device_rate, SAMPLE_RATE)
        } else {
            self.buffer
        }
    }
}

} // verus!
