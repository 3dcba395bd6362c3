//! The synthesis output stage: quantizing time-domain samples to the
//! target bit depth with saturation, accumulating the sample stream, and
//! framing it into the waveform container whose header declares the
//! format, channel count, sample rate and total data length.
use vstd::arithmetic::div_mod::{lemma_div_is_ordered, lemma_div_pos_is_pos};
use vstd::prelude::*;

verus! {

/// Frequency bins in one frequency-domain frame.
pub const FREQ_SIZE: usize = 1024;

/// Samples per second of the produced audio.
pub const SAMPLE_RATE: u32 = 44100;

/// The 16-bit little-endian value at offset `off` of a byte string.
pub open spec fn le16(b: Seq<u8>, off: int) -> int {
    b[off] + 256 * b[off + 1]
}

/// The 32-bit little-endian value at offset `off` of a byte string.
pub open spec fn le32(b: Seq<u8>, off: int) -> int {
    b[off] + 256 * b[off + 1] + 65536 * b[off + 2] + 16777216 * b[off + 3]
}

/// The low byte of a sample's two's-complement representation.
pub open spec fn sample_lo(s: i16) -> int {
    (s as u16) as int % 256
}

/// The high byte of a sample's two's-complement representation.
pub open spec fn sample_hi(s: i16) -> int {
    (s as u16) as int / 256
}

/// A micro-unit sample value quantized to the signed 16-bit grid:
/// scaled down by the micro-unit factor toward zero and saturated at
/// the grid's bounds.
pub open spec fn spec_quantize(x: int) -> int {
    if x >= 0 {
        let v = x / 1000000;
        if v > 32767 {
            32767
        } else {
            v
        }
    } else {
        let v = (-x) / 1000000;
        if v > 32768 {
            -32768
        } else {
            -v
        }
    }
}

/// Quantize one micro-unit sample to the 16-bit target depth, with
/// saturation on overflow.
pub fn quantize(sample_micro: i64) -> (r: i16)
    ensures
        r as int == spec_quantize(sample_micro as int),
{
    if sample_micro >= 0 {
        let v: i64 = sample_micro / 1000000;
        proof {
            lemma_div_pos_is_pos(sample_micro as int, 1000000);
        }
        if v > 32767 {
            32767
        } else {
            v as i16
        }
    } else {
        let m: i128 = -(sample_micro as i128);
        let v: i128 = m / 1000000;
        proof {
            lemma_div_pos_is_pos(m as int, 1000000);
        }
        if v > 32768 {
            -32768
        } else {
            (-v) as i16
        }
    }
}

/// Quantize a block of micro-unit samples.
pub fn quantize_block(v: &Vec<i64>) -> (r: Vec<i16>)
    ensures
        r@.len() == v@.len(),
        forall|i: int|
            0 <= i < v@.len() ==> #[trigger] r@[i] as int == spec_quantize(v@[i] as int),
{
    let mut r: Vec<i16> = Vec::new();
    let n = v.len();
    let mut i: usize = 0;
    while i < n
        invariant
            0 <= i <= n,
            n == v@.len(),
            r@.len() == i,
            forall|j: int|
                0 <= j < i ==> #[trigger] r@[j] as int == spec_quantize(v@[j] as int),
        decreases n - i,
    {
        let q = quantize(v[i]);
        r.push(q);
        i = i + 1;
    }
    r
}

/// Relies on wav::write of the wav crate: through
/// riff::ChunkContents::write it produces exactly one RIFF/WAVE
/// container holding a 16-byte `fmt ` chunk (the header fields in
/// little-endian order, with a block alignment of two bytes and a byte
/// rate of twice the sampling rate for one 16-bit channel) followed by
/// one `data` chunk of the samples in little-endian order. The write
/// goes into an in-memory cursor and the sample count is bounded below
/// the container's size fields, so wav::write has no failing path here
/// and the call returns the bytes.
#[verifier::external_body]
fn wav_container(
    audio_format: u16,
    channel_count: u16,
    sampling_rate: u32,
    bits_per_sample: u16,
    samples: &Vec<i16>,
) -> (r: Option<Vec<u8>>)
    requires
        channel_count == 1,
        bits_per_sample == 16,
        sampling_rate <= 2000000000,
        samples@.len() <= 1000000000,
    ensures
        r is Some,
        match r {
            Some(b) => {
                let n = samples@.len() as int;
                &&& b@.len() == 44 + 2 * n
                &&& b@[0] == 82 && b@[1] == 73 && b@[2] == 70 && b@[3] == 70
                &&& le32(b@, 4) == 36 + 2 * n
                &&& b@[8] == 87 && b@[9] == 65 && b@[10] == 86 && b@[11] == 69
                &&& b@[12] == 102 && b@[13] == 109 && b@[14] == 116 && b@[15] == 32
                &&& le32(b@, 16) == 16
                &&& le16(b@, 20) == audio_format
                &&& le16(b@, 22) == channel_count
                &&& le32(b@, 24) == sampling_rate
                &&& le32(b@, 28) == 2 * sampling_rate
                &&& le16(b@, 32) == 2
                &&& le16(b@, 34) == bits_per_sample
                &&& b@[36] == 100 && b@[37] == 97 && b@[38] == 116 && b@[39] == 97
                &&& le32(b@, 40) == 2 * n
                &&& forall|i: int|
                    0 <= i < n ==> b@[44 + 2 * i] == sample_lo(#[trigger] samples@[i]) && b@[
                        44 + 2 * i + 1
                    ] == sample_hi(samples@[i])
            },
            None => true,
        },
{
    let header = wav::Header::new(audio_format, channel_count, sampling_rate, bits_per_sample);
    let data = wav::BitDepth::Sixteen(samples.clone());
    let mut cursor = std::io::Cursor::new(Vec::new());
    match wav::write(header, &data, &mut cursor) {
        Ok(()) => Some(cursor.into_inner()),
        Err(_) => None,
    }
}

/// The growing sample stream of a render, and its finalization into a
/// single-channel, 16-bit, 44100 Hz pulse-code-modulated container.
pub struct Output {
    pub samples: Vec<i16>,
}

impl Output {
    /// An output with no samples yet.
    pub fn new() -> (r: Output)
        ensures
            r.samples@.len() == 0,
    {
        Output { samples: Vec::new() }
    }

    /// Append a block of quantized samples to the stream.
    pub fn write(&mut self, block: &Vec<i16>)
        ensures
            final(self).samples@ == old(self).samples@ + block@,
    {
        let n = block.len();
        let mut i: usize = 0;
        while i < n
            invariant
                0 <= i <= n,
                n == block@.len(),
                self.samples@ == old(self).samples@ + block@.subrange(0, i as int),
            decreases n - i,
        {
            self.samples.push(block[i]);
            proof {
                assert(self.samples@ =~= old(self).samples@ + block@.subrange(0, i as int + 1));
            }
            i = i + 1;
        }
        proof {
            assert(old(self).samples@ + block@.subrange(0, n as int) =~= old(self).samples@
                + block@);
        }
    }

    /// Finalize the container: the canonical 44-byte header for
    /// uncompressed PCM (format code 1), one channel, 44100 Hz, 16 bits
    /// per sample, whose declared data length is exactly two bytes per
    /// accumulated sample, followed by the samples in little-endian
    /// order. The container is owed whenever the stream fits its size
    /// fields; `None` only when the stream is too long for them.
    pub fn finalize(&self) -> (r: Option<Vec<u8>>)
        ensures
            self.samples@.len() <= 1000000000 ==> r is Some,
            match r {
                Some(b) => {
                    let n = self.samples@.len() as int;
                    &&& b@.len() == 44 + 2 * n
                    &&& b@[0] == 82 && b@[1] == 73 && b@[2] == 70 && b@[3] == 70
                    &&& le32(b@, 4) == 36 + 2 * n
                    &&& b@[8] == 87 && b@[9] == 65 && b@[10] == 86 && b@[11] == 69
                    &&& le32(b@, 16) == 16
                    &&& le16(b@, 20) == 1
                    &&& le16(b@, 22) == 1
                    &&& le32(b@, 24) == 44100
                    &&& le32(b@, 28) == 88200
                    &&& le16(b@, 32) == 2
                    &&& le16(b@, 34) == 16
                    &&& b@[36] == 100 && b@[37] == 97 && b@[38] == 116 && b@[39] == 97
                    &&& le32(b@, 40) == 2 * n
                    &&& forall|i: int|
                        0 <= i < n ==> b@[44 + 2 * i] == sample_lo(#[trigger] self.samples@[i])
                            && b@[44 + 2 * i + 1] == sample_hi(self.samples@[i])
                },
                None => true,
            },
    {
        if self.samples.len() > 1000000000 {
            return None;
        }
        wav_container(1, 1, SAMPLE_RATE, 16, &self.samples)
    }
}

} // verus!
