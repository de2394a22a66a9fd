//! Upsampling of mono 16-bit little-endian PCM by the ratio 3:2.
//!
//! Samples are taken in pairs, and each pair is sent on with one sample
//! between its two members. A sample that has no partner yet is carried over
//! to the next chunk.

use vstd::prelude::*;

verus! {

/// The signed 16-bit sample whose little-endian bytes are `lo` and `hi`.
pub open spec fn sample_value(lo: u8, hi: u8) -> i16 {
    (if hi < 128 {
        256 * hi + lo
    } else {
        256 * hi + lo - 65536
    }) as i16
}

/// The low byte of a sample in two's complement.
pub open spec fn low_byte(sample: i16) -> u8 {
    (sample as int % 256) as u8
}

/// The high byte of a sample in two's complement.
pub open spec fn high_byte(sample: i16) -> u8 {
    (sample as int / 256 % 256) as u8
}

/// The samples that `bytes` holds. An odd byte at the end belongs to no sample.
pub open spec fn pcm_samples(bytes: Seq<u8>) -> Seq<i16> {
    Seq::new(bytes.len() / 2, |i: int| sample_value(bytes[2 * i], bytes[2 * i + 1]))
}

/// The bytes that hold `samples`.
pub open spec fn pcm_bytes(samples: Seq<i16>) -> Seq<u8> {
    Seq::new(
        2 * samples.len(),
        |i: int|
            if i % 2 == 0 {
                low_byte(samples[i / 2])
            } else {
                high_byte(samples[i / 2])
            },
    )
}

/// Half of `left + right`, rounded towards zero.
pub open spec fn midpoint(left: i16, right: i16) -> i16 {
    (if left + right >= 0 {
        (left + right) / 2
    } else {
        -(-(left + right) / 2)
    }) as i16
}

/// Every whole pair of `samples`, each with its midpoint in between. A last
/// sample without a partner does not occur in it.
pub open spec fn interpolated(samples: Seq<i16>) -> Seq<i16> {
    Seq::new(
        3 * (samples.len() / 2),
        |i: int|
            if i % 3 == 0 {
                samples[2 * (i / 3)]
            } else if i % 3 == 1 {
                midpoint(samples[2 * (i / 3)], samples[2 * (i / 3) + 1])
            } else {
                samples[2 * (i / 3) + 1]
            },
    )
}

/// A carried sample as a sequence of at most one element.
pub open spec fn carried(carry: Option<i16>) -> Seq<i16> {
    match carry {
        Some(sample) => seq![sample],
        None => Seq::empty(),
    }
}

/// What is carried over when `samples` have been taken in pairs.
pub open spec fn left_over(samples: Seq<i16>) -> Option<i16> {
    if samples.len() % 2 == 1 {
        Some(samples.last())
    } else {
        None
    }
}

/// The samples that stand in line once `input` has arrived.
pub open spec fn waiting(carry: Option<i16>, input: Seq<u8>) -> Seq<i16> {
    carried(carry) + pcm_samples(input)
}

/// What upsampling `input` puts out when `carry` was left from before.
pub open spec fn upsampled(carry: Option<i16>, input: Seq<u8>) -> Seq<u8> {
    pcm_bytes(interpolated(waiting(carry, input)))
}

/// What is carried over after `input`.
pub open spec fn carry_after(carry: Option<i16>, input: Seq<u8>) -> Option<i16> {
    left_over(waiting(carry, input))
}

/// What is put out for a carried sample when no more input follows: the
/// sample twice.
pub open spec fn flushed(carry: Option<i16>) -> Seq<u8> {
    match carry {
        Some(sample) => pcm_bytes(seq![sample, sample]),
        None => Seq::empty(),
    }
}

/// Reads a sample from its little-endian bytes.
pub fn sample_from_le(lo: u8, hi: u8) -> (sample: i16)
    ensures
        sample == sample_value(lo, hi),
        (sample - lo - 256 * hi) % 65536 == 0,
{
    let raw: u16 = ((hi as u16) << 8) | (lo as u16);
    let sample: i16 = raw as i16;
    assert(raw == 256 * hi + lo) by (bit_vector)
        requires
            raw == ((hi as u16) << 8) | (lo as u16),
    ;
    assert(sample == if raw < 0x8000 {
        raw as int
    } else {
        raw - 0x10000
    }) by (bit_vector)
        requires
            sample == raw as i16,
    ;
    sample
}

/// Appends a sample to `out`, low byte first.
pub fn push_sample(out: &mut Vec<u8>, sample: i16)
    ensures
        final(out)@ == old(out)@.push(low_byte(sample)).push(high_byte(sample)),
        (sample - low_byte(sample) - 256 * high_byte(sample)) % 65536 == 0,
{
    let raw: u16 = sample as u16;
    let lo: u8 = (raw & 0xff) as u8;
    let hi: u8 = (raw >> 8) as u8;
    assert(raw == if sample >= 0 {
        sample as int
    } else {
        sample + 0x10000
    }) by (bit_vector)
        requires
            raw == sample as u16,
    ;
    assert(lo == raw % 256) by (bit_vector)
        requires
            lo == (raw & 0xff) as u8,
    ;
    assert(hi == raw / 256) by (bit_vector)
        requires
            hi == (raw >> 8) as u8,
    ;
    out.push(lo);
    out.push(hi);
}

/// The sample half way between two samples, rounded towards zero.
pub fn mid_sample(left: i16, right: i16) -> (mid: i16)
    ensures
        mid == midpoint(left, right),
        -1 <= 2 * mid - (left + right) <= 1,
        left + right >= 0 ==> 0 <= 2 * mid <= left + right,
        left + right <= 0 ==> left + right <= 2 * mid <= 0,
{
    let sum: i32 = left as i32 + right as i32;
    (sum / 2) as i16
}

/// Turns a stream of PCM chunks into one with three samples for every two.
#[derive(Debug)]
pub struct PairwiseUpsampler {
    pub carry_sample: Option<i16>,
}

impl Default for PairwiseUpsampler {
    fn default() -> (upsampler: Self)
        ensures
            upsampler.carry_sample is None,
    {
        PairwiseUpsampler { carry_sample: None }
    }
}

impl PairwiseUpsampler {
    /// Upsamples one chunk. A sample without a partner waits for the next
    /// chunk; an odd byte at the end of the chunk is dropped.
    pub fn upsample_chunk(&mut self, input: &[u8]) -> (out: Vec<u8>)
        ensures
            out@ == upsampled(old(self).carry_sample, input@),
            final(self).carry_sample == carry_after(old(self).carry_sample, input@),
    {
        let ghost line = waiting(self.carry_sample, input@);
        let mut samples: Vec<i16> = Vec::new();
        if let Some(sample) = self.carry_sample.take() {
            samples.push(sample);
        }
        let ghost start = samples@;
        let length: usize = input.len();
        let whole: usize = length / 2;
        let mut k: usize = 0;
        while k < whole
            invariant
                k <= whole,
                whole == length / 2,
                length == input@.len(),
                samples@ == start + pcm_samples(input@).take(k as int),
            decreases whole - k,
        {
            samples.push(sample_from_le(input[2 * k], input[2 * k + 1]));
            assert(pcm_samples(input@).take(k + 1) == pcm_samples(input@).take(k as int).push(
                pcm_samples(input@)[k as int],
            ));
            k = k + 1;
        }
        assert(samples@ == line);

        if samples.len() < 2 {
            self.carry_sample = samples.pop();
            return Vec::new();
        }
        let carry: Option<i16> = if samples.len() % 2 == 1 {
            samples.pop()
        } else {
            None
        };

        let mut out: Vec<u8> = Vec::new();
        let count: usize = samples.len();
        let pairs: usize = count / 2;
        let mut p: usize = 0;
        while p < pairs
            invariant
                p <= pairs,
                count == samples@.len(),
                count == 2 * pairs,
                out@ == pcm_bytes(interpolated(samples@).take(3 * p)),
            decreases pairs - p,
        {
            let left: i16 = samples[2 * p];
            let right: i16 = samples[2 * p + 1];
            push_sample(&mut out, left);
            push_sample(&mut out, mid_sample(left, right));
            push_sample(&mut out, right);
            assert(out@ =~= pcm_bytes(interpolated(samples@).take(3 * (p + 1))));
            p = p + 1;
        }
        assert(interpolated(samples@) =~= interpolated(line));
        assert(interpolated(samples@).take(3 * pairs) =~= interpolated(line));
        self.carry_sample = carry;
        out
    }

    /// Puts out what is still carried, with the sample standing in for its
    /// missing partner.
    pub fn flush(&mut self) -> (out: Vec<u8>)
        ensures
            out@ == flushed(old(self).carry_sample),
            final(self).carry_sample is None,
    {
        let mut out: Vec<u8> = Vec::new();
        if let Some(sample) = self.carry_sample.take() {
            push_sample(&mut out, sample);
            push_sample(&mut out, sample);
            assert(out@ =~= pcm_bytes(seq![sample, sample]));
        }
        out
    }
}

} // verus!
