//! What holds of upsampled audio whatever the audio is and however it is cut.

use vstd::prelude::*;

use crate::resample::{
    carried, carry_after, flushed, high_byte, interpolated, low_byte, midpoint, pcm_bytes,
    pcm_samples, sample_value, upsampled, waiting,
};
use crate::wire::base64_length;

verus! {

/// A sample is read back from its bytes.
proof fn lemma_sample_round_trip(sample: i16)
    ensures
        sample_value(low_byte(sample), high_byte(sample)) == sample,
{
    let lo = sample as int % 256;
    let hi = sample as int / 256 % 256;
    assert(0 <= lo < 256 && 0 <= hi < 256);
    if sample >= 0 {
        assert(hi == sample as int / 256);
        assert(hi < 128);
        assert(256 * hi + lo == sample);
    } else {
        assert(hi == sample as int / 256 + 256);
        assert(hi >= 128);
        assert(256 * hi + lo - 65536 == sample);
    }
}

/// Samples are read back from their bytes.
pub proof fn law_pcm_round_trip(samples: Seq<i16>)
    ensures
        pcm_samples(pcm_bytes(samples)) == samples,
{
    let bytes = pcm_bytes(samples);
    assert forall|i: int| 0 <= i < samples.len() implies pcm_samples(bytes)[i] == samples[i] by {
        lemma_sample_round_trip(samples[i]);
        assert(bytes[2 * i] == low_byte(samples[i]));
        assert(bytes[2 * i + 1] == high_byte(samples[i]));
    }
    assert(pcm_samples(bytes) =~= samples);
}

/// Bytes of one list of samples after those of another.
proof fn lemma_pcm_bytes_add(a: Seq<i16>, b: Seq<i16>)
    ensures
        pcm_bytes(a + b) == pcm_bytes(a) + pcm_bytes(b),
{
    assert forall|i: int| 0 <= i < 2 * (a + b).len() implies pcm_bytes(a + b)[i] == (pcm_bytes(a)
        + pcm_bytes(b))[i] by {
        if i >= 2 * a.len() {
            let k = i - 2 * a.len();
            assert(k % 2 == i % 2 && k / 2 == i / 2 - a.len());
        }
    }
    assert(pcm_bytes(a + b) =~= pcm_bytes(a) + pcm_bytes(b));
}

/// Samples of a whole number of samples and what follows them.
proof fn lemma_pcm_samples_add(a: Seq<u8>, b: Seq<u8>)
    requires
        a.len() % 2 == 0,
    ensures
        pcm_samples(a + b) == pcm_samples(a) + pcm_samples(b),
{
    let all = a + b;
    assert forall|i: int| 0 <= i < all.len() / 2 implies pcm_samples(all)[i] == (pcm_samples(a)
        + pcm_samples(b))[i] by {
        if i >= a.len() / 2 {
            let k = i - a.len() / 2;
            assert(all[2 * i] == b[2 * k]);
            assert(all[2 * i + 1] == b[2 * k + 1]);
        }
    }
    assert(pcm_samples(all) =~= pcm_samples(a) + pcm_samples(b));
}

/// Pairs of a whole number of pairs and what follows them.
proof fn lemma_interpolated_add(a: Seq<i16>, b: Seq<i16>)
    requires
        a.len() % 2 == 0,
    ensures
        interpolated(a + b) == interpolated(a) + interpolated(b),
{
    let all = a + b;
    assert forall|i: int| 0 <= i < 3 * (all.len() / 2) implies interpolated(all)[i] == (
    interpolated(a) + interpolated(b))[i] by {
        if i >= 3 * (a.len() / 2) {
            let k = i - 3 * (a.len() / 2);
            assert(k % 3 == i % 3 && k / 3 == i / 3 - a.len() / 2);
            assert(all[2 * (i / 3)] == b[2 * (k / 3)]);
            assert(all[2 * (i / 3) + 1] == b[2 * (k / 3) + 1]);
        }
    }
    assert(interpolated(all) =~= interpolated(a) + interpolated(b));
}

/// Audio may be cut between samples: upsampling the two parts one after the
/// other gives what upsampling the whole gives, and leaves the same sample
/// over.
pub proof fn law_chunks_join(carry: Option<i16>, a: Seq<u8>, b: Seq<u8>)
    requires
        a.len() % 2 == 0,
    ensures
        upsampled(carry, a + b) == upsampled(carry, a) + upsampled(carry_after(carry, a), b),
        carry_after(carry, a + b) == carry_after(carry_after(carry, a), b),
{
    lemma_pcm_samples_add(a, b);
    let first = waiting(carry, a);
    let rest = pcm_samples(b);
    let all = waiting(carry, a + b);
    assert(all =~= first + rest);
    let next = waiting(carry_after(carry, a), b);
    if first.len() % 2 == 0 {
        assert(next =~= rest);
        lemma_interpolated_add(first, rest);
        lemma_pcm_bytes_add(interpolated(first), interpolated(rest));
    } else {
        let paired = first.drop_last();
        assert(next =~= seq![first.last()] + rest);
        assert(all =~= paired + next);
        lemma_interpolated_add(paired, next);
        assert(interpolated(paired) =~= interpolated(first));
        lemma_pcm_bytes_add(interpolated(first), interpolated(next));
    }
}

/// All frames one after the other.
pub open spec fn whole(frames: Seq<Seq<u8>>) -> Seq<u8>
    decreases frames.len(),
{
    if frames.len() == 0 {
        Seq::empty()
    } else {
        whole(frames.drop_last()) + frames.last()
    }
}

/// What is carried over once all frames were upsampled in turn.
pub open spec fn carry_after_all(carry: Option<i16>, frames: Seq<Seq<u8>>) -> Option<i16>
    decreases frames.len(),
{
    if frames.len() == 0 {
        carry
    } else {
        carry_after(carry_after_all(carry, frames.drop_last()), frames.last())
    }
}

/// What upsampling all frames in turn puts out.
pub open spec fn upsampled_all(carry: Option<i16>, frames: Seq<Seq<u8>>) -> Seq<u8>
    decreases frames.len(),
{
    if frames.len() == 0 {
        Seq::empty()
    } else {
        upsampled_all(carry, frames.drop_last()) + upsampled(
            carry_after_all(carry, frames.drop_last()),
            frames.last(),
        )
    }
}

/// However audio is cut into frames of whole samples, upsampling them in turn
/// gives what upsampling it in one piece gives.
pub proof fn law_frames_join(carry: Option<i16>, frames: Seq<Seq<u8>>)
    requires
        forall|i: int| 0 <= i < frames.len() ==> (#[trigger] frames[i]).len() % 2 == 0,
    ensures
        upsampled_all(carry, frames) == upsampled(carry, whole(frames)),
        carry_after_all(carry, frames) == carry_after(carry, whole(frames)),
        whole(frames).len() % 2 == 0,
    decreases frames.len(),
{
    if frames.len() == 0 {
        let nothing: Seq<u8> = Seq::empty();
        assert(waiting(carry, nothing) =~= carried(carry));
        assert(upsampled(carry, nothing) =~= nothing);
    } else {
        let shorter = frames.drop_last();
        assert forall|i: int| 0 <= i < shorter.len() implies (#[trigger] shorter[i]).len() % 2
            == 0 by {
            assert(shorter[i] == frames[i]);
        }
        assert(frames[frames.len() - 1].len() % 2 == 0);
        law_frames_join(carry, shorter);
        law_chunks_join(carry, whole(shorter), frames.last());
    }
}

/// The midpoint of two samples lies between them.
pub proof fn law_midpoint_between(left: i16, right: i16)
    ensures
        left <= right ==> left <= midpoint(left, right) <= right,
        right <= left ==> right <= midpoint(left, right) <= left,
        left == right ==> midpoint(left, right) == left,
{
}

/// The midpoint of two samples lies half way between them; where that is no
/// whole number, it is the one next to it that is nearer to zero.
pub proof fn law_midpoint_is_half_way(left: i16, right: i16)
    ensures
        -1 <= 2 * midpoint(left, right) - (left + right) <= 1,
        left + right >= 0 ==> 0 <= 2 * midpoint(left, right) <= left + right,
        left + right <= 0 ==> left + right <= 2 * midpoint(left, right) <= 0,
{
}

/// Whether the two bytes are the sample, the low one first.
pub open spec fn is_sample(sample: i16, lo: u8, hi: u8) -> bool {
    (sample - lo - 256 * hi) % 65536 == 0
}

/// Samples are held low byte first, in two's complement.
pub proof fn law_samples_are_little_endian(sample: i16, lo: u8, hi: u8)
    ensures
        is_sample(sample_value(lo, hi), lo, hi),
        is_sample(sample, low_byte(sample), high_byte(sample)),
        is_sample(sample, lo, hi) <==> sample == sample_value(lo, hi),
        is_sample(sample, lo, hi) <==> lo == low_byte(sample) && hi == high_byte(sample),
{
    lemma_sample_round_trip(sample);
}

/// Upsampling takes samples from the first byte on, two at a time, and puts out
/// six bytes for the four of a pair: those of its first sample, those of a
/// sample half way between the two, and those of its second sample. Bytes that
/// make no whole pair put out nothing.
pub proof fn law_pairs_are_interpolated(
    input: Seq<u8>,
    pair: int,
    left: i16,
    middle: i16,
    right: i16,
)
    requires
        0 <= pair < input.len() / 4,
        is_sample(left, input[4 * pair], input[4 * pair + 1]),
        is_sample(right, input[4 * pair + 2], input[4 * pair + 3]),
        is_sample(
            middle,
            upsampled(None, input)[6 * pair + 2],
            upsampled(None, input)[6 * pair + 3],
        ),
    ensures
        ({
            let out = upsampled(None, input);
            &&& out[6 * pair] == input[4 * pair]
            &&& out[6 * pair + 1] == input[4 * pair + 1]
            &&& -1 <= 2 * middle - (left + right) <= 1
            &&& left + right >= 0 ==> 0 <= 2 * middle <= left + right
            &&& left + right <= 0 ==> left + right <= 2 * middle <= 0
            &&& out[6 * pair + 4] == input[4 * pair + 2]
            &&& out[6 * pair + 5] == input[4 * pair + 3]
        }),
{
    let line = waiting(None, input);
    let three = interpolated(line);
    assert(line =~= pcm_samples(input));
    let i = 3 * pair;
    assert(i % 3 == 0 && i / 3 == pair);
    assert((i + 1) % 3 == 1 && (i + 1) / 3 == pair);
    assert((i + 2) % 3 == 2 && (i + 2) / 3 == pair);
    let k = 6 * pair;
    assert(k % 2 == 0 && k / 2 == i);
    assert((k + 1) % 2 == 1 && (k + 1) / 2 == i);
    assert((k + 2) % 2 == 0 && (k + 2) / 2 == i + 1);
    assert((k + 3) % 2 == 1 && (k + 3) / 2 == i + 1);
    assert((k + 4) % 2 == 0 && (k + 4) / 2 == i + 2);
    assert((k + 5) % 2 == 1 && (k + 5) / 2 == i + 2);
    law_samples_are_little_endian(left, input[4 * pair], input[4 * pair + 1]);
    law_samples_are_little_endian(right, input[4 * pair + 2], input[4 * pair + 3]);
    assert(2 * (2 * pair) == 4 * pair && 2 * (2 * pair + 1) == 4 * pair + 2);
    assert(line[2 * pair] == left);
    assert(line[2 * pair + 1] == right);
    assert(three[i] == left && three[i + 1] == midpoint(left, right) && three[i + 2] == right);
    let out = upsampled(None, input);
    law_samples_are_little_endian(middle, out[k + 2], out[k + 3]);
    lemma_sample_round_trip(midpoint(left, right));
    law_midpoint_is_half_way(left, right);
}

/// Upsampling puts out six bytes for every four that come in. What is left of a
/// whole pair and holds a sample is carried over: nothing else is.
pub proof fn law_unpaired_sample_is_carried(input: Seq<u8>)
    ensures
        upsampled(None, input).len() == 6 * (input.len() / 4),
        match carry_after(None, input) {
            Some(sample) => {
                &&& input.len() % 4 >= 2
                &&& is_sample(
                    sample,
                    input[4 * (input.len() as int / 4)],
                    input[4 * (input.len() as int / 4) + 1],
                )
            },
            None => input.len() % 4 < 2,
        },
{
    let line = waiting(None, input);
    assert(line =~= pcm_samples(input));
    let count = input.len() as int / 2;
    assert(count / 2 == input.len() as int / 4);
    if count % 2 == 1 {
        let at = 4 * (input.len() as int / 4);
        assert(2 * (count - 1) == at);
        law_samples_are_little_endian(0, input[at], input[at + 1]);
    }
}

/// A sample that was carried over counts as if its bytes stood before the next
/// input.
pub proof fn law_carried_sample_goes_first(sample: i16, lo: u8, hi: u8, input: Seq<u8>)
    requires
        is_sample(sample, lo, hi),
    ensures
        upsampled(Some(sample), input) == upsampled(None, seq![lo, hi] + input),
        carry_after(Some(sample), input) == carry_after(None, seq![lo, hi] + input),
{
    let front = seq![lo, hi];
    lemma_pcm_samples_add(front, input);
    law_samples_are_little_endian(sample, lo, hi);
    assert(pcm_samples(front) =~= seq![sample]);
    assert(waiting(None, front + input) =~= waiting(Some(sample), input));
}

/// Where the audio ends with a sample that has no partner, its bytes go out
/// twice; else nothing does.
pub proof fn law_last_sample_goes_out_twice(sample: i16, lo: u8, hi: u8)
    requires
        is_sample(sample, lo, hi),
    ensures
        flushed(Some(sample)) == seq![lo, hi, lo, hi],
        flushed(None) == Seq::<u8>::empty(),
{
    law_samples_are_little_endian(sample, lo, hi);
    assert(flushed(Some(sample)) =~= seq![lo, hi, lo, hi]);
}

/// Every whole pair of samples is put out as three: the two as they were, and
/// their midpoint between them.
pub proof fn law_samples_are_kept(carry: Option<i16>, input: Seq<u8>, pair: int)
    requires
        0 <= pair < waiting(carry, input).len() / 2,
    ensures
        ({
            let line = waiting(carry, input);
            let out = pcm_samples(upsampled(carry, input));
            &&& out.len() == 3 * (line.len() / 2)
            &&& out[3 * pair] == line[2 * pair]
            &&& out[3 * pair + 1] == midpoint(line[2 * pair], line[2 * pair + 1])
            &&& out[3 * pair + 2] == line[2 * pair + 1]
        }),
{
    let line = waiting(carry, input);
    law_pcm_round_trip(interpolated(line));
    assert((3 * pair) % 3 == 0 && (3 * pair) / 3 == pair);
    assert((3 * pair + 1) % 3 == 1 && (3 * pair + 1) / 3 == pair);
    assert((3 * pair + 2) % 3 == 2 && (3 * pair + 2) / 3 == pair);
}

/// Over a whole stream three samples go out for every two that come in; if the
/// last has no partner, it goes out twice.
pub proof fn law_stream_length(input: Seq<u8>)
    ensures
        ({
            let samples = input.len() / 2;
            upsampled(None, input).len() + flushed(carry_after(None, input)).len() == 2 * (3 * (
            samples / 2) + 2 * (samples % 2))
        }),
{
    assert(waiting(None, input) =~= pcm_samples(input));
}

/// The text for the audio of a frame is about twice as long as the frame.
pub proof fn law_audio_text_length(carry: Option<i16>, frame: Seq<u8>)
    ensures
        base64_length(upsampled(carry, frame).len()) <= 2 * frame.len() + 4,
{
    let pairs = waiting(carry, frame).len() / 2;
    assert(upsampled(carry, frame).len() == 6 * pairs);
    assert(base64_length(6 * pairs) == 8 * pairs);
    assert(waiting(carry, frame).len() <= 1 + frame.len() / 2);
}

} // verus!
