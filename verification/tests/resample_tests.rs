use koe_asr::resample::{mid_sample, push_sample, sample_from_le, PairwiseUpsampler};

fn bytes_of(samples: &[i16]) -> Vec<u8> {
    let mut out = Vec::new();
    for sample in samples {
        out.extend_from_slice(&sample.to_le_bytes());
    }
    out
}

#[test]
fn samples_are_little_endian() {
    assert_eq!(sample_from_le(0x34, 0x12), 0x1234);
    assert_eq!(sample_from_le(0xff, 0xff), -1);
    assert_eq!(sample_from_le(0x00, 0x80), i16::MIN);
    assert_eq!(sample_from_le(0xff, 0x7f), i16::MAX);
    let mut out = vec![9u8];
    push_sample(&mut out, -2);
    push_sample(&mut out, 0x0102);
    assert_eq!(out, vec![9, 0xfe, 0xff, 0x02, 0x01]);
}

#[test]
fn every_sample_survives_its_bytes() {
    for sample in i16::MIN..=i16::MAX {
        let mut out = Vec::new();
        push_sample(&mut out, sample);
        assert_eq!(out, sample.to_le_bytes().to_vec());
        assert_eq!(sample_from_le(out[0], out[1]), sample);
    }
}

#[test]
fn midpoints_round_towards_zero() {
    assert_eq!(mid_sample(1, 3), 2);
    assert_eq!(mid_sample(1, 2), 1);
    assert_eq!(mid_sample(-1, 0), 0);
    assert_eq!(mid_sample(-3, -2), -2);
    assert_eq!(mid_sample(i16::MAX, i16::MAX), i16::MAX);
    assert_eq!(mid_sample(i16::MIN, i16::MIN), i16::MIN);
    assert_eq!(mid_sample(i16::MIN, i16::MAX), 0);
}

#[test]
fn a_pair_becomes_three_samples() {
    let mut up = PairwiseUpsampler::default();
    let out = up.upsample_chunk(&bytes_of(&[100, 200, -4, 4]));
    assert_eq!(out, bytes_of(&[100, 150, 200, -4, 0, 4]));
    assert_eq!(up.carry_sample, None);
}

#[test]
fn a_lone_sample_waits_for_its_partner() {
    let mut up = PairwiseUpsampler::default();
    assert_eq!(up.upsample_chunk(&bytes_of(&[10])), Vec::<u8>::new());
    assert_eq!(up.carry_sample, Some(10));
    assert_eq!(up.upsample_chunk(&[]), Vec::<u8>::new());
    assert_eq!(up.carry_sample, Some(10));
    assert_eq!(up.upsample_chunk(&bytes_of(&[20, 30])), bytes_of(&[10, 15, 20]));
    assert_eq!(up.carry_sample, Some(30));
}

#[test]
fn an_odd_byte_is_dropped() {
    let mut up = PairwiseUpsampler::default();
    assert_eq!(up.upsample_chunk(&[1, 0, 3, 0, 77]), bytes_of(&[1, 2, 3]));
    assert_eq!(up.carry_sample, None);
    assert_eq!(up.upsample_chunk(&[5]), Vec::<u8>::new());
    assert_eq!(up.carry_sample, None);
}

#[test]
fn flushing_repeats_the_carried_sample_once() {
    let mut up = PairwiseUpsampler::default();
    up.upsample_chunk(&bytes_of(&[-7]));
    assert_eq!(up.flush(), bytes_of(&[-7, -7]));
    assert_eq!(up.flush(), Vec::<u8>::new());
}

#[test]
fn cutting_between_samples_changes_nothing() {
    let samples: Vec<i16> = (0..13).map(|i| (i * 1111 - 6000) as i16).collect();
    let input = bytes_of(&samples);
    let mut whole = PairwiseUpsampler::default();
    let mut expected = whole.upsample_chunk(&input);
    expected.extend(whole.flush());
    for cut in 0..=samples.len() {
        let mut up = PairwiseUpsampler::default();
        let mut out = up.upsample_chunk(&input[..2 * cut]);
        out.extend(up.upsample_chunk(&input[2 * cut..]));
        out.extend(up.flush());
        assert_eq!(out, expected);
    }
    assert_eq!(expected.len(), 2 * (3 * 6 + 2));
}
