use head_panner::frame::{
    decode_frame, OrientationSample, FIELD_LEN, FRAME_LEN, PITCH_FIELD, ROLL_FIELD, YAW_FIELD,
};

fn frame_of(fields: [f64; 6]) -> Vec<u8> {
    let mut bytes = Vec::new();
    for value in fields {
        bytes.extend_from_slice(&value.to_le_bytes());
    }
    bytes
}

#[test]
fn frame_length_is_six_doubles() {
    assert_eq!(FRAME_LEN, 48);
    assert_eq!(FIELD_LEN, 8);
    assert_eq!(frame_of([0.0; 6]).len(), FRAME_LEN);
    assert_eq!((YAW_FIELD, PITCH_FIELD, ROLL_FIELD), (3, 4, 5));
}

#[test]
fn decodes_the_three_angles() {
    let bytes = frame_of([1.5, -2.5, 3.25, 12.0, -7.5, 0.125]);
    let sample = decode_frame(&bytes).expect("a full frame decodes");
    assert_eq!(f64::from_bits(sample.yaw_bits), 12.0);
    assert_eq!(f64::from_bits(sample.pitch_bits), -7.5);
    assert_eq!(f64::from_bits(sample.roll_bits), 0.125);
}

#[test]
fn position_fields_are_ignored() {
    let a = frame_of([1.0, 2.0, 3.0, 10.0, 20.0, 30.0]);
    let b = frame_of([-9.0, 8.5, 1e300, 10.0, 20.0, 30.0]);
    assert_eq!(decode_frame(&a), decode_frame(&b));
}

#[test]
fn fields_are_little_endian() {
    let mut bytes = vec![0u8; 48];
    bytes[24] = 0x01;
    bytes[25] = 0x02;
    bytes[32] = 0xFF;
    bytes[39] = 0x80;
    bytes[40..48].copy_from_slice(&[0x08, 0x07, 0x06, 0x05, 0x04, 0x03, 0x02, 0x01]);
    let sample = decode_frame(&bytes).expect("a full frame decodes");
    assert_eq!(
        sample,
        OrientationSample {
            yaw_bits: 0x0201,
            pitch_bits: 0x8000_0000_0000_00FF,
            roll_bits: 0x0102_0304_0506_0708,
        }
    );
}

#[test]
fn largest_bit_patterns_decode_without_loss() {
    let bytes = vec![0xFFu8; 48];
    let sample = decode_frame(&bytes).expect("a full frame decodes");
    assert_eq!(
        sample,
        OrientationSample { yaw_bits: u64::MAX, pitch_bits: u64::MAX, roll_bits: u64::MAX }
    );
}

#[test]
fn decoding_agrees_with_the_standard_library() {
    let values = [0.0, -0.0, 1.0, -1.0, 29.999, 1e-300, f64::MAX, f64::MIN_POSITIVE, f64::INFINITY];
    for &yaw in &values {
        for &pitch in &values {
            let bytes = frame_of([0.0, 0.0, 0.0, yaw, pitch, -yaw]);
            let sample = decode_frame(&bytes).expect("a full frame decodes");
            assert_eq!(sample.yaw_bits, yaw.to_bits());
            assert_eq!(sample.pitch_bits, pitch.to_bits());
            assert_eq!(sample.roll_bits, (-yaw).to_bits());
        }
    }
}

#[test]
fn short_datagram_yields_no_sample() {
    let bytes = vec![0u8; 40];
    assert_eq!(decode_frame(&bytes), None::<OrientationSample>);
}

#[test]
fn any_other_length_yields_no_sample() {
    for len in 0usize..100 {
        let bytes = vec![0x3Fu8; len];
        assert_eq!(decode_frame(&bytes).is_some(), len == 48, "length {}", len);
    }
}
