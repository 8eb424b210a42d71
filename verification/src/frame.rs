//! Decoding of telemetry frames.
//!
//! A frame is one datagram of exactly [`FRAME_LEN`] bytes: six little-endian
//! IEEE-754 binary64 fields in the order x, y, z, yaw, pitch, roll. Only the
//! three angles are kept. They are handed out as raw bit patterns, so the
//! decoder is independent of the byte order of the host.

use vstd::prelude::*;

verus! {

/// Length in bytes of a telemetry frame.
pub const FRAME_LEN: usize = 48;

/// Length in bytes of one field of a frame.
pub const FIELD_LEN: usize = 8;

/// Index of the yaw field within a frame.
pub const YAW_FIELD: usize = 3;

/// Index of the pitch field within a frame.
pub const PITCH_FIELD: usize = 4;

/// Index of the roll field within a frame.
pub const ROLL_FIELD: usize = 5;

/// The three angles of one frame, each as the bit pattern of a binary64
/// number of degrees.
#[derive(Clone, Copy, Debug, PartialEq, Eq, Structural)]
pub struct OrientationSample {
    pub yaw_bits: u64,
    pub pitch_bits: u64,
    pub roll_bits: u64,
}

/// The number that the eight bytes starting at `offset` spell in
/// little-endian order: the first byte is the least significant.
pub open spec fn le_bits(bytes: Seq<u8>, offset: int) -> int {
    bytes[offset] as int
        + bytes[offset + 1] as int * 0x100
        + bytes[offset + 2] as int * 0x1_0000
        + bytes[offset + 3] as int * 0x100_0000
        + bytes[offset + 4] as int * 0x1_0000_0000
        + bytes[offset + 5] as int * 0x100_0000_0000
        + bytes[offset + 6] as int * 0x1_0000_0000_0000
        + bytes[offset + 7] as int * 0x100_0000_0000_0000
}

/// The sample that a well-sized frame carries.
pub open spec fn sample_of(frame: Seq<u8>) -> OrientationSample {
    OrientationSample {
        yaw_bits: le_bits(frame, YAW_FIELD * FIELD_LEN) as u64,
        pitch_bits: le_bits(frame, PITCH_FIELD * FIELD_LEN) as u64,
        roll_bits: le_bits(frame, ROLL_FIELD * FIELD_LEN) as u64,
    }
}

/// What the decoder yields for a datagram: a sample for a datagram of
/// exactly [`FRAME_LEN`] bytes, nothing for any other length.
pub open spec fn decoded(datagram: Seq<u8>) -> Option<OrientationSample> {
    if datagram.len() == FRAME_LEN {
        Some(sample_of(datagram))
    } else {
        None
    }
}

/// Eight bytes spell a number below 2^64.
pub proof fn lemma_le_bits_in_range(bytes: Seq<u8>, offset: int)
    requires
        0 <= offset,
        offset + 8 <= bytes.len(),
    ensures
        0 <= le_bits(bytes, offset) <= u64::MAX,
{
}

/// Reads the field that starts at `offset` as a little-endian integer.
fn read_field(bytes: &[u8], offset: usize) -> (bits: u64)
    requires
        offset + FIELD_LEN <= bytes@.len(),
    ensures
        bits == le_bits(bytes@, offset as int),
{
    let b0: u64 = bytes[offset] as u64;
    let b1: u64 = bytes[offset + 1] as u64;
    let b2: u64 = bytes[offset + 2] as u64;
    let b3: u64 = bytes[offset + 3] as u64;
    let b4: u64 = bytes[offset + 4] as u64;
    let b5: u64 = bytes[offset + 5] as u64;
    let b6: u64 = bytes[offset + 6] as u64;
    let b7: u64 = bytes[offset + 7] as u64;
    b0 + b1 * 0x100 + b2 * 0x1_0000 + b3 * 0x100_0000 + b4 * 0x1_0000_0000 + b5
        * 0x100_0000_0000 + b6 * 0x1_0000_0000_0000 + b7 * 0x100_0000_0000_0000
}

/// Decodes one datagram. A datagram whose length is not [`FRAME_LEN`]
/// yields no sample; no partial frame is ever read.
pub fn decode_frame(datagram: &[u8]) -> (sample: Option<OrientationSample>)
    ensures
        sample == decoded(datagram@),
{
    if datagram.len() != FRAME_LEN {
        return None;
    }
    proof {
        lemma_le_bits_in_range(datagram@, YAW_FIELD * FIELD_LEN);
        lemma_le_bits_in_range(datagram@, PITCH_FIELD * FIELD_LEN);
        lemma_le_bits_in_range(datagram@, ROLL_FIELD * FIELD_LEN);
    }
    Some(
        OrientationSample {
            yaw_bits: read_field(datagram, YAW_FIELD * FIELD_LEN),
            pitch_bits: read_field(datagram, PITCH_FIELD * FIELD_LEN),
            roll_bits: read_field(datagram, ROLL_FIELD * FIELD_LEN),
        },
    )
}

} // verus!
