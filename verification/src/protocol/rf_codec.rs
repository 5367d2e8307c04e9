//! The five bytes of a radio frame.

use vstd::prelude::*;

verus! {

pub const MAX_INTENSITY: u8 = 99;

pub const MAX_CHANNEL: u8 = 2;

/// The sum of the first four bytes of a frame, modulo 256.
pub open spec fn checksum(raw: Seq<u8>) -> u8 {
    ((raw[0] + raw[1] + raw[2] + raw[3]) % 256) as u8
}

/// The frame of a command: the identity of the collar, channel and mode in half a byte each,
/// the intensity, and the checksum. Of channel and mode the low four bits are sent.
pub open spec fn rf_frame(collar_id: u16, channel: u8, mode: u8, intensity: u8) -> Seq<u8> {
    let body = seq![
        (collar_id / 256) as u8,
        (collar_id % 256) as u8,
        ((channel % 16) * 16 + mode % 16) as u8,
        intensity,
    ];
    body.push(checksum(body))
}

/// Builds the frame of a command.
pub fn encode_rf_frame(collar_id: u16, channel: u8, mode: u8, intensity: u8) -> (r: [u8; 5])
    requires
        intensity <= MAX_INTENSITY,
    ensures
        r@ == rf_frame(collar_id, channel, mode, intensity),
{
    let b0: u8 = (collar_id >> 8) as u8;
    let b1: u8 = (collar_id & 0xFF) as u8;
    let b2: u8 = (channel << 4) | (mode & 0x0F);
    let b3: u8 = intensity;
    assert(collar_id >> 8 == collar_id / 256 && collar_id >> 8 < 256) by (bit_vector);
    assert(collar_id & 0xFF == collar_id % 256 && collar_id & 0xFF < 256) by (bit_vector);
    assert((channel << 4) | (mode & 0x0F) == (channel % 16) * 16 + mode % 16) by (bit_vector);
    let b4: u8 = b0.wrapping_add(b1).wrapping_add(b2).wrapping_add(b3);
    let r = [b0, b1, b2, b3, b4];
    assert(r@ =~= rf_frame(collar_id, channel, mode, intensity));
    r
}

/// What a frame says of the command that it carries, as `decode_rf_frame` reads it.
pub open spec fn decoded(raw: Seq<u8>) -> (u16, u8, u8, u8, bool) {
    (
        (raw[0] * 256 + raw[1]) as u16,
        raw[2] / 16,
        raw[2] % 16,
        raw[3],
        raw[4] == checksum(raw),
    )
}

/// Takes a frame apart: collar, channel, mode, intensity, and whether the checksum holds.
pub fn decode_rf_frame(raw: &[u8; 5]) -> (r: (u16, u8, u8, u8, bool))
    ensures
        r == decoded(raw@),
{
    let r0: u8 = raw[0];
    let r1: u8 = raw[1];
    let r2: u8 = raw[2];
    let collar_id: u16 = (r0 as u16) << 8 | (r1 as u16);
    assert((r0 as u16) << 8 | (r1 as u16) == r0 * 256 + r1) by (bit_vector);
    let channel: u8 = r2 >> 4;
    assert(r2 >> 4 == r2 / 16) by (bit_vector);
    let mode_raw: u8 = r2 & 0x0F;
    assert(r2 & 0x0F == r2 % 16) by (bit_vector);
    let intensity: u8 = raw[3];
    let sum: u8 = r0.wrapping_add(r1).wrapping_add(r2).wrapping_add(intensity);
    (collar_id, channel, mode_raw, intensity, raw[4] == sum)
}

/// A frame that was built from a command is read back as that command, with a good checksum.
pub proof fn lemma_frame_round_trip(collar_id: u16, channel: u8, mode: u8, intensity: u8)
    requires
        channel < 16,
        mode < 16,
    ensures
        decoded(rf_frame(collar_id, channel, mode, intensity)) == (
            collar_id,
            channel,
            mode,
            intensity,
            true,
        ),
{
    let raw = rf_frame(collar_id, channel, mode, intensity);
    assert(raw[2] == channel * 16 + mode);
}

/// A good frame in which exactly one byte was changed has a bad checksum.
pub proof fn lemma_checksum_catches_one_byte(raw: Seq<u8>, i: int, b: u8)
    requires
        raw.len() == 5,
        decoded(raw).4,
        0 <= i < 5,
        b != raw[i],
    ensures
        !decoded(raw.update(i, b)).4,
{
    let bad = raw.update(i, b);
    if i < 4 {
        let s = raw[0] + raw[1] + raw[2] + raw[3];
        let t = bad[0] + bad[1] + bad[2] + bad[3];
        assert(t == s - raw[i] + b);
        assert(s % 256 != t % 256);
    }
}

/// A frame begins with the identity of the collar, high byte first; channel and mode share a byte,
/// the channel in its high half; the intensity follows, and the sum of these four without its
/// carries.
pub proof fn lemma_frame_layout(collar_id: u16, channel: u8, mode: u8, intensity: u8)
    requires
        channel < 16,
        mode < 16,
    ensures
        ({
            let raw = rf_frame(collar_id, channel, mode, intensity);
            &&& raw.len() == 5
            &&& raw[0] * 256 + raw[1] == collar_id
            &&& raw[2] == channel * 16 + mode
            &&& raw[3] == intensity
            &&& exists|carries: int|
                raw[0] + raw[1] + raw[2] + raw[3] == #[trigger] (carries * 256) + raw[4]
        }),
{
    let raw = rf_frame(collar_id, channel, mode, intensity);
    let sum = raw[0] + raw[1] + raw[2] + raw[3];
    assert(sum == (sum / 256) * 256 + raw[4]);
}

/// A frame is read byte by byte: the identity of the collar from the first two, high byte first,
/// channel and mode from the halves of the third, the intensity from the fourth; it is good exactly
/// if the fifth is the sum of the others without its carries.
pub proof fn lemma_frame_reading(raw: Seq<u8>)
    requires
        raw.len() == 5,
    ensures
        ({
            let (collar_id, channel, mode, intensity, good) = decoded(raw);
            &&& collar_id == raw[0] * 256 + raw[1]
            &&& raw[2] == channel * 16 + mode
            &&& mode < 16
            &&& channel < 16
            &&& intensity == raw[3]
            &&& good == ((raw[0] + raw[1] + raw[2] + raw[3] - raw[4]) % 256 == 0)
        }),
{
}

} // verus!
