//! The name by which a device is known.

use vstd::prelude::*;

use crate::protocol::settings::{DeviceSettings, DeviceSettingsView};

verus! {

/// A lower-case hexadecimal digit.
pub open spec fn low_digit(d: int) -> char {
    if d < 10 {
        ('0' as int + d) as char
    } else {
        ('a' as int + d - 10) as char
    }
}

/// A byte as two lower-case hexadecimal digits.
pub open spec fn low_hex(b: u8) -> Seq<char> {
    seq![low_digit((b / 16) as int), low_digit((b % 16) as int)]
}

/// Bytes as lower-case hexadecimal digits.
pub open spec fn low_hex_all(bytes: Seq<u8>) -> Seq<char>
    decreases bytes.len(),
{
    if bytes.len() == 0 {
        Seq::empty()
    } else {
        low_hex_all(bytes.drop_last()) + low_hex(bytes.last())
    }
}

/// Sixteen bytes as a UUID is written: groups of four, two, two, two and six bytes, with hyphens
/// between them.
pub open spec fn uuid_text(bytes: Seq<u8>) -> Seq<char> {
    low_hex_all(bytes.subrange(0, 4)) + "-"@ + low_hex_all(bytes.subrange(4, 6)) + "-"@
        + low_hex_all(bytes.subrange(6, 8)) + "-"@ + low_hex_all(bytes.subrange(8, 10)) + "-"@
        + low_hex_all(bytes.subrange(10, 16))
}

/// Writes a UUID: `uuid::Uuid::from_bytes` and its `Display`, which gives the bytes in order as
/// lower-case hexadecimal digits in five groups with hyphens between them.
#[verifier::external_body]
fn write_uuid(bytes: [u8; 16]) -> (r: String)
    ensures
        r@ == uuid_text(bytes@),
{
    uuid::Uuid::from_bytes(bytes).to_string()
}

/// Random bytes with the marks of a random UUID: version 4 in the upper half of the seventh byte,
/// and the variant in the two upper bits of the ninth.
pub open spec fn marked(random: Seq<u8>) -> Seq<u8> {
    random.update(6, (random[6] % 16 + 64) as u8).update(8, (random[8] % 64 + 128) as u8)
}

/// A new device id from random bytes.
pub fn generate_uuid_v4(random: [u8; 16]) -> (r: String)
    ensures
        r@ == uuid_text(marked(random@)),
{
    let mut bytes = random;
    let b: u8 = random[6];
    let c: u8 = random[8];
    assert((b & 0x0f) | 0x40 == b % 16 + 64) by (bit_vector);
    assert((c & 0x3f) | 0x80 == c % 64 + 128) by (bit_vector);
    bytes[6] = (b & 0x0f) | 0x40;
    bytes[8] = (c & 0x3f) | 0x80;
    assert(bytes@ =~= marked(random@));
    write_uuid(bytes)
}

/// The settings with a device id: the one they have, or else a new one.
pub open spec fn with_device_id(s: DeviceSettingsView, random: Seq<u8>) -> DeviceSettingsView {
    if s.device_id.len() == 0 {
        DeviceSettingsView { device_id: uuid_text(marked(random)), ..s }
    } else {
        s
    }
}

/// Gives the settings a device id if they have none, and says whether they have to be saved.
pub fn fill_device_id(settings: &mut DeviceSettings, random: [u8; 16]) -> (r: bool)
    ensures
        final(settings).deep_view() == with_device_id(old(settings).deep_view(), random@),
        r == (old(settings).device_id@.len() == 0),
{
    if settings.device_id.as_str().is_empty() {
        settings.device_id = generate_uuid_v4(random);
        true
    } else {
        false
    }
}

proof fn lemma_low_hex_len(bytes: Seq<u8>)
    ensures
        low_hex_all(bytes).len() == 2 * bytes.len(),
    decreases bytes.len(),
{
    if bytes.len() > 0 {
        lemma_low_hex_len(bytes.drop_last());
    }
}

/// A device id is a version 4 UUID of 36 characters, and once there is one it stays.
pub proof fn lemma_device_id_stays(
    s: DeviceSettingsView,
    random: Seq<u8>,
    other: Seq<u8>,
)
    requires
        random.len() == 16,
    ensures
        with_device_id(s, random).device_id.len() > 0,
        with_device_id(with_device_id(s, random), other) == with_device_id(s, random),
        s.device_id.len() == 0 ==> {
            let id = with_device_id(s, random).device_id;
            &&& id.len() == 36
            &&& id[8] == '-' && id[13] == '-' && id[18] == '-' && id[23] == '-'
            &&& id[14] == '4'
            &&& id[19] == '8' || id[19] == '9' || id[19] == 'a' || id[19] == 'b'
        },
{
    reveal_strlit("-");
    let m = marked(random);
    lemma_low_hex_len(m.subrange(0, 4));
    lemma_low_hex_len(m.subrange(4, 6));
    lemma_low_hex_len(m.subrange(6, 8));
    lemma_low_hex_len(m.subrange(8, 10));
    lemma_low_hex_len(m.subrange(10, 16));
    lemma_two_bytes(m.subrange(6, 8));
    lemma_two_bytes(m.subrange(8, 10));
    let id = uuid_text(m);
    let third = low_hex_all(m.subrange(6, 8));
    let fourth = low_hex_all(m.subrange(8, 10));
    assert(id[14] == third[0]);
    assert(id[19] == fourth[0]);
    assert(m[6] == random[6] % 16 + 64);
    assert(m[8] == random[8] % 64 + 128);
}

proof fn lemma_two_bytes(bytes: Seq<u8>)
    requires
        bytes.len() == 2,
    ensures
        low_hex_all(bytes).len() == 4,
        low_hex_all(bytes)[0] == low_digit((bytes[0] / 16) as int),
{
    reveal_with_fuel(low_hex_all, 3);
    assert(low_hex_all(bytes) =~= low_hex(bytes[0]) + low_hex(bytes[1]));
}

/// A new device id keeps the random bytes but for the marks: the upper half of the seventh byte is
/// 4, and the two upper bits of the ninth are 1 and 0.
pub proof fn lemma_marks_keep_randomness(random: Seq<u8>)
    requires
        random.len() == 16,
    ensures
        ({
            let m = marked(random);
            &&& m.len() == 16
            &&& forall|i: int| 0 <= i < 16 && i != 6 && i != 8 ==> #[trigger] m[i] == random[i]
            &&& m[6] / 16 == 4
            &&& m[6] % 16 == random[6] % 16
            &&& m[8] / 64 == 2
            &&& m[8] % 64 == random[8] % 64
        }),
{
}

/// Settings that have a device id keep it; giving one to the others changes nothing else.
pub proof fn lemma_only_a_missing_id_is_filled(s: DeviceSettingsView, random: Seq<u8>)
    ensures
        s.device_id.len() > 0 ==> with_device_id(s, random) == s,
        s.device_id.len() == 0 ==> with_device_id(s, random).device_id == uuid_text(
            marked(random),
        ),
        s == (DeviceSettingsView { device_id: s.device_id, ..with_device_id(s, random) }),
{
}

} // verus!
