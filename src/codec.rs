use vstd::prelude::*;

verus! {

/// Largest user-facing brightness, in percent.
pub const MAX_PERCENT: u8 = 100;

/// The device's raw value for a percentage: `percent * 255 / 100`, rounded
/// half away from zero.
pub open spec fn encode_spec(percent: int) -> int {
    (percent * 255 + 50) / 100
}

/// The percentage nearest to a raw value: `raw * 100 / 255`, rounded to the
/// nearest integer (no raw value lies exactly halfway between two).
pub open spec fn decode_spec(raw: int) -> int {
    (raw * 100 + 127) / 255
}

/// Distance between two integers.
pub open spec fn abs_diff(a: int, b: int) -> int {
    if a >= b {
        a - b
    } else {
        b - a
    }
}

/// Converts a brightness percentage to the device's native 0..=255 encoding.
pub fn encode(percent: u8) -> (raw: u8)
    requires
        percent <= MAX_PERCENT,
    ensures
        raw as int == encode_spec(percent as int),
{
    let scaled: u32 = percent as u32 * 255 + 50;
    (scaled / 100) as u8
}

/// Converts a raw device value back to the nearest brightness percentage.
pub fn decode(raw: u8) -> (percent: u8)
    ensures
        percent as int == decode_spec(raw as int),
        percent <= MAX_PERCENT,
{
    let scaled: u32 = raw as u32 * 100 + 127;
    (scaled / 255) as u8
}

/// Encoding loses at most half a raw unit: `encode(p)` is the raw value
/// nearest to `p * 2.55`.
pub proof fn lemma_encode_within_half_unit(percent: int)
    requires
        0 <= percent <= 100,
    ensures
        0 <= encode_spec(percent) <= 255,
        abs_diff(encode_spec(percent) * 100, percent * 255) <= 50,
{
}

/// Decoding an encoded percentage gives the percentage back.
pub proof fn lemma_decode_encode(percent: int)
    requires
        0 <= percent <= 100,
    ensures
        decode_spec(encode_spec(percent)) == percent,
{
    let r = encode_spec(percent);
    assert(100 * r <= percent * 255 + 50);
    assert(percent * 255 + 50 < 100 * r + 100);
}

/// A raw value taken to a percentage and encoded again moves by at most one
/// raw unit.
pub proof fn lemma_encode_decode_within_one_unit(raw: int)
    requires
        0 <= raw <= 255,
    ensures
        0 <= decode_spec(raw) <= 100,
        abs_diff(encode_spec(decode_spec(raw)), raw) <= 1,
{
    let p = decode_spec(raw);
    assert(255 * p <= raw * 100 + 127);
    assert(raw * 100 + 127 < 255 * p + 255);
    let r = encode_spec(p);
    assert(100 * r <= p * 255 + 50);
    assert(p * 255 + 50 < 100 * r + 100);
}

/// The fixed points of the encoding: no brightness, full brightness, and
/// half brightness rounded up.
pub proof fn lemma_encode_landmarks()
    ensures
        encode_spec(0) == 0,
        encode_spec(100) == 255,
        encode_spec(50) == 128,
        encode_spec(75) == 191,
{
}

} // verus!
