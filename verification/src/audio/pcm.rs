//! The decoded form every audio path in the emulator hands on.

use vstd::prelude::*;

verus! {

/// PCM data decoded from a miscellaneous format file.
pub struct SymphoniaDecodedToPcm {
    /// 16-bit little-endian PCM samples, grouped in frames (one sample per
    /// channel in each frame).
    pub bytes: Vec<u8>,
    /// Sample rate in Hz.
    pub sample_rate: u32,
    /// Channel count.
    pub channels: u32,
}

/// The two little-endian bytes of a 16-bit sample.
pub open spec fn le_bytes_i16(sample: i16) -> Seq<u8> {
    let u: int = if sample < 0 { sample + 65536 } else { sample as int };
    seq![(u % 256) as u8, (u / 256) as u8]
}

/// The little-endian bytes of `sample`, as `i16::to_le_bytes` gives them.
pub fn i16_le_bytes(sample: i16) -> (r: [u8; 2])
    ensures
        r@ == le_bytes_i16(sample),
{
    let u: u32 = if sample < 0 { (sample as i32 + 65536) as u32 } else { sample as u32 };
    let r = [(u % 256) as u8, (u / 256) as u8];
    assert(r@ =~= le_bytes_i16(sample));
    r
}

} // verus!
