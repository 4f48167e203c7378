//! Narrow fallback for Core Audio Format containers holding signed 8-bit
//! linear PCM, which the general decoder's CAF reader rejects.

use crate::audio::pcm::{i16_le_bytes, le_bytes_i16, SymphoniaDecodedToPcm};
use crate::bytes::{be32, be64, has_tag, read_be16, read_be32, read_be64, tag_is};
use vstd::arithmetic::power2::pow2;
use vstd::bits::{lemma_u64_pow2_no_overflow, lemma_u64_shl_is_mul};
use vstd::prelude::*;

verus! {

/// Bytes in the file header: `caff`, version, flags.
pub const CAF_HEADER_SIZE: usize = 8;

/// Bytes in a chunk header: type and a signed 64-bit size.
pub const CHUNK_HEADER_SIZE: usize = 12;

/// Bytes in an audio description chunk.
pub const AUDIO_DESCRIPTION_SIZE: usize = 32;

/// The serialized CAF-file "is float" flag. These flags intentionally differ
/// from the similarly named stream-description flags.
pub const CAF_LPCM_FLAG_IS_FLOAT: u32 = 1;

/// The serialized CAF-file "is little endian" flag.
pub const CAF_LPCM_FLAG_IS_LITTLE_ENDIAN: u32 = 2;

pub open spec fn caff_tag() -> Seq<u8> {
    seq![0x63u8, 0x61, 0x66, 0x66]
}

pub open spec fn desc_tag() -> Seq<u8> {
    seq![0x64u8, 0x65, 0x73, 0x63]
}

pub open spec fn data_tag() -> Seq<u8> {
    seq![0x64u8, 0x61, 0x74, 0x61]
}

pub open spec fn lpcm_tag() -> Seq<u8> {
    seq![0x6cu8, 0x70, 0x63, 0x6d]
}

/// The whole number an IEEE 754 binary64 bit pattern denotes, when it is
/// finite, positive, has no fractional part, and fits in 32 bits.
///
/// A normal number is `(2^52 + fraction) * 2^(exponent - 1075)`; anything
/// with a zero or all-ones exponent field, or a sign bit, is not such a
/// number, and neither is one below 1 or at or above 2^52.
pub open spec fn f64_bits_whole_u32(bits: u64) -> Option<u32> {
    let sign = bits / 0x8000_0000_0000_0000;
    let exponent = (bits / 0x10_0000_0000_0000) % 2048;
    let fraction = bits % 0x10_0000_0000_0000;
    let shift = 1075 - exponent;
    let mantissa = 0x10_0000_0000_0000 + fraction;
    if sign != 0 || exponent == 0 || exponent == 2047 || shift <= 0 || shift > 52 {
        None
    } else if mantissa % (pow2(shift as nat) as int) != 0 {
        None
    } else if mantissa / (pow2(shift as nat) as int) > u32::MAX {
        None
    } else {
        Some((mantissa / (pow2(shift as nat) as int)) as u32)
    }
}

/// Read a sample rate stored as a binary64 bit pattern: it must be finite,
/// positive, a whole number and at most `u32::MAX`.
pub fn f64_bits_to_whole_u32(bits: u64) -> (r: Option<u32>)
    ensures
        r == f64_bits_whole_u32(bits),
{
    let sign = bits / 0x8000_0000_0000_0000;
    let exponent = (bits / 0x10_0000_0000_0000) % 2048;
    let fraction = bits % 0x10_0000_0000_0000;
    if sign != 0 || exponent == 0 || exponent == 2047 || exponent >= 1075 || exponent < 1023 {
        return None;
    }
    let shift = 1075 - exponent;
    let mantissa = 0x10_0000_0000_0000 + fraction;
    proof {
        lemma_u64_pow2_no_overflow(shift as nat);
        lemma_u64_shl_is_mul(1, shift);
    }
    let divisor: u64 = 1u64 << shift;
    if mantissa % divisor != 0 {
        return None;
    }
    let value = mantissa / divisor;
    if value > 0xffff_ffff {
        return None;
    }
    Some(value as u32)
}

/// The `(sample rate, channels)` of a signed 8-bit LPCM audio description
/// held in `s[start..start + size]`, or `Err` for anything else.
///
/// In the CAF file format a clear float bit means signed integer; the
/// endianness bit has no effect on one-byte samples; all other flags are
/// reserved. Only one or two interleaved channels are accepted.
pub open spec fn signed_8_bit_description(s: Seq<u8>, start: int, size: int) -> Result<(u32, u32), ()> {
    if size != 32 || !has_tag(s, start + 8, lpcm_tag()) {
        Err(())
    } else {
        let flags = be32(s, start + 12);
        let bytes_per_packet = be32(s, start + 16);
        let frames_per_packet = be32(s, start + 20);
        let channels = be32(s, start + 24);
        let bits_per_channel = be32(s, start + 28);
        match f64_bits_whole_u32(be64(s, start) as u64) {
            None => Err(()),
            Some(rate) => {
                if !(flags == 0 || flags == 2) || !(channels == 1 || channels == 2)
                    || bytes_per_packet != channels || frames_per_packet != 1 || bits_per_channel
                    != 8 {
                    Err(())
                } else {
                    Ok((rate, channels as u32))
                }
            },
        }
    }
}

fn parse_signed_8_bit_description(bytes: &[u8], start: usize, size: usize) -> (r: Result<
    (u32, u32),
    (),
>)
    requires
        start + size <= bytes.len(),
    ensures
        r == signed_8_bit_description(bytes@, start as int, size as int),
{
    if size != AUDIO_DESCRIPTION_SIZE || !tag_is(bytes, start + 8, &[0x6c, 0x70, 0x63, 0x6d]) {
        return Err(());
    }
    let rate = match f64_bits_to_whole_u32(read_be64(bytes, start)) {
        Some(rate) => rate,
        None => {
            return Err(());
        },
    };
    let format_flags = read_be32(bytes, start + 12);
    let bytes_per_packet = read_be32(bytes, start + 16);
    let frames_per_packet = read_be32(bytes, start + 20);
    let channels = read_be32(bytes, start + 24);
    let bits_per_channel = read_be32(bytes, start + 28);
    if !(format_flags == 0 || format_flags == CAF_LPCM_FLAG_IS_LITTLE_ENDIAN) || !(channels == 1
        || channels == 2) || bytes_per_packet != channels || frames_per_packet != 1
        || bits_per_channel != 8 {
        return Err(());
    }
    Ok((rate, channels))
}

/// What the chunk walk has found: the description and the sample byte range.
pub type CafFound = (Option<(u32, u32)>, Option<(int, int)>);

/// The effect of one chunk of type at `pos` whose body is `s[body..end]`.
pub open spec fn caf_chunk(s: Seq<u8>, pos: int, body: int, end: int, found: CafFound) -> Result<
    CafFound,
    (),
> {
    if has_tag(s, pos, desc_tag()) {
        if found.0 is Some {
            Err(())
        } else {
            match signed_8_bit_description(s, body, end - body) {
                Ok(d) => Ok((Some(d), found.1)),
                Err(_) => Err(()),
            }
        }
    } else if has_tag(s, pos, data_tag()) {
        // The edit count is metadata describing the data history; it may be
        // nonzero in ordinary files and does not change the sample layout.
        if found.1 is Some || found.0 is None || end - body < 4 {
            Err(())
        } else {
            Ok((found.0, Some((body + 4, end))))
        }
    } else {
        Ok(found)
    }
}

/// Walk the chunks from `pos` on. A data chunk of size -1 runs to the end of
/// the file and ends the walk.
pub open spec fn caf_scan(s: Seq<u8>, pos: int, found: CafFound) -> Result<CafFound, ()>
    decreases s.len() - pos,
{
    if !(0 <= pos < s.len()) {
        Ok(found)
    } else if s.len() - pos < 12 {
        Err(())
    } else {
        let size = be64(s, pos + 4);
        let body = pos + 12;
        if size == 0xffff_ffff_ffff_ffff {
            if !has_tag(s, pos, data_tag()) {
                Err(())
            } else {
                caf_chunk(s, pos, body, s.len() as int, found)
            }
        } else if size >= 0x8000_0000_0000_0000 || size > s.len() - body {
            Err(())
        } else {
            match caf_chunk(s, pos, body, body + size, found) {
                Err(e) => Err(e),
                Ok(f) => caf_scan(s, body + size, f),
            }
        }
    }
}

/// A signed 8-bit sample widened to 16 bits.
pub open spec fn widened_sample(b: u8) -> i16 {
    if b < 128 {
        (b * 256) as i16
    } else {
        ((b - 256) * 256) as i16
    }
}

/// The 16-bit little-endian PCM that the 8-bit samples `data` widen to.
pub open spec fn widened_pcm(data: Seq<u8>) -> Seq<u8> {
    Seq::new(data.len() * 2, |k: int| le_bytes_i16(widened_sample(data[k / 2]))[k % 2])
}

/// What a version 1 CAF file of signed 8-bit LPCM decodes to:
/// `(sample rate, channels, PCM)`.
pub open spec fn caf_decoding(s: Seq<u8>) -> Result<(u32, u32, Seq<u8>), ()> {
    if s.len() < 8 || !has_tag(s, 0, caff_tag()) || s[4] != 0 || s[5] != 1 || s[6] != 0 || s[7]
        != 0 {
        Err(())
    } else {
        match caf_scan(s, 8, (None, None)) {
            Err(_) => Err(()),
            Ok(found) => {
                if found.0 is None || found.1 is None {
                    Err(())
                } else {
                    let (rate, channels) = found.0.unwrap();
                    let (a, b) = found.1.unwrap();
                    if a == b || (b - a) % (channels as int) != 0 {
                        Err(())
                    } else {
                        Ok((rate, channels, widened_pcm(s.subrange(a, b))))
                    }
                }
            },
        }
    }
}

/// Widen one signed 8-bit sample to 16 bits, as `i16::from(b as i8) << 8`.
fn widen(b: u8) -> (r: i16)
    ensures
        r == widened_sample(b),
{
    if b < 128 {
        (b as i16) * 256
    } else {
        (b as i16 - 256) * 256
    }
}

/// Decode signed 8-bit interleaved LPCM from a version 1 CAF container, to
/// the 16-bit little-endian shape the rest of the decoded-file path uses.
pub fn decode_signed_8_bit_lpcm(bytes: &[u8]) -> (res: Result<SymphoniaDecodedToPcm, ()>)
    ensures
        match caf_decoding(bytes@) {
            Ok((rate, channels, pcm)) => res matches Ok(d) && d.sample_rate == rate && d.channels
                == channels && d.bytes@ == pcm,
            Err(_) => res is Err,
        },
{
    let len = bytes.len();
    if len < CAF_HEADER_SIZE {
        return Err(());
    }
    if !tag_is(bytes, 0, &[0x63, 0x61, 0x66, 0x66]) || read_be16(bytes, 4) != 1 || read_be16(
        bytes,
        6,
    ) != 0 {
        return Err(());
    }
    let mut description: Option<(u32, u32)> = None;
    let mut audio_data: Option<(usize, usize)> = None;
    let ghost mut spec_data: Option<(int, int)> = None;
    let mut position: usize = CAF_HEADER_SIZE;
    while position < len
        invariant
            len == bytes@.len(),
            8 <= position <= len,
            spec_data == (match audio_data {
                Some((a, b)) => Some((a as int, b as int)),
                None => None::<(int, int)>,
            }),
            audio_data matches Some((a, b)) ==> a <= b <= len,
            description matches Some((r, c)) ==> c == 1 || c == 2,
            caf_scan(bytes@, 8, (None, None)) == caf_scan(
                bytes@,
                position as int,
                (description, spec_data),
            ),
        decreases len - position,
    {
        if len - position < CHUNK_HEADER_SIZE {
            return Err(());
        }
        let is_desc = tag_is(bytes, position, &[0x64, 0x65, 0x73, 0x63]);
        let is_data = tag_is(bytes, position, &[0x64, 0x61, 0x74, 0x61]);
        let chunk_size = read_be64(bytes, position + 4);
        let body = position + CHUNK_HEADER_SIZE;
        let end: usize;
        if chunk_size == 0xffff_ffff_ffff_ffff {
            if !is_data {
                return Err(());
            }
            end = len;
        } else {
            if chunk_size >= 0x8000_0000_0000_0000 || chunk_size > (len - body) as u64 {
                return Err(());
            }
            end = body + chunk_size as usize;
        }
        if is_desc {
            if description.is_some() {
                return Err(());
            }
            description = match parse_signed_8_bit_description(bytes, body, end - body) {
                Ok(d) => Some(d),
                Err(()) => {
                    return Err(());
                },
            };
        } else if is_data {
            if audio_data.is_some() || description.is_none() || end - body < 4 {
                return Err(());
            }
            audio_data = Some((body + 4, end));
            proof {
                spec_data = Some(((body + 4) as int, end as int));
            }
        }
        position = end;
    }
    let (rate, channels) = match description {
        Some(d) => d,
        None => {
            return Err(());
        },
    };
    let (start, stop) = match audio_data {
        Some(range) => range,
        None => {
            return Err(());
        },
    };
    if start == stop {
        return Err(());
    }
    let ch = channels as usize;
    if (stop - start) % ch != 0 {
        return Err(());
    }
    let ghost data = bytes@.subrange(start as int, stop as int);
    let mut decoded: Vec<u8> = Vec::new();
    let mut i: usize = start;
    while i < stop
        invariant
            len == bytes@.len(),
            start <= i <= stop <= len,
            data == bytes@.subrange(start as int, stop as int),
            decoded@.len() == (i - start) * 2,
            forall|k: int|
                0 <= k < decoded@.len() ==> decoded@[k] == le_bytes_i16(
                    widened_sample(data[k / 2]),
                )[k % 2],
        decreases stop - i,
    {
        let sample = widen(bytes[i]);
        let le = i16_le_bytes(sample);
        decoded.push(le[0]);
        decoded.push(le[1]);
        i = i + 1;
    }
    assert(decoded@ =~= widened_pcm(data));
    Ok(SymphoniaDecodedToPcm { bytes: decoded, sample_rate: rate, channels })
}

} // verus!
