//! Narrow fallback for AIFF-C containers holding Apple IMA4 ADPCM.
//!
//! `afconvert -f AIFC -d ima4` is what Apple's own tooling produced for game
//! audio of this era. The general decoder reads AIFF but rejects this
//! compressed variant, so this recognises the container and decodes it to the
//! 16-bit little-endian PCM the rest of the decoded-file path expects.

use crate::audio::ima4::{decode_ima4_at, ima4_samples};
use crate::audio::pcm::{i16_le_bytes, le_bytes_i16, SymphoniaDecodedToPcm};
use crate::bytes::{be16, be32, be64, has_tag, read_be16, read_be32, read_be64, tag_is};
use vstd::arithmetic::div_mod::lemma_fundamental_div_mod_converse;
use vstd::arithmetic::power2::pow2;
use vstd::bits::lemma_u64_shr_is_div;
use vstd::prelude::*;

verus! {

pub open spec fn form_tag() -> Seq<u8> {
    seq![0x46u8, 0x4f, 0x52, 0x4d]
}

pub open spec fn aifc_tag() -> Seq<u8> {
    seq![0x41u8, 0x49, 0x46, 0x43]
}

pub open spec fn comm_tag() -> Seq<u8> {
    seq![0x43u8, 0x4f, 0x4d, 0x4d]
}

pub open spec fn ssnd_tag() -> Seq<u8> {
    seq![0x53u8, 0x53, 0x4e, 0x44]
}

pub open spec fn ima4_tag() -> Seq<u8> {
    seq![0x69u8, 0x6d, 0x61, 0x34]
}

/// The sample rate stored as an 80-bit IEEE 754 extended float at
/// `s[at..at + 10]`, when it is a non-negative normalised value whose integer
/// part fits in 32 bits; its fraction is dropped.
pub open spec fn extended_80_value(s: Seq<u8>, at: int) -> Result<u32, ()> {
    let sign_and_exponent = be16(s, at);
    let mantissa = be64(s, at + 2);
    let exponent = sign_and_exponent - 16383;
    if sign_and_exponent >= 32768 || exponent < 0 || exponent > 63 {
        Err(())
    } else {
        let v = mantissa / (pow2((63 - exponent) as nat) as int);
        if v <= u32::MAX {
            Ok(v as u32)
        } else {
            Err(())
        }
    }
}

fn read_extended_80_at(bytes: &[u8], at: usize) -> (r: Result<u32, ()>)
    requires
        at + 10 <= bytes.len(),
    ensures
        r == extended_80_value(bytes@, at as int),
{
    let sign_and_exponent = read_be16(bytes, at);
    let mantissa = read_be64(bytes, at + 2);
    if sign_and_exponent >= 32768 {
        return Err(());  // negative
    }
    let exponent: i32 = sign_and_exponent as i32 - 16383;
    // The leading integer bit is explicit in this format, unlike IEEE binary64.
    if exponent < 0 || exponent > 63 {
        return Err(());
    }
    let shift: u64 = (63 - exponent) as u64;
    let v = mantissa >> shift;
    proof {
        lemma_u64_shr_is_div(mantissa, shift);
    }
    if v <= 0xffff_ffff {
        Ok(v as u32)
    } else {
        Err(())
    }
}

/// Read an 80-bit IEEE 754 extended float, which is how AIFF stores the sample
/// rate.
///
/// Rates are small positive integers in practice, so only the normalised,
/// non-negative range is accepted: anything else is rejected rather than
/// approximated.
pub fn read_extended_80(bytes: &[u8]) -> (r: Result<u32, ()>)
    requires
        bytes.len() >= 10,
    ensures
        r == extended_80_value(bytes@, 0),
{
    read_extended_80_at(bytes, 0)
}

/// What the chunk walk has found so far: channel count, sample rate, and the
/// byte range of the sound data.
pub type AifcFound = (Option<u32>, Option<u32>, Option<(int, int)>);

/// Walk the chunks from `pos` on. Chunks are padded to an even length, and the
/// pad byte is not counted in the size.
pub open spec fn aifc_scan(s: Seq<u8>, pos: int, found: AifcFound) -> Result<AifcFound, ()>
    decreases s.len() + 1 - pos,
{
    if !(0 <= pos && pos + 8 <= s.len()) {
        Ok(found)
    } else {
        let size = be32(s, pos + 4);
        let body = pos + 8;
        if size > s.len() - body {
            Err(())
        } else {
            let step: Result<AifcFound, ()> = if has_tag(s, pos, comm_tag()) {
                if size < 22 || !has_tag(s, body + 18, ima4_tag()) {
                    Err(())
                } else {
                    match extended_80_value(s, body + 8) {
                        Ok(rate) => Ok((Some(be16(s, body) as u32), Some(rate), found.2)),
                        Err(_) => Err(()),
                    }
                }
            } else if has_tag(s, pos, ssnd_tag()) {
                if size < 8 || be32(s, body) > size - 8 {
                    Err(())
                } else {
                    Ok((found.0, found.1, Some((body + 8 + be32(s, body), body + size))))
                }
            } else {
                Ok(found)
            };
            match step {
                Err(e) => Err(e),
                Ok(next_found) => aifc_scan(s, body + size + size % 2, next_found),
            }
        }
    }
}

/// The `k`th byte of the PCM decoded from `groups` packet groups of `channels`
/// interleaved IMA4 packets starting at `s[start]`: samples are interleaved
/// per channel, each as two little-endian bytes.
pub open spec fn aifc_pcm_byte(s: Seq<u8>, start: int, channels: int, k: int) -> u8 {
    let sample = k / 2;
    let group = sample / (64 * channels);
    let within = sample % (64 * channels);
    let packet_start = start + group * (34 * channels) + (within % channels) * 34;
    le_bytes_i16(ima4_samples(s.subrange(packet_start, packet_start + 34))[within / channels])[k
        % 2]
}

pub open spec fn aifc_pcm(s: Seq<u8>, start: int, channels: int, groups: int) -> Seq<u8> {
    Seq::new((groups * 64 * channels * 2) as nat, |k: int| aifc_pcm_byte(s, start, channels, k))
}

/// What an AIFF-C file holding IMA4 decodes to: `(sample rate, channels, PCM)`.
pub open spec fn aifc_decoding(s: Seq<u8>) -> Result<(u32, u32, Seq<u8>), ()> {
    if s.len() < 12 || !has_tag(s, 0, form_tag()) || !has_tag(s, 8, aifc_tag()) {
        Err(())
    } else {
        match aifc_scan(s, 12, (None, None, None)) {
            Err(_) => Err(()),
            Ok(found) => {
                if found.0 is None || found.1 is None || found.2 is None {
                    Err(())
                } else {
                    let channels = found.0.unwrap();
                    let rate = found.1.unwrap();
                    let (start, end) = found.2.unwrap();
                    if channels == 0 || rate == 0 {
                        Err(())
                    } else {
                        let groups = (end - start) / (34 * channels);
                        if groups == 0 {
                            Err(())
                        } else {
                            Ok((rate, channels, aifc_pcm(s, start, channels as int, groups)))
                        }
                    }
                }
            },
        }
    }
}

proof fn lemma_scan_past_end(s: Seq<u8>, pos: int, found: AifcFound)
    requires
        pos + 8 > s.len(),
    ensures
        aifc_scan(s, pos, found) == Ok::<AifcFound, ()>(found),
{
}

/// Where byte `((group * 64 + sample) * channels + channel) * 2 + b` of the
/// PCM comes from.
proof fn lemma_pcm_index(group: int, sample: int, channel: int, b: int, channels: int)
    requires
        0 <= group,
        0 <= sample < 64,
        0 <= channel < channels,
        0 <= b < 2,
    ensures
        ({
            let k = ((group * 64 + sample) * channels + channel) * 2 + b;
            let q = k / 2;
            &&& q == (group * 64 + sample) * channels + channel
            &&& k % 2 == b
            &&& q / (64 * channels) == group
            &&& q % (64 * channels) == sample * channels + channel
            &&& (sample * channels + channel) / channels == sample
            &&& (sample * channels + channel) % channels == channel
        }),
{
    let q = (group * 64 + sample) * channels + channel;
    let k = q * 2 + b;
    lemma_fundamental_div_mod_converse(k, 2, q, b);
    assert((group * 64 + sample) * channels + channel == group * (64 * channels) + (sample
        * channels + channel)) by (nonlinear_arith);
    assert(sample * channels + channel < 64 * channels) by (nonlinear_arith)
        requires
            0 <= sample < 64,
            0 <= channel < channels,
    ;
    assert(0 <= sample * channels) by (nonlinear_arith)
        requires
            0 <= sample,
            0 <= channels,
    ;
    lemma_fundamental_div_mod_converse(q, 64 * channels, group, sample * channels + channel);
    lemma_fundamental_div_mod_converse(sample * channels + channel, channels, sample, channel);
}

/// Decode Apple IMA4 ADPCM from an AIFF-C container.
///
/// Any other compression, and anything that is not AIFF-C, is declined with
/// `Err`, so that the general decoder still gets a look at it.
pub fn decode_ima4_aifc(bytes: &[u8]) -> (res: Result<SymphoniaDecodedToPcm, ()>)
    ensures
        match aifc_decoding(bytes@) {
            Ok((rate, channels, pcm)) => res matches Ok(d) && d.sample_rate == rate && d.channels
                == channels && d.bytes@ == pcm,
            Err(_) => res is Err,
        },
{
    let len = bytes.len();
    if len < 12 {
        return Err(());
    }
    if !tag_is(bytes, 0, &[0x46, 0x4f, 0x52, 0x4d]) || !tag_is(bytes, 8, &[0x41, 0x49, 0x46, 0x43]) {
        return Err(());
    }
    let mut channels: Option<u32> = None;
    let mut sample_rate: Option<u32> = None;
    let mut sound: Option<(usize, usize)> = None;
    let ghost spec_sound: Option<(int, int)> = None;

    let mut position: usize = 12;
    while position <= len && len - position >= 8
        invariant
            len == bytes@.len(),
            12 <= position <= len + 1,
            spec_sound == (match sound {
                Some((a, b)) => Some((a as int, b as int)),
                None => None::<(int, int)>,
            }),
            sound matches Some((a, b)) ==> a <= b <= len,
            channels matches Some(c) ==> c <= 65535,
            aifc_scan(bytes@, 12, (None, None, None)) == aifc_scan(
                bytes@,
                position as int,
                (channels, sample_rate, spec_sound),
            ),
        decreases len + 1 - position,
    {
        let size = read_be32(bytes, position + 4);
        let body_start = position + 8;
        if size as u64 > (len - body_start) as u64 {
            return Err(());
        }
        let size = size as usize;
        if tag_is(bytes, position, &[0x43, 0x4f, 0x4d, 0x4d]) {
            // numChannels, numSampleFrames, sampleSize, sampleRate (80-bit),
            // then the AIFC compression FourCC and a Pascal-string name.
            if size < 22 {
                return Err(());
            }
            if !tag_is(bytes, body_start + 18, &[0x69, 0x6d, 0x61, 0x34]) {
                // A different compression: not ours to decode.
                return Err(());
            }
            let ch = read_be16(bytes, body_start) as u32;
            let rate = match read_extended_80_at(bytes, body_start + 8) {
                Ok(rate) => rate,
                Err(()) => {
                    return Err(());
                },
            };
            channels = Some(ch);
            sample_rate = Some(rate);
        } else if tag_is(bytes, position, &[0x53, 0x53, 0x4e, 0x44]) {
            // offset and blockSize precede the samples.
            if size < 8 {
                return Err(());
            }
            let offset = read_be32(bytes, body_start);
            if offset as u64 > (size - 8) as u64 {
                return Err(());
            }
            let offset = offset as usize;
            sound = Some((body_start + 8 + offset, body_start + size));
            proof {
                spec_sound = Some(((body_start + 8 + offset) as int, (body_start + size) as int));
            }
        }
        let next = body_start + size;
        if size % 2 == 1 && next < len {
            position = next + 1;
        } else {
            proof {
                if size % 2 == 1 {
                    lemma_scan_past_end(bytes@, next + 1, (channels, sample_rate, spec_sound));
                    lemma_scan_past_end(bytes@, next as int, (channels, sample_rate, spec_sound));
                }
            }
            position = next;
        }
    }
    proof {
        lemma_scan_past_end(bytes@, position as int, (channels, sample_rate, spec_sound));
    }
    let channels = match channels {
        Some(c) => c,
        None => {
            return Err(());
        },
    };
    let sample_rate = match sample_rate {
        Some(r) => r,
        None => {
            return Err(());
        },
    };
    let (start, end) = match sound {
        Some(range) => range,
        None => {
            return Err(());
        },
    };
    if channels == 0 || sample_rate == 0 {
        return Err(());
    }
    assert(channels <= 65535);
    let ch = channels as usize;
    // Packets are per-channel and interleaved by packet, not by sample: decode
    // a group at a time so the output can be interleaved per sample.
    let group_size = 34 * ch;
    let groups = (end - start) / group_size;
    let ghost ch_i = ch as int;
    let ghost start_i = start as int;
    let mut out: Vec<u8> = Vec::new();
    let mut group: usize = 0;
    assert(0 * 64 * ch * 2 == 0);
    while group < groups
        invariant
            len == bytes@.len(),
            start <= end <= len,
            1 <= ch <= 65535,
            ch_i == ch,
            start_i == start,
            group_size == 34 * ch,
            groups as int == (end - start) as int / (group_size as int),
            group <= groups,
            out@.len() == group * 64 * ch * 2,
            forall|k: int|
                0 <= k < out@.len() ==> out@[k] == aifc_pcm_byte(bytes@, start_i, ch_i, k),
        decreases groups - group,
    {
        assert(group * group_size + group_size <= end - start) by (nonlinear_arith)
            requires
                group < groups,
                groups as int == (end - start) as int / (group_size as int),
                group_size > 0,
                start <= end,
        ;
        let group_start = start + group * group_size;
        let mut decoded: Vec<Vec<i16>> = Vec::new();
        let mut c: usize = 0;
        while c < ch
            invariant
                len == bytes@.len(),
                1 <= ch <= 65535,
                group_size == 34 * ch,
                group_start + group_size <= len,
                c <= ch,
                decoded@.len() == c,
                forall|j: int|
                    0 <= j < c ==> (#[trigger] decoded@[j])@ == ima4_samples(
                        bytes@.subrange(group_start + j * 34, group_start + j * 34 + 34),
                    ),
            decreases ch - c,
        {
            let packet = decode_ima4_at(bytes, group_start + c * 34);
            decoded.push(packet);
            c = c + 1;
        }
        let mut sample: usize = 0;
        while sample < 64
            invariant
                len == bytes@.len(),
                1 <= ch <= 65535,
                ch_i == ch,
                start_i == start,
                group_size == 34 * ch,
                group < groups,
                group_start == start + group * group_size,
                group_start + group_size <= len,
                decoded@.len() == ch,
                forall|j: int|
                    0 <= j < ch ==> (#[trigger] decoded@[j])@ == ima4_samples(
                        bytes@.subrange(group_start + j * 34, group_start + j * 34 + 34),
                    ),
                sample <= 64,
                out@.len() == (group * 64 + sample) * ch * 2,
                forall|k: int|
                    0 <= k < out@.len() ==> out@[k] == aifc_pcm_byte(bytes@, start_i, ch_i, k),
            decreases 64 - sample,
        {
            let mut channel: usize = 0;
            while channel < ch
                invariant
                    len == bytes@.len(),
                    1 <= ch <= 65535,
                    ch_i == ch,
                    start_i == start,
                    group_size == 34 * ch,
                    group < groups,
                    group_start == start + group * group_size,
                    group_start + group_size <= len,
                    decoded@.len() == ch,
                    forall|j: int|
                        0 <= j < ch ==> (#[trigger] decoded@[j])@ == ima4_samples(
                            bytes@.subrange(group_start + j * 34, group_start + j * 34 + 34),
                        ),
                    sample < 64,
                    channel <= ch,
                    out@.len() == ((group * 64 + sample) * ch + channel) * 2,
                    forall|k: int|
                        0 <= k < out@.len() ==> out@[k] == aifc_pcm_byte(
                            bytes@,
                            start_i,
                            ch_i,
                            k,
                        ),
                decreases ch - channel,
            {
                let value = decoded[channel][sample];
                let le = i16_le_bytes(value);
                proof {
                    assert(decoded@[channel as int]@.len() == 64);
                    lemma_pcm_index(group as int, sample as int, channel as int, 0, ch as int);
                    lemma_pcm_index(group as int, sample as int, channel as int, 1, ch as int);
                    assert(group_start + channel * 34 == start + group * (34 * ch) + channel * 34);
                }
                out.push(le[0]);
                out.push(le[1]);
                proof {
                    assert(((group * 64 + sample) * ch + channel + 1) * 2 == ((group * 64 + sample)
                        * ch + channel) * 2 + 2) by (nonlinear_arith);
                }
                channel = channel + 1;
            }
            proof {
                assert(((group * 64 + sample) * ch + ch) * 2 == (group * 64 + sample + 1) * ch * 2)
                    by (nonlinear_arith);
            }
            sample = sample + 1;
        }
        proof {
            assert((group * 64 + 64) * ch * 2 == (group + 1) * 64 * ch * 2) by (nonlinear_arith);
        }
        group = group + 1;
    }
    if out.len() == 0 {
        proof {
            assert(groups == 0) by (nonlinear_arith)
                requires
                    out@.len() == groups * 64 * ch * 2,
                    out@.len() == 0,
                    ch >= 1,
            ;
        }
        return Err(());
    }
    proof {
        assert(groups != 0);
        assert(out@ =~= aifc_pcm(bytes@, start as int, ch as int, groups as int));
    }
    Ok(SymphoniaDecodedToPcm { bytes: out, sample_rate, channels })
}

} // verus!
