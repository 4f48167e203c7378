//! The bookkeeping of a packetized MP3 stream: what a stream may be, the
//! timestamp each packet is decoded at, and whether what the decoder made
//! is the stream's format.
//!
//! MP3 packets must be decoded in stream order, because later packets may
//! use the Layer III bit reservoir earlier ones filled; the decoder itself
//! is the caller's.

use crate::text::decimal;
use crate::text::decimal_string;
use vstd::prelude::*;
use vstd::string::*;

verus! {

broadcast use vstd::string::group_string_axioms;

/// A stream's expected format, and the timestamp of its next packet.
#[derive(Clone, Copy, Debug)]
pub struct Mp3StreamState {
    expected_sample_rate: u32,
    expected_channels: u32,
    next_pts: i64,
}

/// The message for a channel count that is neither one nor two.
pub open spec fn bad_channels_message(channels: u32) -> Seq<char> {
    "MP3 channel count must be one or two, got "@ + decimal(channels as nat)
}

/// The message for decoded audio of the wrong format.
pub open spec fn wrong_format_message(rate: u32, channels: u32, expected_rate: u32, expected_channels: u32) -> Seq<char> {
    "Decoded MP3 format is "@ + decimal(rate as nat) + " Hz/"@ + decimal(channels as nat)
        + " channels, expected "@ + decimal(expected_rate as nat) + " Hz/"@ + decimal(
        expected_channels as nat,
    ) + " channels"@
}

impl Mp3StreamState {
    pub closed spec fn sample_rate(&self) -> u32 {
        self.expected_sample_rate
    }

    pub closed spec fn channels(&self) -> u32 {
        self.expected_channels
    }

    pub closed spec fn next_timestamp(&self) -> i64 {
        self.next_pts
    }

    /// A stream of `expected_sample_rate` Hz in `expected_channels`
    /// channels, at its start. The rate must not be zero, and there must be
    /// one channel or two.
    pub fn new(expected_sample_rate: u32, expected_channels: u32) -> (r: Result<Mp3StreamState, String>)
        ensures
            expected_sample_rate == 0 ==> (r matches Err(e) && e@ == "MP3 sample rate must be non-zero"@),
            expected_sample_rate != 0 && expected_channels != 1 && expected_channels != 2 ==> (r matches Err(e)
                && e@ == bad_channels_message(expected_channels)),
            r is Ok <==> expected_sample_rate != 0 && (expected_channels == 1 || expected_channels == 2),
            r matches Ok(s) ==> s.sample_rate() == expected_sample_rate && s.channels()
                == expected_channels && s.next_timestamp() == 0,
    {
        if expected_sample_rate == 0 {
            return Err("MP3 sample rate must be non-zero".to_owned());
        }
        if !(expected_channels == 1 || expected_channels == 2) {
            return Err("MP3 channel count must be one or two, got ".to_owned().concat(
                decimal_string(expected_channels as u64).as_str(),
            ));
        }
        Ok(Mp3StreamState { expected_sample_rate, expected_channels, next_pts: 0 })
    }

    /// Begin decoding a packet of `encoded_len` bytes holding `frame_count`
    /// frames: the timestamp it is decoded at, the next packet's being
    /// `frame_count` later. An empty packet, a packet of no frames and a
    /// timestamp past the largest are errors, which leave the stream as it
    /// was.
    pub fn start_packet(&mut self, encoded_len: usize, frame_count: u32) -> (r: Result<i64, String>)
        ensures
            final(self).sample_rate() == old(self).sample_rate(),
            final(self).channels() == old(self).channels(),
            encoded_len == 0 ==> (r matches Err(e) && e@ == "Cannot decode an empty MP3 packet"@),
            encoded_len != 0 && frame_count == 0 ==> (r matches Err(e) && e@
                == "MP3 packet frame count must be non-zero"@),
            encoded_len != 0 && frame_count != 0 && old(self).next_timestamp() + frame_count
                > i64::MAX ==> (r matches Err(e) && e@ == "MP3 packet timestamp overflow"@),
            r is Ok <==> encoded_len != 0 && frame_count != 0 && old(self).next_timestamp()
                + frame_count <= i64::MAX,
            r matches Ok(pts) ==> pts == old(self).next_timestamp() && final(self).next_timestamp()
                == old(self).next_timestamp() + frame_count,
            r is Err ==> final(self).next_timestamp() == old(self).next_timestamp(),
    {
        if encoded_len == 0 {
            return Err("Cannot decode an empty MP3 packet".to_owned());
        }
        if frame_count == 0 {
            return Err("MP3 packet frame count must be non-zero".to_owned());
        }
        let pts = self.next_pts;
        match pts.checked_add(frame_count as i64) {
            Some(next) => {
                self.next_pts = next;
                Ok(pts)
            },
            None => Err("MP3 packet timestamp overflow".to_owned()),
        }
    }

    /// Check the format of what the decoder made of a packet: `channels`
    /// must fit in `u32`, and the rate and the channels must be the
    /// stream's.
    pub fn check_decoded_format(&self, sample_rate: u32, channels: usize) -> (r: Result<(), String>)
        ensures
            channels > u32::MAX ==> (r matches Err(e) && e@
                == "Decoded MP3 channel count does not fit in u32"@),
            channels <= u32::MAX && (sample_rate != self.sample_rate() || channels != self.channels())
                ==> (r matches Err(e) && e@ == wrong_format_message(
                sample_rate,
                channels as u32,
                self.sample_rate(),
                self.channels(),
            )),
            r is Ok <==> sample_rate == self.sample_rate() && channels == self.channels(),
    {
        if channels > u32::MAX as usize {
            return Err("Decoded MP3 channel count does not fit in u32".to_owned());
        }
        let actual_channels = channels as u32;
        if sample_rate != self.expected_sample_rate || actual_channels != self.expected_channels {
            return Err("Decoded MP3 format is ".to_owned().concat(
                decimal_string(sample_rate as u64).as_str(),
            ).concat(" Hz/").concat(decimal_string(actual_channels as u64).as_str()).concat(
                " channels, expected ",
            ).concat(decimal_string(self.expected_sample_rate as u64).as_str()).concat(
                " Hz/",
            ).concat(decimal_string(self.expected_channels as u64).as_str()).concat(" channels"));
        }
        Ok(())
    }

    /// Forget everything about the packets so far, after a discontinuity.
    pub fn reset(&mut self)
        ensures
            final(self).sample_rate() == old(self).sample_rate(),
            final(self).channels() == old(self).channels(),
            final(self).next_timestamp() == 0,
    {
        self.next_pts = 0;
    }
}


/// The `symphonia` MP3 decoder of one stream; it keeps the bit reservoir
/// across packets.
#[verifier::external_body]
pub struct Mp3Decoder {
    decoder: Box<dyn symphonia::core::codecs::audio::AudioDecoder>,
}

/// What a decoder has been given since it was made, in order: each packet,
/// as its bytes, its timestamp and its frame count, and each reset, as
/// nothing.
pub uninterp spec fn mp3_history(d: Mp3Decoder) -> Seq<Option<(Seq<u8>, i64, u32)>>;

/// What a new `symphonia` MP3 decoder, given the packets and resets of
/// `history` in order, makes of the last packet of it: the samples as
/// interleaved 16-bit bytes, the sample rate and the channel count, or the
/// description of the crate's error. It depends on what the decoder was
/// given alone.
pub uninterp spec fn mp3_decoded(history: Seq<Option<(Seq<u8>, i64, u32)>>) -> Result<
    (Seq<u8>, u32, usize),
    Seq<char>,
>;

/// `symphonia::default::get_codecs().make_audio_decoder` for MP3 with the
/// default options. The registry of the crate's default features has its
/// MPEG audio decoder for MP3, which accepts the MP3 codec, so a decoder is
/// made; it has been given nothing.
#[verifier::external_body]
fn make_mp3_decoder() -> (r: Result<Mp3Decoder, String>)
    ensures
        r is Ok,
        r matches Ok(d) ==> mp3_history(d).len() == 0,
{
    let mut params = symphonia::core::codecs::audio::AudioCodecParameters::new();
    params.for_codec(symphonia::core::codecs::audio::well_known::CODEC_ID_MP3);
    let registry = symphonia::default::get_codecs();
    match registry.make_audio_decoder(&params, &Default::default()) {
        Ok(decoder) => Ok(Mp3Decoder { decoder }),
        Err(error) => Err(error.to_string()),
    }
}

/// `AudioDecoder::decode_ref` of one packet of `frame_count` frames at
/// timestamp `pts`, then `copy_bytes_to_vec_interleaved_as::<i16>` of what
/// it decoded, with its sample rate and channel count; or the description
/// of the crate's error. The contract names the outcome by everything the
/// decoder has been given, this packet last.
#[verifier::external_body]
fn decode_mp3(d: &mut Mp3Decoder, encoded: &[u8], pts: i64, frame_count: u32) -> (r: Result<
    (Vec<u8>, u32, usize),
    String,
>)
    ensures
        mp3_history(*final(d)) == mp3_history(*old(d)).push(Some((encoded@, pts, frame_count))),
        match mp3_decoded(mp3_history(*final(d))) {
            Ok((pcm, rate, channels)) => r matches Ok(v) && v.0@ == pcm && v.1 == rate && v.2
                == channels,
            Err(m) => r matches Err(e) && e@ == m,
        },
{
    let timestamp = symphonia::core::units::Timestamp::new(pts);
    let duration = symphonia::core::units::Duration::from(u64::from(frame_count));
    let packet = symphonia::core::packet::PacketRef::new(0, timestamp, duration, encoded);
    let decoded = d.decoder.decode_ref(&packet).map_err(|error| error.to_string())?;
    let mut pcm = Vec::with_capacity(decoded.byte_len_as::<i16>());
    decoded.copy_bytes_to_vec_interleaved_as::<i16>(&mut pcm);
    Ok((pcm, decoded.spec().rate(), decoded.spec().channels().count()))
}

/// `AudioDecoder::reset`: the decoder forgets the state it carries across
/// packets. The contract records the reset in what the decoder was given;
/// it does not say that decoding goes on as from a new decoder, because the
/// crate's MPEG audio decoder keeps the signal specification of the first
/// frame it read across a reset and refuses later frames of another.
#[verifier::external_body]
fn reset_mp3(d: &mut Mp3Decoder)
    ensures
        mp3_history(*final(d)) == mp3_history(*old(d)).push(None),
{
    d.decoder.reset();
}

/// The message for a packet the crate would not decode.
pub open spec fn decoding_error_message(description: Seq<char>) -> Seq<char> {
    "Could not decode MP3 packet: "@ + description
}

/// What decoding a packet gives, from what the decoder makes of it, for a
/// stream of `rate` Hz in `channels` channels: the crate's error, the
/// samples where they are of the stream's format, else the format error.
pub open spec fn packet_outcome(decoded: Result<(Seq<u8>, u32, usize), Seq<char>>, rate: u32, channels: u32) -> Result<Seq<u8>, Seq<char>> {
    match decoded {
        Err(d) => Err(decoding_error_message(d)),
        Ok((pcm, r, c)) => if c > u32::MAX {
            Err("Decoded MP3 channel count does not fit in u32"@)
        } else if r != rate || c != channels {
            Err(wrong_format_message(r, c as u32, rate, channels))
        } else {
            Ok(pcm)
        },
    }
}

/// Stateful decoder for a packetized MP3 stream. Packets must be decoded in
/// stream order, so one instance is kept for the lifetime of its queue.
pub struct StreamingMp3Decoder {
    decoder: Mp3Decoder,
    state: Mp3StreamState,
}

impl StreamingMp3Decoder {
    pub closed spec fn sample_rate(&self) -> u32 {
        self.state.sample_rate()
    }

    pub closed spec fn channels(&self) -> u32 {
        self.state.channels()
    }

    pub closed spec fn next_timestamp(&self) -> i64 {
        self.state.next_timestamp()
    }

    /// What the decoder has been given since it was made.
    pub closed spec fn history(&self) -> Seq<Option<(Seq<u8>, i64, u32)>> {
        mp3_history(self.decoder)
    }

    /// A decoder of a stream of `expected_sample_rate` Hz in
    /// `expected_channels` channels. The rate must not be zero and there
    /// must be one channel or two.
    pub fn new(expected_sample_rate: u32, expected_channels: u32) -> (r: Result<Self, String>)
        ensures
            expected_sample_rate == 0 ==> (r matches Err(e) && e@ == "MP3 sample rate must be non-zero"@),
            expected_sample_rate != 0 && expected_channels != 1 && expected_channels != 2 ==> (r matches Err(e)
                && e@ == bad_channels_message(expected_channels)),
            r is Ok <==> expected_sample_rate != 0 && (expected_channels == 1 || expected_channels == 2),
            r matches Ok(d) ==> d.sample_rate() == expected_sample_rate && d.channels()
                == expected_channels && d.next_timestamp() == 0 && d.history()
                == Seq::<Option<(Seq<u8>, i64, u32)>>::empty(),
    {
        let state = Mp3StreamState::new(expected_sample_rate, expected_channels)?;
        match make_mp3_decoder() {
            Ok(decoder) => Ok(StreamingMp3Decoder { decoder, state }),
            Err(error) => Err("Could not create MP3 decoder: ".to_owned().concat(error.as_str())),
        }
    }

    /// Decode one complete MP3 packet of `frame_count` frames to interleaved
    /// native-endian i16 PCM. An empty packet, a packet of no frames and a
    /// timestamp past the largest are refused before decoding and leave the
    /// stream as it was; otherwise the packet goes to the decoder at the
    /// stream's next timestamp, which moves on by `frame_count`, and the
    /// result is the decoder's samples where they are of the stream's
    /// format.
    pub fn decode_packet(&mut self, encoded: &[u8], frame_count: u32) -> (r: Result<Vec<u8>, String>)
        ensures
            final(self).sample_rate() == old(self).sample_rate(),
            final(self).channels() == old(self).channels(),
            encoded.len() == 0 ==> (r matches Err(e) && e@ == "Cannot decode an empty MP3 packet"@),
            encoded.len() != 0 && frame_count == 0 ==> (r matches Err(e) && e@
                == "MP3 packet frame count must be non-zero"@),
            encoded.len() != 0 && frame_count != 0 && old(self).next_timestamp() + frame_count
                > i64::MAX ==> (r matches Err(e) && e@ == "MP3 packet timestamp overflow"@),
            encoded.len() == 0 || frame_count == 0 || old(self).next_timestamp() + frame_count
                > i64::MAX ==> final(self).next_timestamp() == old(self).next_timestamp()
                && final(self).history() == old(self).history(),
            encoded.len() != 0 && frame_count != 0 && old(self).next_timestamp() + frame_count
                <= i64::MAX ==> {
                &&& final(self).next_timestamp() == old(self).next_timestamp() + frame_count
                &&& final(self).history() == old(self).history().push(
                    Some((encoded@, old(self).next_timestamp(), frame_count)),
                )
                &&& match packet_outcome(
                    mp3_decoded(final(self).history()),
                    old(self).sample_rate(),
                    old(self).channels(),
                ) {
                    Ok(pcm) => r matches Ok(p) && p@ == pcm,
                    Err(m) => r matches Err(e) && e@ == m,
                }
            },
    {
        let pts = self.state.start_packet(encoded.len(), frame_count)?;
        let (pcm, rate, channels) = match decode_mp3(&mut self.decoder, encoded, pts, frame_count) {
            Ok(decoded) => decoded,
            Err(error) => {
                return Err("Could not decode MP3 packet: ".to_owned().concat(error.as_str()));
            },
        };
        match self.state.check_decoded_format(rate, channels) {
            Ok(()) => Ok(pcm),
            Err(e) => Err(e),
        }
    }

    /// Forget the state carried across packets after a discontinuity: the
    /// decoder is reset and the next packet is decoded at timestamp zero.
    pub fn reset(&mut self)
        ensures
            final(self).sample_rate() == old(self).sample_rate(),
            final(self).channels() == old(self).channels(),
            final(self).next_timestamp() == 0,
            final(self).history() == old(self).history().push(None),
    {
        reset_mp3(&mut self.decoder);
        self.state.reset();
    }
}

} // verus!
