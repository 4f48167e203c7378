//! Whole-file decoding of the formats `symphonia` reads (MP3, AAC, ALAC,
//! IMA ADPCM and 16-bit PCM in their containers) to linear PCM.
//!
//! Probing the container, reading its packets and decoding them is the
//! crate's; which track is decoded, which packets go to the decoder, where
//! decoding stops and how the result is put together is decided here.

use crate::audio::pcm::SymphoniaDecodedToPcm;
use crate::text::str_eq;
use std::io::Cursor;
use vstd::prelude::*;

verus! {

/// What reading the next packet of a container gives.
#[derive(Clone, Copy, Debug, PartialEq, Eq, Structural)]
pub enum PacketEvent {
    /// A packet of the track with this id.
    Packet(u32),
    /// The media has ended.
    End,
    /// An I/O error: with the whole file in memory, its end.
    IoError,
    /// Any other error, which nothing recovers from.
    Failed,
}

/// A container held in memory, as the `symphonia` crate reads it: the
/// format reader, the decoder of the chosen track once made, and the packet
/// read last.
#[verifier::external_body]
pub struct SymphoniaFile {
    reader: Box<dyn symphonia::core::formats::FormatReader>,
    decoder: Option<Box<dyn symphonia::core::codecs::audio::AudioDecoder>>,
    packet: Option<symphonia::core::packet::Packet>,
}

/// How far a container has been read: the bytes it was read from, the
/// number of packet reads made, the position of the track a decoder was
/// made for, and the number of packets that decoder decoded.
pub uninterp spec fn symphonia_progress(f: SymphoniaFile) -> (Seq<u8>, nat, Option<nat>, nat);

/// What the crate's probe makes of `bytes`: nothing where it reads no
/// container, else its tracks in order, each by its id and, where the track
/// has audio codec parameters, the codec id as the crate writes it (its
/// `Display`, such as `0x1006`).
pub uninterp spec fn symphonia_tracks(bytes: Seq<u8>) -> Option<Seq<(u32, Option<Seq<char>>)>>;

/// What the `i`th read of a packet from the container of `bytes` gives,
/// counting from the first read after probing.
pub uninterp spec fn symphonia_packet(bytes: Seq<u8>, i: nat) -> PacketEvent;

/// Whether the crate makes an audio decoder for the codec parameters of the
/// track at position `track` of the container of `bytes`.
pub uninterp spec fn symphonia_decoder_made(bytes: Seq<u8>, track: nat) -> bool;

/// What the decoder made for the track at position `track` of the
/// container of `bytes` makes of that track's `k`th packet, having decoded
/// the `k` before it: nothing where decoding fails, else the samples as
/// interleaved 16-bit little-endian bytes, the sample rate, the channel
/// count, and the audio specification as the crate writes it (its `Debug`).
pub uninterp spec fn symphonia_decoded(bytes: Seq<u8>, track: nat, k: nat) -> Option<
    (Seq<u8>, u32, u64, Seq<char>),
>;

/// The views of an optional string.
pub open spec fn opt_text(s: Option<String>) -> Option<Seq<char>> {
    match s {
        Some(s) => Some(s@),
        None => None,
    }
}

/// The views of a track list.
pub open spec fn track_views(ts: Seq<(u32, Option<String>)>) -> Seq<(u32, Option<Seq<char>>)> {
    ts.map_values(|t: (u32, Option<String>)| (t.0, opt_text(t.1)))
}

/// `symphonia::default::get_probe().probe` over the bytes in memory, with
/// the default hint and options. The contract names whether it reads a
/// container.
#[verifier::external_body]
fn probe_file(bytes: Vec<u8>) -> (r: Option<SymphoniaFile>)
    ensures
        r is Some <==> symphonia_tracks(bytes@) is Some,
        r matches Some(f) ==> symphonia_progress(f) == (bytes@, 0nat, None::<nat>, 0nat),
{
    let mss = symphonia::core::io::MediaSourceStream::new(Box::new(Cursor::new(bytes)), Default::default());
    let probe = symphonia::default::get_probe();
    let reader = probe.probe(&Default::default(), mss, Default::default(), Default::default()).ok()?;
    Some(SymphoniaFile { reader, decoder: None, packet: None })
}

/// `FormatReader::tracks`, each track by its id and its audio codec id.
#[verifier::external_body]
fn track_list(f: &SymphoniaFile) -> (r: Vec<(u32, Option<String>)>)
    requires
        symphonia_progress(*f).1 == 0,
    ensures
        symphonia_tracks(symphonia_progress(*f).0) == Some(track_views(r@)),
{
    let codec = |p: &symphonia::core::codecs::CodecParameters| p.audio().map(|a| format!("{}", a.codec));
    f.reader.tracks().iter().map(|t| (t.id, t.codec_params.as_ref().and_then(codec))).collect()
}

/// `symphonia::default::get_codecs().make_audio_decoder` for the audio
/// codec parameters of the track at position `track`, with the default
/// options: whether it made one.
#[verifier::external_body]
fn open_decoder(f: &mut SymphoniaFile, track: usize) -> (r: bool)
    requires
        symphonia_progress(*old(f)).1 == 0,
        symphonia_progress(*old(f)).2 is None,
        symphonia_progress(*old(f)).3 == 0,
        symphonia_tracks(symphonia_progress(*old(f)).0) matches Some(ts) && track < ts.len()
            && ts[track as int].1 is Some,
    ensures
        r == symphonia_decoder_made(symphonia_progress(*old(f)).0, track as nat),
        symphonia_progress(*final(f)) == (symphonia_progress(*old(f)).0, 0nat, if r {
            Some(track as nat)
        } else {
            None
        }, 0nat),
{
    let params = f.reader.tracks()[track].codec_params.as_ref().and_then(|p| p.audio());
    let made = params.map(|p| symphonia::default::get_codecs().make_audio_decoder(p, &Default::default()));
    match made {
        Some(Ok(decoder)) => {
            f.decoder = Some(decoder);
            true
        },
        _ => false,
    }
}

/// `FormatReader::next_packet`, keeping the packet it reads.
#[verifier::external_body]
fn next_packet(f: &mut SymphoniaFile) -> (r: PacketEvent)
    requires
        forall|i: nat|
            i < symphonia_progress(*old(f)).1 ==> #[trigger] symphonia_packet(
                symphonia_progress(*old(f)).0,
                i,
            ) is Packet,
    ensures
        r == symphonia_packet(symphonia_progress(*old(f)).0, symphonia_progress(*old(f)).1),
        symphonia_progress(*final(f)) == (
            symphonia_progress(*old(f)).0,
            symphonia_progress(*old(f)).1 + 1,
            symphonia_progress(*old(f)).2,
            symphonia_progress(*old(f)).3,
        ),
{
    match f.reader.next_packet() {
        Ok(Some(packet)) => {
            let id = packet.track_id;
            f.packet = Some(packet);
            PacketEvent::Packet(id)
        },
        Ok(None) => PacketEvent::End,
        Err(symphonia::core::errors::Error::IoError(_)) => PacketEvent::IoError,
        Err(_) => PacketEvent::Failed,
    }
}

/// The number of the first `n` packet reads of `bytes` that give a packet
/// of track `id`.
pub open spec fn track_packets(bytes: Seq<u8>, id: u32, n: nat) -> nat
    decreases n,
{
    if n == 0 {
        0
    } else {
        track_packets(bytes, id, (n - 1) as nat) + if symphonia_packet(bytes, (n - 1) as nat)
            == PacketEvent::Packet(id) {
            1nat
        } else {
            0nat
        }
    }
}

/// `AudioDecoder::decode` of the packet read last, then
/// `copy_bytes_to_vec_interleaved_as::<i16>` of what it decoded, with the
/// decoded audio's rate, channel count and specification.
#[verifier::external_body]
fn decode_current(f: &mut SymphoniaFile) -> (r: Option<(Vec<u8>, u32, u64, String)>)
    requires
        symphonia_progress(*old(f)).1 > 0,
        symphonia_progress(*old(f)).2 matches Some(t) && symphonia_tracks(
            symphonia_progress(*old(f)).0,
        ) matches Some(ts) && t < ts.len() && symphonia_packet(
            symphonia_progress(*old(f)).0,
            (symphonia_progress(*old(f)).1 - 1) as nat,
        ) == PacketEvent::Packet(ts[t as int].0) && symphonia_progress(*old(f)).3 == track_packets(
            symphonia_progress(*old(f)).0,
            ts[t as int].0,
            (symphonia_progress(*old(f)).1 - 1) as nat,
        ),
    ensures
        (match r {
            Some((pcm, rate, count, spec)) => Some((pcm@, rate, count, spec@)),
            None => None,
        }) == symphonia_decoded(
            symphonia_progress(*old(f)).0,
            symphonia_progress(*old(f)).2->0,
            symphonia_progress(*old(f)).3,
        ),
        symphonia_progress(*final(f)) == (
            symphonia_progress(*old(f)).0,
            symphonia_progress(*old(f)).1,
            symphonia_progress(*old(f)).2,
            symphonia_progress(*old(f)).3 + 1,
        ),
{
    let decoded = match (f.decoder.as_mut(), f.packet.as_ref()) {
        (Some(decoder), Some(packet)) => decoder.decode(packet).ok()?,
        _ => return None,
    };
    let mut pcm = Vec::new();
    decoded.copy_bytes_to_vec_interleaved_as::<i16>(&mut pcm);
    let spec = decoded.spec();
    Some((pcm, spec.rate(), spec.channels().count() as u64, format!("{:?}", spec)))
}

/// Whether a codec id, as the crate writes it, is one decoded here: AAC,
/// IMA ADPCM (WAV and QuickTime), ALAC, MP3 or 16-bit little-endian PCM.
pub open spec fn is_supported_codec(c: Option<Seq<char>>) -> bool {
    match c {
        Some(t) => t == "0x1007"@ || t == "0x204"@ || t == "0x205"@ || t == "0x2003"@ || t
            == "0x1006"@ || t == "0x108"@,
        None => false,
    }
}

/// The position of the first track of `ts` with a supported codec.
pub open spec fn first_supported(ts: Seq<(u32, Option<Seq<char>>)>) -> Option<nat>
    decreases ts.len(),
{
    if ts.len() == 0 {
        None
    } else {
        match first_supported(ts.drop_last()) {
            Some(i) => Some(i),
            None => if is_supported_codec(ts.last().1) {
                Some((ts.len() - 1) as nat)
            } else {
                None
            },
        }
    }
}

/// Whether a codec id, as the crate writes it, is one decoded here.
pub fn is_supported(codec: &Option<String>) -> (r: bool)
    ensures
        r == is_supported_codec(opt_text(*codec)),
{
    match codec {
        Some(t) => {
            let s = t.as_str();
            str_eq(s, "0x1007") || str_eq(s, "0x204") || str_eq(s, "0x205") || str_eq(s, "0x2003")
                || str_eq(s, "0x1006") || str_eq(s, "0x108")
        },
        None => false,
    }
}

/// The position of the first track, of `(id, codec id)` pairs, whose codec
/// is decoded here.
pub fn supported_track(tracks: &[(u32, Option<String>)]) -> (r: Option<usize>)
    ensures
        r matches Some(i) ==> first_supported(track_views(tracks@)) == Some(i as nat),
        r is None ==> first_supported(track_views(tracks@)) is None,
{
    let ghost tv = track_views(tracks@);
    let mut i: usize = 0;
    while i < tracks.len()
        invariant
            i <= tracks.len(),
            tv == track_views(tracks@),
            first_supported(tv.take(i as int)) is None,
        decreases tracks.len() - i,
    {
        assert(tv.take(i + 1).drop_last() =~= tv.take(i as int));
        if is_supported(&tracks[i].1) {
            proof {
                assert(first_supported(tv.take(i + 1)) == Some(i as nat));
                lemma_first_supported_prefix(tv, (i + 1) as nat);
            }
            return Some(i);
        }
        i = i + 1;
    }
    assert(tv.take(i as int) =~= tv);
    None
}

/// A track found in a prefix is the first in the whole list.
proof fn lemma_first_supported_prefix(ts: Seq<(u32, Option<Seq<char>>)>, n: nat)
    requires
        n <= ts.len(),
        first_supported(ts.take(n as int)) is Some,
    ensures
        first_supported(ts) == first_supported(ts.take(n as int)),
    decreases ts.len() - n,
{
    if n < ts.len() {
        assert(ts.take(n + 1 as int).drop_last() =~= ts.take(n as int));
        lemma_first_supported_prefix(ts, n + 1);
    } else {
        assert(ts.take(n as int) =~= ts);
    }
}

/// The first chunk's rate, channel count and specification.
pub open spec fn first_view(first: Option<(u32, u64, String)>) -> Option<(u32, u64, Seq<char>)> {
    match first {
        Some((rate, count, spec)) => Some((rate, count, spec@)),
        None => None,
    }
}

/// The outcome when reading stops: the samples in the first chunk's format,
/// or an error where nothing was decoded.
pub open spec fn finish(pcm: Seq<u8>, first: Option<(u32, u64, Seq<char>)>) -> Result<
    (Seq<u8>, u32, u64),
    (),
> {
    match first {
        Some((rate, count, _)) => Ok((pcm, rate, count)),
        None => Err(()),
    }
}

/// Decoding track `id`, at position `track`, of the container of `bytes`
/// from packet read `reads` on, its `k` packets before decoded to `pcm`, the
/// first of them in format `first`, for at most `fuel` more reads: packets
/// of other tracks are skipped, the end of the media or an I/O error ends
/// it, another error fails it, the first packet that does not decode ends
/// it, and a packet decoded to another specification than the first fails
/// it.
pub open spec fn decode_run(
    bytes: Seq<u8>,
    track: nat,
    id: u32,
    reads: nat,
    k: nat,
    pcm: Seq<u8>,
    first: Option<(u32, u64, Seq<char>)>,
    fuel: nat,
) -> Result<(Seq<u8>, u32, u64), ()>
    decreases fuel,
{
    if fuel == 0 {
        finish(pcm, first)
    } else {
        match symphonia_packet(bytes, reads) {
            PacketEvent::Packet(pid) => if pid != id {
                decode_run(bytes, track, id, reads + 1, k, pcm, first, (fuel - 1) as nat)
            } else {
                match symphonia_decoded(bytes, track, k) {
                    None => finish(pcm, first),
                    Some((chunk, rate, count, spec)) => match first {
                        Some((_, _, first_spec)) => if first_spec != spec {
                            Err(())
                        } else {
                            decode_run(
                                bytes,
                                track,
                                id,
                                reads + 1,
                                k + 1,
                                pcm + chunk,
                                first,
                                (fuel - 1) as nat,
                            )
                        },
                        None => decode_run(
                            bytes,
                            track,
                            id,
                            reads + 1,
                            k + 1,
                            pcm + chunk,
                            Some((rate, count, spec)),
                            (fuel - 1) as nat,
                        ),
                    },
                }
            },
            PacketEvent::Failed => Err(()),
            _ => finish(pcm, first),
        }
    }
}

/// The decoding of a whole file: its samples as 16-bit little-endian bytes,
/// its sample rate and its channel count, or an error where the crate reads
/// no container, no track has a supported codec, no decoder is made for the
/// first that has, reading fails, the format changes, nothing is decoded or
/// the channel count does not fit in 32 bits. Reading gives up after
/// `u64::MAX` packets.
pub open spec fn symphonia_decoding(bytes: Seq<u8>) -> Result<(Seq<u8>, u32, u32), ()> {
    match symphonia_tracks(bytes) {
        None => Err(()),
        Some(ts) => match first_supported(ts) {
            None => Err(()),
            Some(t) => if !symphonia_decoder_made(bytes, t) {
                Err(())
            } else {
                outcome(decode_run(bytes, t, ts[t as int].0, 0, 0, Seq::empty(), None, u64::MAX as nat))
            },
        },
    }
}

/// What the whole decoding gives for the outcome of its run.
pub open spec fn outcome(run: Result<(Seq<u8>, u32, u64), ()>) -> Result<(Seq<u8>, u32, u32), ()> {
    match run {
        Err(_) => Err(()),
        Ok((pcm, rate, count)) => if count <= u32::MAX {
            Ok((pcm, rate, count as u32))
        } else {
            Err(())
        },
    }
}

proof fn lemma_track_packets_bounded(bytes: Seq<u8>, id: u32, n: nat)
    ensures
        track_packets(bytes, id, n) <= n,
    decreases n,
{
    if n > 0 {
        lemma_track_packets_bounded(bytes, id, (n - 1) as nat);
    }
}

/// Decode a whole file of one of the formats the `symphonia` crate reads:
/// the first track with a supported codec, packet by packet.
pub fn decode_symphonia_to_pcm(bytes: Vec<u8>) -> (r: Result<SymphoniaDecodedToPcm, ()>)
    ensures
        match symphonia_decoding(bytes@) {
            Ok((pcm, rate, channels)) => r matches Ok(d) && d.bytes@ == pcm && d.sample_rate == rate
                && d.channels == channels,
            Err(_) => r is Err,
        },
{
    let ghost src = bytes@;
    let mut f = match probe_file(bytes) {
        Some(f) => f,
        None => return Err(()),
    };
    let tracks = track_list(&f);
    let t = match supported_track(&tracks) {
        Some(t) => t,
        None => return Err(()),
    };
    let ghost ts = track_views(tracks@);
    proof {
        lemma_first_supported_member(ts);
    }
    let id = tracks[t].0;
    if !open_decoder(&mut f, t) {
        return Err(());
    }
    let ghost total = decode_run(src, t as nat, id, 0, 0, Seq::empty(), None, u64::MAX as nat);
    let mut out: Vec<u8> = Vec::new();
    let mut first: Option<(u32, u64, String)> = None;
    let mut reads: u64 = 0;
    let mut decoded: u64 = 0;
    let mut done = false;
    assert(symphonia_decoding(src) == outcome(total));
    while !done && reads < u64::MAX
        invariant
            src == bytes@,
            symphonia_decoding(src) == outcome(total),
            symphonia_tracks(src) == Some(ts),
            t < ts.len(),
            ts[t as int].0 == id,
            first_supported(ts) == Some(t as nat),
            symphonia_decoder_made(src, t as nat),
            symphonia_progress(f) == (src, reads as nat, Some(t as nat), decoded as nat),
            decoded == track_packets(src, id, reads as nat),
            !done ==> forall|i: nat| i < reads ==> #[trigger] symphonia_packet(src, i) is Packet,
            done ==> total == finish(out@, first_view(first)),
            !done ==> total == decode_run(
                src,
                t as nat,
                id,
                reads as nat,
                decoded as nat,
                out@,
                first_view(first),
                (u64::MAX - reads) as nat,
            ),
        decreases u64::MAX - reads,
    {
        let ghost before = reads as nat;
        let event = next_packet(&mut f);
        reads = reads + 1;
        match event {
            PacketEvent::Packet(pid) => {
                if pid == id {
                    match decode_current(&mut f) {
                        None => {
                            proof {
                                lemma_track_packets_bounded(src, id, reads as nat);
                            }
                            decoded = decoded + 1;
                            done = true;
                        },
                        Some((mut chunk, rate, count, spec)) => {
                            let same = match &first {
                                Some((_, _, first_spec)) => str_eq(first_spec.as_str(), spec.as_str()),
                                None => true,
                            };
                            if !same {
                                assert(total == Err::<(Seq<u8>, u32, u64), ()>(()));
                                return Err(());
                            }
                            if first.is_none() {
                                first = Some((rate, count, spec));
                            }
                            out.append(&mut chunk);
                            proof {
                                lemma_track_packets_bounded(src, id, reads as nat);
                            }
                            decoded = decoded + 1;
                        },
                    }
                }
            },
            PacketEvent::Failed => {
                assert(total == Err::<(Seq<u8>, u32, u64), ()>(()));
                return Err(());
            },
            _ => {
                done = true;
            },
        }
    }
    match first {
        Some((rate, count, _)) => {
            if count > u32::MAX as u64 {
                return Err(());
            }
            Ok(SymphoniaDecodedToPcm { bytes: out, sample_rate: rate, channels: count as u32 })
        },
        None => Err(()),
    }
}

/// The first supported track is a track, with a supported codec.
proof fn lemma_first_supported_member(ts: Seq<(u32, Option<Seq<char>>)>)
    ensures
        first_supported(ts) matches Some(i) ==> i < ts.len() && is_supported_codec(ts[i as int].1),
    decreases ts.len(),
{
    if ts.len() > 0 {
        lemma_first_supported_member(ts.drop_last());
    }
}

} // verus!
