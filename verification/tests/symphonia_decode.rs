use taphle::audio::mp3_stream::StreamingMp3Decoder;
use taphle::audio::symphonia_decode::{decode_symphonia_to_pcm, is_supported, supported_track};

fn synthetic_silent_mp3_frame(padded: bool) -> Vec<u8> {
    // MPEG-1 Layer III, 128 kbit/s, 44.1 kHz, joint stereo. At this
    // bitrate the frame is 417 bytes, or 418 bytes with padding.
    let mut frame = vec![0; if padded { 418 } else { 417 }];
    frame[..4].copy_from_slice(if padded {
        &[0xff, 0xfb, 0x92, 0x64]
    } else {
        &[0xff, 0xfb, 0x90, 0x64]
    });
    frame
}

#[test]
fn streaming_mp3_decoder_decodes_variable_size_frames() {
    let mut decoder = StreamingMp3Decoder::new(44_100, 2).unwrap();

    let unpadded = decoder
        .decode_packet(&synthetic_silent_mp3_frame(false), 1152)
        .unwrap();
    let padded = decoder
        .decode_packet(&synthetic_silent_mp3_frame(true), 1152)
        .unwrap();

    // 1,152 frames * two channels * two bytes per i16 sample.
    assert_eq!(unpadded.len(), 4608);
    assert_eq!(padded.len(), 4608);
    assert!(unpadded.iter().all(|&byte| byte == 0));
    assert!(padded.iter().all(|&byte| byte == 0));
}

#[test]
fn streaming_mp3_decoder_reset_restores_initial_state() {
    let frame = synthetic_silent_mp3_frame(false);
    let mut decoder = StreamingMp3Decoder::new(44_100, 2).unwrap();

    let initially_decoded = decoder.decode_packet(&frame, 1152).unwrap();
    decoder
        .decode_packet(&synthetic_silent_mp3_frame(true), 1152)
        .unwrap();
    decoder.reset();
    let decoded_after_reset = decoder.decode_packet(&frame, 1152).unwrap();

    assert_eq!(decoded_after_reset, initially_decoded);
}

#[test]
fn a_stream_of_the_wrong_format_is_refused() {
    let mut decoder = StreamingMp3Decoder::new(22_050, 2).unwrap();
    assert_eq!(
        decoder.decode_packet(&synthetic_silent_mp3_frame(false), 1152).unwrap_err(),
        "Decoded MP3 format is 44100 Hz/2 channels, expected 22050 Hz/2 channels"
    );
    assert_eq!(
        decoder.decode_packet(&[], 1152).unwrap_err(),
        "Cannot decode an empty MP3 packet"
    );
}

#[test]
fn a_whole_mp3_file_decodes_to_its_samples() {
    let mut file = Vec::new();
    for i in 0..8 {
        file.extend(synthetic_silent_mp3_frame(i % 2 == 1));
    }
    let decoded = decode_symphonia_to_pcm(file).unwrap();
    assert_eq!(decoded.sample_rate, 44_100);
    assert_eq!(decoded.channels, 2);
    assert!(!decoded.bytes.is_empty());
    assert_eq!(decoded.bytes.len() % 4, 0);
    assert!(decoded.bytes.iter().all(|&byte| byte == 0));
}

#[test]
fn bytes_of_no_known_container_are_refused() {
    assert!(decode_symphonia_to_pcm(b"definitely not audio".to_vec()).is_err());
    assert!(decode_symphonia_to_pcm(Vec::new()).is_err());
}

#[test]
fn the_first_track_with_a_supported_codec_is_chosen() {
    let tracks = vec![
        (3, None),
        (4, Some("0x1".to_string())),
        (7, Some(format!("{}", symphonia::core::codecs::audio::well_known::CODEC_ID_MP3))),
        (9, Some(format!("{}", symphonia::core::codecs::audio::well_known::CODEC_ID_AAC))),
    ];
    assert_eq!(supported_track(&tracks), Some(2));
    assert_eq!(supported_track(&tracks[..2]), None);
}

#[test]
fn the_supported_codecs_are_the_crates_six() {
    for id in [
        symphonia::core::codecs::audio::well_known::CODEC_ID_AAC,
        symphonia::core::codecs::audio::well_known::CODEC_ID_ADPCM_IMA_QT,
        symphonia::core::codecs::audio::well_known::CODEC_ID_ADPCM_IMA_WAV,
        symphonia::core::codecs::audio::well_known::CODEC_ID_ALAC,
        symphonia::core::codecs::audio::well_known::CODEC_ID_MP3,
        symphonia::core::codecs::audio::well_known::CODEC_ID_PCM_S16LE,
    ] {
        assert!(is_supported(&Some(format!("{}", id))));
    }
    assert!(!is_supported(&Some(format!("{}", symphonia::core::codecs::audio::well_known::CODEC_ID_FLAC))));
    assert!(!is_supported(&None));
}
