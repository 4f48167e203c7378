use taphle::audio::aifc::{decode_ima4_aifc, read_extended_80};
use taphle::audio::caf::{
    decode_signed_8_bit_lpcm, CAF_HEADER_SIZE, CAF_LPCM_FLAG_IS_LITTLE_ENDIAN, CHUNK_HEADER_SIZE,
};
use taphle::audio::ima4::decode_ima4;

/// The sample rates these files actually use.
#[test]
fn extended_floats_round_trip_common_rates() {
    // 22050 Hz and 44100 Hz as 80-bit extended.
    let rate_22050 = [0x40, 0x0D, 0xAC, 0x44, 0, 0, 0, 0, 0, 0];
    let rate_44100 = [0x40, 0x0E, 0xAC, 0x44, 0, 0, 0, 0, 0, 0];
    assert_eq!(read_extended_80(&rate_22050), Ok(22050));
    assert_eq!(read_extended_80(&rate_44100), Ok(44100));
}

#[test]
fn extended_floats_outside_the_normalised_range_are_rejected() {
    // Negative.
    assert_eq!(read_extended_80(&[0xC0, 0x0D, 0xAC, 0x44, 0, 0, 0, 0, 0, 0]), Err(()));
    // Below one.
    assert_eq!(read_extended_80(&[0x3F, 0xFE, 0x80, 0, 0, 0, 0, 0, 0, 0]), Err(()));
    // Too large for 32 bits: 2^32.
    assert_eq!(read_extended_80(&[0x40, 0x1F, 0x80, 0, 0, 0, 0, 0, 0, 0]), Err(()));
    // The largest 32-bit value is still accepted.
    assert_eq!(
        read_extended_80(&[0x40, 0x1E, 0xFF, 0xFF, 0xFF, 0xFF, 0, 0, 0, 0]),
        Ok(u32::MAX)
    );
}

fn aifc_with(compression: &[u8; 4], packets: usize) -> Vec<u8> {
    let mut comm = Vec::new();
    comm.extend_from_slice(&1u16.to_be_bytes()); // channels
    comm.extend_from_slice(&(packets as u32 * 64).to_be_bytes()); // frames
    comm.extend_from_slice(&0u16.to_be_bytes()); // sampleSize (0 for AIFC)
    comm.extend_from_slice(&[0x40, 0x0D, 0xAC, 0x44, 0, 0, 0, 0, 0, 0]); // 22050
    comm.extend_from_slice(compression);
    comm.push(0); // empty Pascal string

    let mut ssnd = vec![0u8; 8];
    ssnd.extend(std::iter::repeat(0u8).take(packets * 34));

    let mut body = Vec::new();
    body.extend_from_slice(b"AIFC");
    body.extend_from_slice(b"COMM");
    body.extend_from_slice(&(comm.len() as u32).to_be_bytes());
    body.extend_from_slice(&comm);
    if comm.len() % 2 == 1 {
        body.push(0);
    }
    body.extend_from_slice(b"SSND");
    body.extend_from_slice(&(ssnd.len() as u32).to_be_bytes());
    body.extend_from_slice(&ssnd);

    let mut out = Vec::new();
    out.extend_from_slice(b"FORM");
    out.extend_from_slice(&(body.len() as u32).to_be_bytes());
    out.extend_from_slice(&body);
    out
}

#[test]
fn an_ima4_aifc_decodes_to_sixteen_bit_pcm() {
    let decoded = decode_ima4_aifc(&aifc_with(b"ima4", 3)).unwrap();
    assert_eq!(decoded.sample_rate, 22050);
    assert_eq!(decoded.channels, 1);
    // Three packets, 64 samples each, two bytes per sample.
    assert_eq!(decoded.bytes.len(), 3 * 64 * 2);
}

/// Uncompressed AIFF and other compressions belong to the general decoder;
/// refusing them here is what lets it still get a look.
#[test]
fn other_compressions_are_declined() {
    assert!(decode_ima4_aifc(&aifc_with(b"NONE", 1)).is_err());
    assert!(decode_ima4_aifc(&aifc_with(b"alaw", 1)).is_err());
}

#[test]
fn a_non_aifc_file_is_declined() {
    assert!(decode_ima4_aifc(b"RIFF\0\0\0\0WAVEfmt ").is_err());
    assert!(decode_ima4_aifc(b"").is_err());
}

#[test]
fn an_aifc_without_sound_data_is_declined() {
    let mut file = aifc_with(b"ima4", 0);
    assert!(decode_ima4_aifc(&file).is_err());
    // A chunk running past the end of the file.
    file.truncate(file.len() - 1);
    assert!(decode_ima4_aifc(&file).is_err());
}

/// A packet whose header sets the predictor and whose codes all move it up
/// by the smallest step.
#[test]
fn an_ima4_packet_decodes_step_by_step() {
    let mut packet = [0u8; 34];
    // Predictor 0x0100 with step index 0.
    packet[0] = 0x01;
    packet[1] = 0x00;
    // Code 1 in every nibble: diff = step/8 + step/4.
    for byte in packet.iter_mut().skip(2) {
        *byte = 0x11;
    }
    let samples = decode_ima4(&packet);
    assert_eq!(samples.len(), 64);
    // Step 7: 7/8 + 7/4 = 0 + 1 = 1, and code 1 lowers the index back to 0.
    assert_eq!(samples[0], 257);
    assert_eq!(samples[1], 258);
    assert_eq!(samples[63], 256 + 64);
}

#[test]
fn stereo_ima4_packets_interleave_per_sample() {
    let mut file = aifc_with(b"ima4", 2);
    // Make it stereo: one packet group of two packets.
    let channels_at = 12 + 8;
    file[channels_at] = 0;
    file[channels_at + 1] = 2;
    // Second packet's header: predictor 0x7F80 (positive), index 0.
    let ssnd_body = file.len() - 2 * 34;
    file[ssnd_body + 34] = 0x7F;
    file[ssnd_body + 35] = 0x80;
    let decoded = decode_ima4_aifc(&file).unwrap();
    assert_eq!(decoded.channels, 2);
    assert_eq!(decoded.bytes.len(), 64 * 2 * 2);
    // Left sample 0, then right sample 0.
    assert_eq!(&decoded.bytes[0..4], &[0x00, 0x00, 0x80, 0x7F]);
}

fn synthetic_caf(channels: u32, samples: &[u8], unknown_data_size: bool, edit_count: u32) -> Vec<u8> {
    let mut bytes = b"caff".to_vec();
    bytes.extend_from_slice(&1_u16.to_be_bytes());
    bytes.extend_from_slice(&0_u16.to_be_bytes());

    let mut description = Vec::with_capacity(32);
    description.extend_from_slice(&48_000_f64.to_bits().to_be_bytes());
    description.extend_from_slice(b"lpcm");
    description.extend_from_slice(&CAF_LPCM_FLAG_IS_LITTLE_ENDIAN.to_be_bytes());
    description.extend_from_slice(&channels.to_be_bytes());
    description.extend_from_slice(&1_u32.to_be_bytes());
    description.extend_from_slice(&channels.to_be_bytes());
    description.extend_from_slice(&8_u32.to_be_bytes());
    push_chunk(&mut bytes, b"desc", &description);

    // Exercise bounded skipping of an unrelated chunk.
    push_chunk(&mut bytes, b"free", &[0, 0, 0, 0]);

    bytes.extend_from_slice(b"data");
    if unknown_data_size {
        bytes.extend_from_slice(&(-1_i64).to_be_bytes());
    } else {
        let data_size: i64 = (samples.len() + 4).try_into().unwrap();
        bytes.extend_from_slice(&data_size.to_be_bytes());
    }
    bytes.extend_from_slice(&edit_count.to_be_bytes());
    bytes.extend_from_slice(samples);
    bytes
}

fn push_chunk(file: &mut Vec<u8>, chunk_type: &[u8; 4], body: &[u8]) {
    file.extend_from_slice(chunk_type);
    file.extend_from_slice(&i64::try_from(body.len()).unwrap().to_be_bytes());
    file.extend_from_slice(body);
}

fn pcm_bytes(samples: &[i16]) -> Vec<u8> {
    samples.iter().flat_map(|sample| sample.to_le_bytes()).collect()
}

#[test]
fn decodes_mono_signed_8_bit_lpcm() {
    let pcm = decode_signed_8_bit_lpcm(&synthetic_caf(1, &[0x80, 0x00, 0x7f], false, 0)).unwrap();

    assert_eq!(pcm.sample_rate, 48_000);
    assert_eq!(pcm.channels, 1);
    assert_eq!(pcm.bytes, pcm_bytes(&[i16::MIN, 0, 32_512]));
}

#[test]
fn decodes_stereo_signed_8_bit_lpcm_with_unknown_data_size() {
    let pcm =
        decode_signed_8_bit_lpcm(&synthetic_caf(2, &[0x80, 0x7f, 0x00, 0xff], true, 0)).unwrap();

    assert_eq!(pcm.sample_rate, 48_000);
    assert_eq!(pcm.channels, 2);
    assert_eq!(pcm.bytes, pcm_bytes(&[i16::MIN, 32_512, 0, -256]));
}

#[test]
fn accepts_nonzero_data_edit_count() {
    let pcm = decode_signed_8_bit_lpcm(&synthetic_caf(1, &[0x00], false, 1)).unwrap();
    assert_eq!(pcm.bytes, pcm_bytes(&[0]));
}

#[test]
fn malformed_or_out_of_scope_caf_is_rejected_without_panicking() {
    let truncated = b"caff\0\x01\0\0desc".to_vec();
    let misaligned_stereo = synthetic_caf(2, &[0], false, 0);
    let mut unsupported_bit_depth = synthetic_caf(1, &[0], false, 0);
    let bits_per_channel_offset = CAF_HEADER_SIZE + CHUNK_HEADER_SIZE + 28;
    unsupported_bit_depth[bits_per_channel_offset..bits_per_channel_offset + 4]
        .copy_from_slice(&16_u32.to_be_bytes());
    let mut invalid_unknown_chunk = b"caff\0\x01\0\0free".to_vec();
    invalid_unknown_chunk.extend_from_slice(&(-1_i64).to_be_bytes());

    for malformed in [
        truncated,
        misaligned_stereo,
        unsupported_bit_depth,
        invalid_unknown_chunk,
    ] {
        assert!(decode_signed_8_bit_lpcm(&malformed).is_err());
    }
}

#[test]
fn caf_sample_rates_must_be_positive_whole_numbers() {
    let rate_offset = CAF_HEADER_SIZE + CHUNK_HEADER_SIZE;
    for rate in [0.0_f64, -48_000.0, 44_100.5, f64::NAN, f64::INFINITY, 5e9] {
        let mut file = synthetic_caf(1, &[0], false, 0);
        file[rate_offset..rate_offset + 8].copy_from_slice(&rate.to_bits().to_be_bytes());
        assert!(decode_signed_8_bit_lpcm(&file).is_err(), "rate {rate} was accepted");
    }
    for rate in [1.0_f64, 8_000.0, 4_294_967_295.0] {
        let mut file = synthetic_caf(1, &[0], false, 0);
        file[rate_offset..rate_offset + 8].copy_from_slice(&rate.to_bits().to_be_bytes());
        assert_eq!(decode_signed_8_bit_lpcm(&file).unwrap().sample_rate, rate as u32);
    }
}

#[test]
fn a_second_description_or_data_chunk_is_rejected() {
    let mut file = synthetic_caf(1, &[1, 2], false, 0);
    push_chunk(&mut file, b"data", &[0, 0, 0, 0, 9]);
    assert!(decode_signed_8_bit_lpcm(&file).is_err());
}
