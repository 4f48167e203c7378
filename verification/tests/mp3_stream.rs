use taphle::audio::mp3_stream::Mp3StreamState;

#[test]
fn a_stream_needs_a_rate_and_one_or_two_channels() {
    assert_eq!(
        Mp3StreamState::new(0, 2).unwrap_err(),
        "MP3 sample rate must be non-zero"
    );
    assert_eq!(
        Mp3StreamState::new(44_100, 3).unwrap_err(),
        "MP3 channel count must be one or two, got 3"
    );
    assert!(Mp3StreamState::new(44_100, 1).is_ok());
}

#[test]
fn packets_are_stamped_with_the_frames_before_them() {
    let mut s = Mp3StreamState::new(44_100, 2).unwrap();
    assert_eq!(s.start_packet(417, 1152), Ok(0));
    assert_eq!(s.start_packet(418, 1152), Ok(1152));
    assert_eq!(s.start_packet(0, 1152).unwrap_err(), "Cannot decode an empty MP3 packet");
    assert_eq!(
        s.start_packet(10, 0).unwrap_err(),
        "MP3 packet frame count must be non-zero"
    );
    assert_eq!(s.start_packet(418, 1152), Ok(2304));
    s.reset();
    assert_eq!(s.start_packet(417, 1152), Ok(0));
}

#[test]
fn the_decoded_format_must_be_the_streams() {
    let s = Mp3StreamState::new(44_100, 2).unwrap();
    assert_eq!(s.check_decoded_format(44_100, 2), Ok(()));
    assert_eq!(
        s.check_decoded_format(22_050, 1).unwrap_err(),
        "Decoded MP3 format is 22050 Hz/1 channels, expected 44100 Hz/2 channels"
    );
}
