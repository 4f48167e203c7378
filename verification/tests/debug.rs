use taphle::debug::rgba8_to_rgb8;

#[test]
fn alpha_is_dropped_from_every_pixel() {
    assert_eq!(rgba8_to_rgb8(&[1, 2, 3, 4, 5, 6, 7, 8]), vec![1, 2, 3, 5, 6, 7]);
    assert!(rgba8_to_rgb8(&[]).is_empty());
}

use taphle::debug::{check_ppm, ppm_header, PpmError};

#[test]
fn ppm_dimensions_and_payload_are_checked() {
    assert_eq!(check_ppm(0, 5, 0), Err(PpmError::ZeroDimension));
    assert_eq!(check_ppm(5, 0, 0), Err(PpmError::ZeroDimension));
    assert_eq!(check_ppm(2, 2, 12), Ok(12));
    assert_eq!(
        check_ppm(2, 2, 11),
        Err(PpmError::WrongPayload { actual: 11, expected: 12 })
    );
    assert_eq!(
        PpmError::WrongPayload { actual: 11, expected: 12 }.message(),
        "PPM pixel payload has 11 bytes, expected 12"
    );
    assert_eq!(PpmError::ZeroDimension.message(), "PPM dimensions must be non-zero");
}

#[test]
fn ppm_header_names_size_and_depth() {
    assert_eq!(ppm_header(640, 480), "P6 640 480 255\n");
}
