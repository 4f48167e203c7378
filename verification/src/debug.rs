//! Pixel-format helpers used by debugging dumps.

use crate::text::{decimal, decimal_string};
use vstd::prelude::*;
use vstd::string::*;

verus! {

/// The RGB pixels that remain of `rgba` when every fourth byte (alpha) is
/// dropped.
pub open spec fn rgb_of_rgba(rgba: Seq<u8>) -> Seq<u8> {
    Seq::new((rgba.len() / 4 * 3) as nat, |i: int| rgba[(i / 3) * 4 + i % 3])
}

/// Convert RGBA8 pixel data to RGB8 pixel data by discarding the alpha
/// component.
pub fn rgba8_to_rgb8(pixels: &[u8]) -> (res: Vec<u8>)
    requires
        pixels@.len() % 4 == 0,
    ensures
        res@ == rgb_of_rgba(pixels@),
{
    let mut res: Vec<u8> = Vec::with_capacity((pixels.len() / 4) * 3);
    let mut i: usize = 0;
    while i < pixels.len()
        invariant
            pixels@.len() % 4 == 0,
            i % 4 == 0,
            i <= pixels@.len(),
            res@.len() == i / 4 * 3,
            forall|k: int| 0 <= k < res@.len() ==> res@[k] == pixels@[(k / 3) * 4 + k % 3],
        decreases pixels@.len() - i,
    {
        res.push(pixels[i]);
        res.push(pixels[i + 1]);
        res.push(pixels[i + 2]);
        i = i + 4;
    }
    assert(res@ =~= rgb_of_rgba(pixels@));
    res
}

broadcast use vstd::string::group_string_axioms;

/// Why a PPM image cannot be written.
#[derive(Clone, Copy, Debug, PartialEq, Eq, Structural)]
pub enum PpmError {
    /// A width or a height of zero.
    ZeroDimension,
    /// A width times a height times three that does not fit in `usize`.
    DimensionsOverflow,
    /// A pixel payload of the wrong length: it has this many bytes, and this
    /// many were expected.
    WrongPayload { actual: usize, expected: usize },
}

/// The number of bytes of RGB pixels an image of `width` by `height` has.
pub open spec fn ppm_payload_len(width: u32, height: u32) -> int {
    width as int * height as int * 3
}

/// Check an RGB image before it is written as a PPM file: both dimensions
/// must be non-zero, the payload size must fit in `usize`, and the pixels
/// must be exactly that many bytes. The payload size is handed back.
pub fn check_ppm(width: u32, height: u32, pixels_len: usize) -> (r: Result<usize, PpmError>)
    ensures
        width == 0 || height == 0 ==> r == Err::<usize, PpmError>(PpmError::ZeroDimension),
        width != 0 && height != 0 && ppm_payload_len(width, height) > usize::MAX ==> r == Err::<
            usize,
            PpmError,
        >(PpmError::DimensionsOverflow),
        width != 0 && height != 0 && ppm_payload_len(width, height) <= usize::MAX && pixels_len
            != ppm_payload_len(width, height) ==> r == Err::<usize, PpmError>(
            PpmError::WrongPayload {
                actual: pixels_len,
                expected: ppm_payload_len(width, height) as usize,
            },
        ),
        width != 0 && height != 0 && ppm_payload_len(width, height) <= usize::MAX && pixels_len
            == ppm_payload_len(width, height) ==> r == Ok::<usize, PpmError>(pixels_len),
        r is Ok ==> width != 0 && height != 0 && pixels_len == ppm_payload_len(width, height) && r
            == Ok::<usize, PpmError>(pixels_len),
{
    if width == 0 || height == 0 {
        return Err(PpmError::ZeroDimension);
    }
    let expected = match (width as usize).checked_mul(height as usize) {
        Some(size) => size.checked_mul(3),
        None => None,
    };
    let expected = match expected {
        Some(e) => e,
        None => {
            proof {
                assert(width as int * height as int * 3 >= width as int * height as int) by (
                nonlinear_arith);
            }
            return Err(PpmError::DimensionsOverflow);
        },
    };
    if pixels_len != expected {
        return Err(PpmError::WrongPayload { actual: pixels_len, expected });
    }
    Ok(expected)
}

/// The message a PPM error is reported with.
pub open spec fn ppm_error_message(e: PpmError) -> Seq<char> {
    match e {
        PpmError::ZeroDimension => "PPM dimensions must be non-zero"@,
        PpmError::DimensionsOverflow => "PPM dimensions overflow"@,
        PpmError::WrongPayload { actual, expected } => "PPM pixel payload has "@ + decimal(
            actual as nat,
        ) + " bytes, expected "@ + decimal(expected as nat),
    }
}

impl PpmError {
    /// The message the error is reported with.
    pub fn message(&self) -> (r: String)
        ensures
            r@ == ppm_error_message(*self),
    {
        match self {
            PpmError::ZeroDimension => "PPM dimensions must be non-zero".to_owned(),
            PpmError::DimensionsOverflow => "PPM dimensions overflow".to_owned(),
            PpmError::WrongPayload { actual, expected } => "PPM pixel payload has ".to_owned().concat(
                decimal_string(*actual as u64).as_str(),
            ).concat(" bytes, expected ").concat(decimal_string(*expected as u64).as_str()),
        }
    }
}

/// The header of a binary PPM file of `width` by `height` pixels with 8-bit
/// channels: `P6 <width> <height> 255` and a line feed.
pub open spec fn ppm_header_text(width: u32, height: u32) -> Seq<char> {
    "P6 "@ + decimal(width as nat) + " "@ + decimal(height as nat) + " 255\n"@
}

/// The header of a binary PPM file of `width` by `height` pixels.
pub fn ppm_header(width: u32, height: u32) -> (r: String)
    ensures
        r@ == ppm_header_text(width, height),
{
    "P6 ".to_owned().concat(decimal_string(width as u64).as_str()).concat(" ").concat(
        decimal_string(height as u64).as_str(),
    ).concat(" 255\n")
}

} // verus!
