//! Decoding of the game's BMP sprites, whose magenta-like key colour
//! RGB(225, 61, 246) stands for transparency.

use vstd::prelude::*;

verus! {

/// The colour that marks transparent pixels in the game's bitmaps.
pub const TRANSPARENCY_COLOR: (u8, u8, u8) = (225u8, 61u8, 246u8);

#[verifier::external_type_specification]
#[verifier::external_body]
pub struct ExImageError(image::ImageError);

/// Why a bitmap could not be loaded.
pub enum BmpLoaderError {
    /// The file could not be read.
    Io(String),
    /// The bytes are not a bitmap the decoder accepts.
    ImageError(image::ImageError),
}

/// A decoded sprite: `rgba` holds 4 bytes per pixel, row by row.
pub struct BmpImage {
    pub width: u32,
    pub height: u32,
    pub rgba: Vec<u8>,
}

/// What the BMP decoder makes of `bytes`: the width, the height and the RGB
/// bytes (3 per pixel, row by row) of the image, or nothing when it rejects
/// them.
pub uninterp spec fn bmp_decoded(bytes: Seq<u8>) -> Option<(u32, u32, Seq<u8>)>;

/// Decodes `bytes` as a BMP with `image::load_from_memory_with_format` and
/// converts the result to 8-bit RGB (`DynamicImage::to_rgb8`). The contract
/// claims that the outcome is a function of the bytes alone (`bmp_decoded`)
/// and, for a decoded image, that its buffer holds at least 3 bytes for each
/// of its `width * height` pixels (the image crate builds buffers only of
/// that size) and, like every `Vec`, at most `isize::MAX` bytes.
#[verifier::external_body]
fn decode_bmp_rgb(bytes: &[u8]) -> (r: Result<(u32, u32, Vec<u8>), image::ImageError>)
    ensures
        match r {
            Ok((w, h, raw)) => {
                &&& bmp_decoded(bytes@) == Some((w, h, raw@))
                &&& 3 * (w * h) <= raw@.len() <= isize::MAX
            },
            Err(_) => bmp_decoded(bytes@) is None,
        },
{
    let img = image::load_from_memory_with_format(bytes, image::ImageFormat::Bmp)?;
    let rgb = img.to_rgb8();
    let (w, h) = rgb.dimensions();
    Ok((w, h, rgb.into_raw()))
}

/// The RGB colour of pixel `i` of an RGB buffer.
pub open spec fn rgb_at(rgb: Seq<u8>, i: int) -> (u8, u8, u8) {
    (rgb[3 * i], rgb[3 * i + 1], rgb[3 * i + 2])
}

/// The RGBA bytes of pixel `i` of an RGBA buffer.
pub open spec fn rgba_at(rgba: Seq<u8>, i: int) -> (u8, u8, u8, u8) {
    (rgba[4 * i], rgba[4 * i + 1], rgba[4 * i + 2], rgba[4 * i + 3])
}

/// A pixel of the key colour becomes fully transparent black; any other
/// keeps its colour, fully opaque.
pub open spec fn keyed(c: (u8, u8, u8)) -> (u8, u8, u8, u8) {
    if c == TRANSPARENCY_COLOR {
        (0, 0, 0, 0)
    } else {
        (c.0, c.1, c.2, 255)
    }
}

/// Converts the first `width * height` pixels of an RGB buffer to RGBA,
/// turning the key colour transparent; see `keyed`.
pub fn convert_with_transparency(width: u32, height: u32, rgb: &Vec<u8>) -> (rgba: Vec<u8>)
    requires
        3 * (width * height) <= rgb@.len() <= isize::MAX,
    ensures
        rgba@.len() == 4 * (width * height),
        forall|i: int| 0 <= i < width * height ==> #[trigger] rgba_at(rgba@, i) == keyed(rgb_at(rgb@, i)),
{
    let ghost n = width * height;
    let count: usize = width as usize * height as usize;
    let mut rgba: Vec<u8> = Vec::new();
    let mut i: usize = 0;
    while i < count
        invariant
            count == n,
            3 * n <= rgb@.len() <= isize::MAX,
            i <= count,
            rgba@.len() == 4 * i,
            forall|k: int| 0 <= k < i ==> #[trigger] rgba_at(rgba@, k) == keyed(rgb_at(rgb@, k)),
        decreases count - i,
    {
        let r = rgb[3 * i];
        let g = rgb[3 * i + 1];
        let b = rgb[3 * i + 2];
        let ghost before = rgba@;
        if r == TRANSPARENCY_COLOR.0 && g == TRANSPARENCY_COLOR.1 && b == TRANSPARENCY_COLOR.2 {
            rgba.push(0);
            rgba.push(0);
            rgba.push(0);
            rgba.push(0);
        } else {
            rgba.push(r);
            rgba.push(g);
            rgba.push(b);
            rgba.push(255);
        }
        proof {
            assert forall|k: int| 0 <= k < i + 1 implies #[trigger] rgba_at(rgba@, k) == keyed(rgb_at(rgb@, k)) by {
                if k < i {
                    assert(rgba_at(before, k) == keyed(rgb_at(rgb@, k)));
                    assert(rgba@[4 * k] == before[4 * k]);
                    assert(rgba@[4 * k + 1] == before[4 * k + 1]);
                    assert(rgba@[4 * k + 2] == before[4 * k + 2]);
                    assert(rgba@[4 * k + 3] == before[4 * k + 3]);
                }
            }
        }
        i = i + 1;
    }
    rgba
}

/// Decodes a sprite file: the BMP decoder reads the bytes, then the key
/// colour turns transparent. A decoder error is returned as
/// `BmpLoaderError::ImageError`.
pub fn decode_imperialism_bmp(bytes: &[u8]) -> (r: Result<BmpImage, BmpLoaderError>)
    ensures
        match r {
            Ok(img) => match bmp_decoded(bytes@) {
                Some((w, h, rgb)) => {
                    &&& img.width == w
                    &&& img.height == h
                    &&& img.rgba@.len() == 4 * (w * h)
                    &&& forall|i: int| 0 <= i < w * h ==> #[trigger] rgba_at(img.rgba@, i) == keyed(rgb_at(rgb, i))
                },
                None => false,
            },
            Err(e) => bmp_decoded(bytes@) is None && e is ImageError,
        },
{
    match decode_bmp_rgb(bytes) {
        Ok((w, h, raw)) => {
            let rgba = convert_with_transparency(w, h, &raw);
            Ok(BmpImage { width: w, height: h, rgba })
        },
        Err(e) => Err(BmpLoaderError::ImageError(e)),
    }
}

} // verus!
