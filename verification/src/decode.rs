//! Decoding an encoded image (PNG, JPEG, ...) into raw RGBA pixels, with
//! the `image` crate.

use vstd::prelude::*;
use image::GenericImageView;
use crate::content::{ImageView, RgbaImage};

verus! {

/// `image::DynamicImage`: a decoded image. Nothing of its inside is known
/// here; it is handed from the decoder to the functions that read it.
#[verifier::external_type_specification]
#[verifier::external_body]
pub struct ExDynamicImage(image::DynamicImage);

/// `image::ImageError`: the decoder's error, carried along as it is.
#[verifier::external_type_specification]
#[verifier::external_body]
pub struct ExImageError(image::ImageError);

/// What `image::load_from_memory` makes of the bytes `data`: the decoded
/// image, or `None` where it reports an error.
pub uninterp spec fn decoded(data: Seq<u8>) -> Option<image::DynamicImage>;

/// The width and the height of a decoded image, in pixels.
pub uninterp spec fn pixel_dimensions(img: image::DynamicImage) -> (nat, nat);

/// The pixels of a decoded image as 8-bit RGBA, row after row: what
/// `DynamicImage::to_rgba8` holds.
pub uninterp spec fn rgba8_bytes(img: image::DynamicImage) -> Seq<u8>;

/// Calls `image::load_from_memory`, which guesses the format of `data` and
/// decodes it. The contract only gives the outcome its name: the same bytes
/// decode to the same image, or fail alike.
#[verifier::external_body]
fn decode(data: &[u8]) -> (r: Result<image::DynamicImage, image::ImageError>)
    ensures
        match r {
            Ok(img) => decoded(data@) == Some(img),
            Err(_) => decoded(data@) is None,
        },
{
    image::load_from_memory(data)
}

/// Calls `GenericImageView::dimensions` on a decoded image, which returns
/// the width and the height that the image was decoded with.
#[verifier::external_body]
fn dimensions(img: &image::DynamicImage) -> (r: (u32, u32))
    ensures
        (r.0 as nat, r.1 as nat) == pixel_dimensions(*img),
{
    img.dimensions()
}

/// Calls `DynamicImage::to_rgba8` and takes the buffer of the result.
///
/// `to_rgba8` allocates `width * height * 4` bytes and panics where that
/// number does not fit in `usize`, so the caller has to rule that out.
#[verifier::external_body]
fn to_rgba8_bytes(img: &image::DynamicImage) -> (r: Vec<u8>)
    requires
        pixel_dimensions(*img).0 * pixel_dimensions(*img).1 * 4 <= usize::MAX,
    ensures
        r@ == rgba8_bytes(*img),
{
    img.to_rgba8().into_raw()
}

/// Why an encoded image could not be loaded.
#[derive(Debug)]
pub enum ImageLoadError {
    /// The bytes are not an image that can be decoded; the decoder's own
    /// error is carried along.
    Decode(image::ImageError),
    /// The image has more pixels than a buffer can hold.
    TooLarge,
    /// The decoder returned a buffer that does not hold four bytes for each
    /// pixel.
    Malformed,
}

/// Why loading fails, as a mathematical value.
pub enum LoadFailure {
    Decode,
    TooLarge,
    Malformed,
}

/// The failure that an error stands for.
pub open spec fn failure_of(e: ImageLoadError) -> LoadFailure {
    match e {
        ImageLoadError::Decode(_) => LoadFailure::Decode,
        ImageLoadError::TooLarge => LoadFailure::TooLarge,
        ImageLoadError::Malformed => LoadFailure::Malformed,
    }
}

/// The value of the outcome of a load.
pub open spec fn outcome_view(r: Result<RgbaImage, ImageLoadError>) -> Result<
    ImageView,
    LoadFailure,
> {
    match r {
        Ok(img) => Ok(img@),
        Err(e) => Err(failure_of(e)),
    }
}

/// The raw image that a decoded image gives: its dimensions with its RGBA
/// bytes, where these are four for each pixel and their number fits in
/// `usize`.
pub open spec fn converted(img: image::DynamicImage) -> Result<ImageView, LoadFailure> {
    let (width, height) = pixel_dimensions(img);
    if width * height * 4 > usize::MAX {
        Err(LoadFailure::TooLarge)
    } else if rgba8_bytes(img).len() != width * height * 4 {
        Err(LoadFailure::Malformed)
    } else {
        Ok(ImageView { width, height, bytes: rgba8_bytes(img) })
    }
}

/// The raw RGBA image of a decoded image.
pub fn rgba_from_decoded(img: &image::DynamicImage) -> (r: Result<RgbaImage, ImageLoadError>)
    ensures
        outcome_view(r) == converted(*img),
{
    let (w, h): (u32, u32) = dimensions(img);
    let width: usize = w as usize;
    let height: usize = h as usize;
    let pixels: usize = match width.checked_mul(height) {
        Some(p) => p,
        None => {
            assert(width * height * 4 > usize::MAX) by (nonlinear_arith)
                requires
                    width * height > usize::MAX,
            ;
            return Err(ImageLoadError::TooLarge);
        },
    };
    if pixels.checked_mul(4).is_none() {
        return Err(ImageLoadError::TooLarge);
    }
    let bytes: Vec<u8> = to_rgba8_bytes(img);
    match RgbaImage::new(width, height, bytes) {
        Some(rgba) => Ok(rgba),
        None => Err(ImageLoadError::Malformed),
    }
}

/// Decodes an encoded image into raw RGBA pixels.
pub fn load_image_from_memory(data: &[u8]) -> (r: Result<RgbaImage, ImageLoadError>)
    ensures
        outcome_view(r) == match decoded(data@) {
            Some(img) => converted(img),
            None => Err(LoadFailure::Decode),
        },
{
    match decode(data) {
        Ok(img) => rgba_from_decoded(&img),
        Err(e) => Err(ImageLoadError::Decode(e)),
    }
}

} // verus!
