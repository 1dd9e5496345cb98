use vstd::prelude::*;

use image::{DynamicImage, ImageError};

verus! {

#[verifier::external_type_specification]
#[verifier::external_body]
pub struct ExDynamicImage(DynamicImage);

#[verifier::external_type_specification]
#[verifier::external_body]
pub struct ExImageError(ImageError);

/// Whether the bytes hold an image in a format that can be decoded.
pub uninterp spec fn decodes(bytes: Seq<u8>) -> bool;

/// Relies on image::load_from_memory: guesses the format from the bytes and
/// decodes them with the default limits, or says why it could not. Which of
/// the two happens depends on the bytes alone.
#[verifier::external_body]
fn decode_image(bytes: &Vec<u8>) -> (r: Result<DynamicImage, ImageError>)
    ensures
        r is Ok <==> decodes(bytes@),
{
    image::load_from_memory(bytes.as_slice())
}

/// Relies on image's `GenericImageView::dimensions` for `DynamicImage`: the
/// width and height in pixels.
#[verifier::external_body]
fn image_dimensions(img: &DynamicImage) -> (r: (u32, u32)) {
    image::GenericImageView::dimensions(img)
}

/// A decoded image together with its width and height in pixels.
pub struct Picture {
    pub image: DynamicImage,
    pub width: u32,
    pub height: u32,
}

impl Picture {
    /// Wraps an image, reading its size once.
    pub fn new(image: DynamicImage) -> (r: Picture) {
        let (width, height) = image_dimensions(&image);
        Picture { image, width, height }
    }
}

/// Which bytes an image was decoded from.
#[derive(Clone, Copy, Debug, PartialEq, Eq)]
pub enum ImageSource {
    Requested,
    Fallback,
}

/// The placeholder image could not be found or decoded; nothing can be drawn.
#[derive(Clone, Copy, Debug, PartialEq, Eq)]
pub struct FallbackMissing;

/// The requested bytes are present and decode.
pub open spec fn usable(bytes: Option<Vec<u8>>) -> bool {
    bytes is Some && decodes(bytes->0@)
}

/// Decodes the requested image, or the placeholder where the requested bytes
/// are absent or do not decode. The placeholder is only decoded when needed.
pub fn read_image(requested: Option<Vec<u8>>, fallback: Option<Vec<u8>>) -> (r: Result<
    (Picture, ImageSource),
    FallbackMissing,
>)
    ensures
        usable(requested) ==> r matches Ok((_, ImageSource::Requested)),
        !usable(requested) && usable(fallback) ==> r matches Ok((_, ImageSource::Fallback)),
        r is Err <==> !usable(requested) && !usable(fallback),
{
    let decoded = match &requested {
        Some(bytes) => match decode_image(bytes) {
            Ok(img) => Some(img),
            Err(_) => None,
        },
        None => None,
    };
    match decoded {
        Some(img) => Ok((Picture::new(img), ImageSource::Requested)),
        None => match &fallback {
            Some(bytes) => match decode_image(bytes) {
                Ok(img) => Ok((Picture::new(img), ImageSource::Fallback)),
                Err(_) => Err(FallbackMissing),
            },
            None => Err(FallbackMissing),
        },
    }
}

} // verus!
