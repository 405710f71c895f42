//! Pictures of the `image` crate: what a thresholded field is shown as.
//!
//! A picture is opaque here. What the library needs of it has a name, and the
//! function below that calls into the `image` crate says in terms of these
//! names what it is trusted to do.

use vstd::prelude::*;

verus! {

#[verifier::external_type_specification]
#[verifier::external_body]
pub struct ExDynamicImage(image::DynamicImage);

/// The sample buffer of a picture, byte by byte.
pub uninterp spec fn picture_bytes(picture: image::DynamicImage) -> Seq<u8>;

/// Width and height of a picture, in pixels.
pub uninterp spec fn picture_size(picture: image::DynamicImage) -> (u32, u32);

/// `ImageBuffer::from_raw` of the `image` crate for a picture with four bytes
/// per pixel, wrapped as a `DynamicImage`. It makes a picture of the given
/// size whose buffer is the given bytes, where there are at least four bytes
/// for each pixel; else it gives `None`. The height is not zero: the crate
/// multiplies the width first, and would refuse a width that is too large
/// by itself where the product with a height of zero is not.
#[verifier::external_body]
pub(crate) fn picture_from_raw(width: u32, height: u32, bytes: Vec<u8>) -> (r: Option<
    image::DynamicImage,
>)
    requires
        height > 0,
    ensures
        r.is_some() == (4 * width * height <= bytes@.len()),
        r matches Some(picture) ==> picture_bytes(picture) == bytes@ && picture_size(picture) == (
            width,
            height,
        ),
{
    image::RgbaImage::from_raw(width, height, bytes).map(image::DynamicImage::ImageRgba8)
}

} // verus!
