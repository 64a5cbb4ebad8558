use vstd::prelude::*;
use crate::frame::Size;
use fast_image_resize::images::{Image, ImageRef};
use fast_image_resize::{PixelType, ResizeError, ResizeOptions, Resizer};

verus! {

#[verifier::external_type_specification]
#[verifier::external_body]
pub struct ExResizeError(ResizeError);

/// Relies on fast_image_resize's `Resizer::resize` with its default options: an
/// RGBA8 source of `width * height` pixels is resampled into a destination image
/// allocated at the target size, whose buffer is handed back on success.
#[verifier::external_body]
pub(crate) fn resample_rgba(pixels: &Vec<u8>, width: u32, height: u32, target: Size) -> (r: Result<
    Vec<u8>,
    ResizeError,
>)
    requires
        pixels@.len() == width * height * 4,
    ensures
        r is Ok ==> r->Ok_0@.len() == target.rgba_len(),
{
    let src = ImageRef::new(width, height, pixels.as_slice(), PixelType::U8x4).expect(
        "the buffer holds width * height pixels",
    );
    let mut dst = Image::new(target.width, target.height, PixelType::U8x4);
    Resizer::new().resize(&src, &mut dst, &ResizeOptions::new()).map(|_| dst.into_vec())
}

} // verus!
