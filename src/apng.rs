use vstd::prelude::*;
use crate::decoder::{AnimationDecoder, FrameSource};
use crate::frame::{DecodeError, Frame, MalformedFrame, Size};
use image::codecs::png::PngDecoder;
use image::{AnimationDecoder as _, Frames, ImageDecoder as _, ImageError};
use image::Frame as ImageFrame;
use std::io::Cursor;

verus! {

#[verifier::external_type_specification]
#[verifier::external_body]
pub struct ExImageError(ImageError);

#[verifier::external_type_specification]
#[verifier::external_body]
pub struct ExImageFrame(ImageFrame);

#[verifier::external_type_specification]
#[verifier::external_body]
#[verifier::reject_recursive_types(T)]
pub struct ExCursor<T>(Cursor<T>);

#[verifier::external_type_specification]
#[verifier::external_body]
pub struct ExFrames<'a>(Frames<'a>);

/// What image's PNG decoder reads from the header of `data`: the canvas width and
/// height, and whether an animation control chunk is present; `None` where `data`
/// is not a PNG it can open.
pub uninterp spec fn png_header(data: Seq<u8>) -> Option<(u32, u32, bool)>;

/// Relies on image's PNG decoder from bytes to frame iterator: `PngDecoder::new`
/// reads the signature and header (or fails on bytes that are not a PNG),
/// `ImageDecoder::dimensions` gives the canvas size from the header,
/// `PngDecoder::is_apng` tells whether an animation control chunk is present, and
/// `PngDecoder::apng` with `AnimationDecoder::into_frames` gives a lazy iterator that
/// decodes one frame per step. The decoder types in between are generic over std's
/// I/O traits, which Verus cannot declare, so these steps share one trusted item.
#[verifier::external_body]
fn png_frames(data: Vec<u8>) -> (r: Result<(u32, u32, bool, Frames<'static>), ImageError>)
    ensures
        r is Ok <==> png_header(data@) is Some,
        r matches Ok((w, h, a, _)) ==> png_header(data@) == Some((w, h, a)),
{
    let decoder = PngDecoder::new(Cursor::new(data))?;
    let (width, height) = decoder.dimensions();
    let animated = decoder.is_apng()?;
    Ok((width, height, animated, decoder.apng()?.into_frames()))
}

/// Relies on `Iterator::next` of image's `Frames`: the next frame, composited onto
/// the canvas, as RGBA8 pixels with its placement and its delay in milliseconds as a
/// ratio; an error for a frame that does not decode; `None` at the end.
#[verifier::external_body]
fn next_image_frame(frames: &mut Frames<'static>) -> (r: Option<Result<Frame, ImageError>>) {
    match frames.next() {
        None => None,
        Some(Err(e)) => Some(Err(e)),
        Some(Ok(f)) => {
            let (left, top) = (f.left(), f.top());
            let (delay_numer, delay_denom) = f.delay().numer_denom_ms();
            let buffer = f.into_buffer();
            let (width, height) = buffer.dimensions();
            let pixels = buffer.into_raw();
            Some(Ok(Frame { left, top, width, height, pixels, delay_numer, delay_denom }))
        },
    }
}

/// Relies on the `Debug` impl of image's `ImageError`: a description of the error,
/// for people.
#[verifier::external_body]
fn image_error_text(e: &ImageError) -> (r: String) {
    format!("{:?}", e)
}

/// The frames of an animated PNG, decoded one at a time.
pub struct ApngSource {
    frames: Frames<'static>,
    last_error: Option<String>,
}

impl ApngSource {
    /// The description of the last frame that failed to decode, if any.
    pub closed spec fn error_text(&self) -> Option<String> {
        self.last_error
    }

    /// The description of the last frame that failed to decode, if any.
    pub fn last_error(&self) -> (r: &Option<String>)
        ensures
            *r == self.error_text(),
    {
        &self.last_error
    }
}

impl FrameSource for ApngSource {
    fn next_frame(&mut self) -> (r: Option<Result<Frame, MalformedFrame>>) {
        match next_image_frame(&mut self.frames) {
            None => None,
            Some(Err(e)) => {
                self.last_error = Some(image_error_text(&e));
                Some(Err(MalformedFrame))
            },
            Some(Ok(f)) => Some(Ok(f)),
        }
    }
}

/// The canvas of an animation whose header reads `width`, `height` and `animated`:
/// a header without animation, or with an empty canvas, gives
/// `DecodeError::Format`.
pub fn canvas_of_header(width: u32, height: u32, animated: bool) -> (r: Result<Size, DecodeError>)
    ensures
        r is Ok <==> animated && width > 0 && height > 0,
        r matches Ok(size) ==> size == (Size { width, height }),
        r matches Err(e) ==> e == DecodeError::Format,
{
    if !animated || width == 0 || height == 0 {
        return Err(DecodeError::Format);
    }
    Ok(Size { width, height })
}

/// Opens an animated PNG held in `data`: reads its canvas size and prepares its
/// frames for lazy decoding, without decoding any. Bytes that are not a PNG, a PNG
/// without animation, or an empty canvas give `DecodeError::Format`; the canvas of
/// the decoder is the size in the header.
pub fn open_apng(data: Vec<u8>) -> (r: Result<AnimationDecoder<ApngSource>, DecodeError>)
    ensures
        match r {
            Ok(d) => {
                &&& d.wf()
                &&& d.canvas().is_positive()
                &&& d.frames().len() == 0
                &&& d.index() == 0
                &&& !d.complete()
                &&& d.failure() is None
                &&& d.target() is None
            },
            Err(e) => e == DecodeError::Format,
        },
        r is Ok <==> (png_header(data@) matches Some((w, h, a)) && a && w > 0 && h > 0),
        r matches Ok(d) ==> png_header(data@) == Some((d.canvas().width, d.canvas().height, true)),
{
    let (width, height, animated, frames) = match png_frames(data) {
        Ok(opened) => opened,
        Err(_) => {
            return Err(DecodeError::Format);
        },
    };
    let size = match canvas_of_header(width, height, animated) {
        Ok(size) => size,
        Err(e) => {
            return Err(e);
        },
    };
    AnimationDecoder::new(ApngSource { frames, last_error: None }, size)
}

} // verus!
