use vstd::prelude::*;

verus! {

/// Width and height of a canvas, in pixels.
#[derive(Clone, Copy, Debug, PartialEq, Eq, Structural)]
pub struct Size {
    pub width: u32,
    pub height: u32,
}

impl Size {
    /// Both dimensions are positive.
    pub open spec fn is_positive(self) -> bool {
        self.width > 0 && self.height > 0
    }

    /// The number of bytes of an RGBA8 buffer of this size.
    pub open spec fn rgba_len(self) -> int {
        self.width * self.height * 4
    }
}

/// One frame of an animation: where it stands on the canvas, its RGBA8 pixels, and
/// its display time as the ratio `delay_numer / delay_denom` milliseconds.
#[derive(Clone, Debug, PartialEq, Eq)]
pub struct Frame {
    pub left: u32,
    pub top: u32,
    pub width: u32,
    pub height: u32,
    pub pixels: Vec<u8>,
    pub delay_numer: u32,
    pub delay_denom: u32,
}

impl Frame {
    /// The pixel buffer holds exactly `width * height` RGBA8 pixels.
    pub open spec fn has_full_buffer(&self) -> bool {
        self.pixels@.len() == self.width * self.height * 4
    }

    /// The delay in whole milliseconds, where the denominator is not zero.
    pub open spec fn delay_ms(&self) -> int {
        self.delay_numer as int / self.delay_denom as int
    }
}

/// How a tick moves the playback position.
#[derive(Clone, Copy, Debug, PartialEq, Eq, Structural)]
pub enum FrameOption {
    /// Serve the current frame and stay on it.
    Hold,
    /// Serve the current frame, then move to the next one.
    Advance,
    /// Go back to the first frame and serve it.
    Reset,
}

impl FrameOption {
    /// The option for a host's numeric code: 0 holds, 1 advances, 2 resets.
    pub fn from_code(code: i32) -> (r: Option<FrameOption>)
        ensures
            code == 0 ==> r == Some(FrameOption::Hold),
            code == 1 ==> r == Some(FrameOption::Advance),
            code == 2 ==> r == Some(FrameOption::Reset),
            !(0 <= code <= 2) ==> r is None,
    {
        match code {
            0 => Some(FrameOption::Hold),
            1 => Some(FrameOption::Advance),
            2 => Some(FrameOption::Reset),
            _ => None,
        }
    }
}

/// A frame source met a frame that it could not decode.
#[derive(Clone, Copy, Debug, PartialEq, Eq, Structural)]
pub struct MalformedFrame;

/// What can go wrong while opening, decoding or drawing an animation.
#[derive(Clone, Copy, Debug, PartialEq, Eq, Structural)]
pub enum DecodeError {
    /// The bytes are not an animated image, or its canvas is empty.
    Format,
    /// A frame is malformed: undecodable, a pixel buffer of the wrong length, or a
    /// delay with a zero denominator.
    Decode,
    /// Resampling a frame to the target size failed.
    Resize,
    /// The output surface holds fewer bytes than the frame.
    BufferTooSmall { required: usize, available: usize },
    /// The animation ended without yielding a single frame.
    EmptyAnimation,
}

impl DecodeError {
    /// A short description, for hosts that surface errors as text.
    pub fn message(&self) -> (r: String)
        ensures
            *self == DecodeError::Format ==> r@ == "not an animated image"@,
            *self == DecodeError::Decode ==> r@ == "malformed frame"@,
            *self == DecodeError::Resize ==> r@ == "resampling failed"@,
            self is BufferTooSmall ==> r@ == "output buffer is not large enough"@,
            *self == DecodeError::EmptyAnimation ==> r@ == "missing frames, is this an animated image?"@,
    {
        match self {
            DecodeError::Format => "not an animated image".to_string(),
            DecodeError::Decode => "malformed frame".to_string(),
            DecodeError::Resize => "resampling failed".to_string(),
            DecodeError::BufferTooSmall { .. } => "output buffer is not large enough".to_string(),
            DecodeError::EmptyAnimation => "missing frames, is this an animated image?".to_string(),
        }
    }
}

} // verus!
