//! Value types shared by the whole library: image dimensions, a single RGBA
//! pixel, and the error taxonomy.

use vstd::prelude::*;

verus! {

/// Width and height of an image or of a view, in pixels.
#[derive(Copy, Clone, PartialEq, Eq, Structural, Debug)]
pub struct Dimensions {
    pub width: u32,
    pub height: u32,
}

/// One pixel: red, green, blue and alpha channels, 8 bits each.
#[derive(Copy, Clone, PartialEq, Eq, Structural, Debug)]
pub struct Pixel {
    pub r: u8,
    pub g: u8,
    pub b: u8,
    pub alpha: u8,
}

/// Failures the library can report.
///
/// `OutOfBounds` comes from direct pixel accessors only: cropping never
/// fails, it clamps. `InvalidBuffer` marks a buffer whose length does not
/// match the declared dimensions. `DecodeFailure` and `EncodeFailure` are
/// reserved for the codec collaborator around the library; no function in
/// the library itself returns them.
#[derive(Copy, Clone, PartialEq, Eq, Structural, Debug)]
pub enum ImageError {
    OutOfBounds,
    InvalidBuffer,
    DecodeFailure,
    EncodeFailure,
}

impl ImageError {
    /// A short description of the failure.
    pub fn message(&self) -> (r: &'static str)
        ensures
            r@ == self.spec_message(),
    {
        match self {
            ImageError::OutOfBounds => "pixel coordinates out of bounds",
            ImageError::InvalidBuffer => "buffer length does not match dimensions",
            ImageError::DecodeFailure => "could not decode image",
            ImageError::EncodeFailure => "could not encode image",
        }
    }

    /// What `message` returns, as a sequence of characters.
    pub open spec fn spec_message(&self) -> Seq<char> {
        match self {
            ImageError::OutOfBounds => "pixel coordinates out of bounds"@,
            ImageError::InvalidBuffer => "buffer length does not match dimensions"@,
            ImageError::DecodeFailure => "could not decode image"@,
            ImageError::EncodeFailure => "could not encode image"@,
        }
    }
}

} // verus!
