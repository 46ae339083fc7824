//! The errors the conversion itself can produce.  Failures of the
//! surrounding program (loading a palette file, decoding an image,
//! writing the output) are not the conversion's and live outside the
//! library.

use vstd::prelude::*;
use crate::palette::Rgb;

verus! {

/// Why a conversion failed.
#[derive(Clone, Copy, PartialEq, Eq, Structural, Debug)]
pub enum ConversionError {
    /// The image's width or height is not divisible by 8, so it cannot be
    /// cut into 8x8 tiles.  Carries the offending dimensions.
    InvalidDimensions { width: u32, height: u32 },
    /// A pixel matched none of the four palette entries exactly.  Carries
    /// the pixel's image coordinates and its colour.
    PixelNotInPalette { x: u32, y: u32, pixel: Rgb },
}

impl ConversionError {
    /// A human-readable description of the error.
    pub fn describe(&self) -> (r: String) {
        match self {
            ConversionError::InvalidDimensions { width: _, height: _ } => {
                "image dimensions are not valid for conversion, both must be divisible by 8".to_string()
            },
            ConversionError::PixelNotInPalette { x: _, y: _, pixel: _ } => {
                "pixel in image was not in palette".to_string()
            },
        }
    }
}

} // verus!
