//! The four-colour palette and the classification of a pixel into one of
//! its four intensity levels.

use vstd::prelude::*;
use crate::error::ConversionError;

verus! {

/// An RGB colour, one byte per channel.
#[derive(Clone, Copy, PartialEq, Eq, Structural, Debug)]
pub struct Rgb {
    pub r: u8,
    pub g: u8,
    pub b: u8,
}

/// One of the four intensity levels of the 2bpp format, from lightest to
/// darkest.
#[derive(Clone, Copy, PartialEq, Eq, Structural, Debug)]
pub enum Intensity {
    Lightest,
    Light,
    Dark,
    Darkest,
}

/// A palette: exactly one RGB colour for each intensity level.  The four
/// colours are expected to be pairwise distinct, but nothing enforces it:
/// classification tries the entries lightest first, so a colour that
/// appears twice classifies to the lighter of its levels.
#[derive(Clone, Copy, PartialEq, Eq, Structural, Debug)]
pub struct Palette {
    pub lightest: Rgb,
    pub light: Rgb,
    pub dark: Rgb,
    pub darkest: Rgb,
}

/// The fixed default palette (the classic Game Boy greens).
pub open spec fn default_palette() -> Palette {
    Palette {
        lightest: (Rgb { r: 0x9b, g: 0xbc, b: 0x0f }),
        light: (Rgb { r: 0x8b, g: 0xac, b: 0x0f }),
        dark: (Rgb { r: 0x30, g: 0x62, b: 0x30 }),
        darkest: (Rgb { r: 0x0f, g: 0x38, b: 0x0f }),
    }
}

impl Default for Palette {
    /// The default palette value.
    fn default() -> (r: Palette)
        ensures
            r == default_palette(),
    {
        Palette {
            lightest: Rgb { r: 0x9b, g: 0xbc, b: 0x0f },
            light: Rgb { r: 0x8b, g: 0xac, b: 0x0f },
            dark: Rgb { r: 0x30, g: 0x62, b: 0x30 },
            darkest: Rgb { r: 0x0f, g: 0x38, b: 0x0f },
        }
    }
}

/// The intensity level a pixel classifies to: the first palette entry,
/// in lightest-to-darkest order, that equals the pixel exactly, or
/// `None` when no entry matches.
pub open spec fn classify_spec(pixel: Rgb, palette: Palette) -> Option<Intensity> {
    if pixel == palette.lightest {
        Some(Intensity::Lightest)
    } else if pixel == palette.light {
        Some(Intensity::Light)
    } else if pixel == palette.dark {
        Some(Intensity::Dark)
    } else if pixel == palette.darkest {
        Some(Intensity::Darkest)
    } else {
        None
    }
}

/// Matches a pixel exactly against the four palette entries.  `x` and `y`
/// are the pixel's image coordinates, carried into the error when the
/// pixel is in no palette entry.
pub fn classify(pixel: Rgb, x: u32, y: u32, palette: &Palette) -> (r: Result<
    Intensity,
    ConversionError,
>)
    ensures
        match classify_spec(pixel, *palette) {
            Some(level) => r == Ok::<Intensity, ConversionError>(level),
            None => (r == Err::<Intensity, ConversionError>(
                ConversionError::PixelNotInPalette { x, y, pixel },
            )),
        },
{
    if pixel == palette.lightest {
        Ok(Intensity::Lightest)
    } else if pixel == palette.light {
        Ok(Intensity::Light)
    } else if pixel == palette.dark {
        Ok(Intensity::Dark)
    } else if pixel == palette.darkest {
        Ok(Intensity::Darkest)
    } else {
        Err(ConversionError::PixelNotInPalette { x, y, pixel })
    }
}

} // verus!
