//! The in-memory image the conversion reads: a plain grid of RGB pixels
//! with known dimensions.  Whatever decodes an image file builds one of
//! these; the conversion itself only reads it.

use vstd::prelude::*;
use crate::palette::Rgb;

verus! {

/// A raster image: `width * height` RGB pixels, stored row by row.
pub struct Image {
    width: u32,
    height: u32,
    pixels: Vec<Rgb>,
}

impl Image {
    /// The image's width in pixels.
    pub closed spec fn spec_width(&self) -> u32 {
        self.width
    }

    /// The image's height in pixels.
    pub closed spec fn spec_height(&self) -> u32 {
        self.height
    }

    /// Well-formedness: the pixel store holds exactly one pixel per
    /// coordinate.
    pub closed spec fn wf(&self) -> bool {
        self.pixels@.len() == self.width * self.height
    }

    /// The pixel at column `x` of row `y`.
    pub closed spec fn spec_pixel(&self, x: int, y: int) -> Rgb {
        self.pixels@[y * self.width + x]
    }

    /// Builds an image from its dimensions and its pixels, row by row:
    /// `pixels[y * width + x]` is the pixel at `(x, y)`.  Returns `None`
    /// when the number of pixels does not match the dimensions.
    pub fn new(width: u32, height: u32, pixels: Vec<Rgb>) -> (r: Option<Image>)
        ensures
            r is Some <==> pixels@.len() == width * height,
            r matches Some(img) ==> {
                &&& img.wf()
                &&& img.spec_width() == width
                &&& img.spec_height() == height
                &&& forall|x: int, y: int|
                    0 <= x < width && 0 <= y < height ==> img.spec_pixel(x, y) == pixels@[y * width
                        + x]
            },
    {
        proof {
            assert((width as int) * (height as int) <= 0xffff_ffff * 0xffff_ffff)
                by (nonlinear_arith)
                requires
                    (width as int) <= 0xffff_ffff,
                    (height as int) <= 0xffff_ffff,
                    0 <= (width as int),
                    0 <= (height as int),
            ;
        }
        let expected: u64 = (width as u64) * (height as u64);
        if (pixels.len() as u64) == expected {
            Some(Image { width, height, pixels })
        } else {
            None
        }
    }

    /// The image's width in pixels.
    pub fn width(&self) -> (r: u32)
        ensures
            r == self.spec_width(),
    {
        self.width
    }

    /// The image's height in pixels.
    pub fn height(&self) -> (r: u32)
        ensures
            r == self.spec_height(),
    {
        self.height
    }

    /// Reads the pixel at column `x` of row `y`.
    pub fn pixel(&self, x: u32, y: u32) -> (r: Rgb)
        requires
            self.wf(),
            x < self.spec_width(),
            y < self.spec_height(),
        ensures
            r == self.spec_pixel(x as int, y as int),
    {
        let n: usize = self.pixels.len();
        proof {
            assert((y as int) * (self.width as int) + (x as int) < (self.width as int) * (
            self.height as int)) by (nonlinear_arith)
                requires
                    (x as int) < (self.width as int),
                    (y as int) < (self.height as int),
                    0 <= (x as int),
                    0 <= (y as int),
            ;
        }
        let idx: usize = (y as usize) * (self.width as usize) + (x as usize);
        self.pixels[idx]
    }
}

} // verus!
