//! General laws of the conversion, proved once and for all from
//! `convert_post`, the contract of `convert`.

use vstd::prelude::*;
use vstd::arithmetic::div_mod::lemma_fundamental_div_mod;
use crate::convert::{
    all_classifiable, convert_post, dims_ok, first_unclassifiable, scan_key, tiles_of, tiles_x,
    tiles_y, valid_pixel,
};
use crate::error::ConversionError;
use crate::palette::{classify_spec, Palette};
use crate::raster::Image;
use crate::tile::{lemma_output_upto_len, output_spec};

verus! {

/// There is at most one first unclassifiable pixel: the scan order is a
/// total order on pixel positions.
proof fn lemma_first_unclassifiable_unique(
    img: Image,
    pal: Palette,
    x1: int,
    y1: int,
    x2: int,
    y2: int,
)
    requires
        dims_ok(img.spec_width(), img.spec_height()),
        first_unclassifiable(img, pal, x1, y1),
        first_unclassifiable(img, pal, x2, y2),
    ensures
        x1 == x2,
        y1 == y2,
{
    if scan_key(img, x1, y1) < scan_key(img, x2, y2) {
        assert(classify_spec(img.spec_pixel(x1, y1), pal) is Some);
    } else if scan_key(img, x2, y2) < scan_key(img, x1, y1) {
        assert(classify_spec(img.spec_pixel(x2, y2), pal) is Some);
    } else {
        let c = tiles_y(img);
        let h = img.spec_height() as int;
        lemma_fundamental_div_mod(x1, 8);
        lemma_fundamental_div_mod(y1, 8);
        lemma_fundamental_div_mod(x2, 8);
        lemma_fundamental_div_mod(y2, 8);
        lemma_fundamental_div_mod(h, 8);
        let t1 = (x1 / 8) * c + y1 / 8;
        let t2 = (x2 / 8) * c + y2 / 8;
        assert(scan_key(img, x1, y1) == t1 * 64 + (x1 % 8) * 8 + y1 % 8);
        assert(scan_key(img, x2, y2) == t2 * 64 + (x2 % 8) * 8 + y2 % 8);
        assert(t1 == t2 && x1 % 8 == x2 % 8 && y1 % 8 == y2 % 8);
        // y / 8 < c for any valid pixel, so t determines the tile pair
        assert(h == 8 * c);
        assert(0 <= y1 < h && 0 <= y2 < h);
        assert(y1 / 8 < c && y2 / 8 < c);
        assert((x1 / 8) == (x2 / 8) && (y1 / 8) == (y2 / 8)) by (nonlinear_arith)
            requires
                t1 == t2,
                t1 == (x1 / 8) * c + y1 / 8,
                t2 == (x2 / 8) * c + y2 / 8,
                0 <= y1 / 8 < c,
                0 <= y2 / 8 < c,
        ;
    }
}

/// Whenever `convert` returns bytes, it returns exactly
/// `16 * (width / 8) * (height / 8)` of them — 16 per tile — and the
/// image's dimensions were multiples of 8.
pub proof fn lemma_convert_output_length(
    img: Image,
    pal: Palette,
    r: Result<Seq<u8>, ConversionError>,
)
    requires
        convert_post(img, pal, r),
        r is Ok,
    ensures
        dims_ok(img.spec_width(), img.spec_height()),
        r->Ok_0.len() == 16 * (tiles_x(img) * tiles_y(img)),
{
    assert(tiles_x(img) * tiles_y(img) >= 0) by (nonlinear_arith)
        requires
            tiles_x(img) >= 0,
            tiles_y(img) >= 0,
    ;
    lemma_output_upto_len(tiles_of(img, pal), tiles_of(img, pal).len() as int);
}

/// `convert` is deterministic: its contract pins one result for each
/// image and palette, so any two results that satisfy it are equal.
pub proof fn lemma_convert_deterministic(
    img: Image,
    pal: Palette,
    r1: Result<Seq<u8>, ConversionError>,
    r2: Result<Seq<u8>, ConversionError>,
)
    requires
        convert_post(img, pal, r1),
        convert_post(img, pal, r2),
    ensures
        r1 == r2,
{
    let w = img.spec_width();
    let h = img.spec_height();
    if dims_ok(w, h) && !all_classifiable(img, pal) {
        match (r1, r2) {
            (
                Err(
                    ConversionError::PixelNotInPalette { x: ex1, y: ey1, pixel: ep1 },
                ),
                Err(
                    ConversionError::PixelNotInPalette { x: ex2, y: ey2, pixel: ep2 },
                ),
            ) => {
                lemma_first_unclassifiable_unique(
                    img,
                    pal,
                    ex1 as int,
                    ey1 as int,
                    ex2 as int,
                    ey2 as int,
                );
            },
            _ => {},
        }
    }
}

/// An image drawn only in the palette's four colours always converts,
/// provided its dimensions are multiples of 8.
pub proof fn lemma_palette_only_image_succeeds(
    img: Image,
    pal: Palette,
    r: Result<Seq<u8>, ConversionError>,
)
    requires
        convert_post(img, pal, r),
        dims_ok(img.spec_width(), img.spec_height()),
        forall|x: int, y: int|
            valid_pixel(img, x, y) ==> {
                ||| #[trigger] img.spec_pixel(x, y) == pal.lightest
                ||| img.spec_pixel(x, y) == pal.light
                ||| img.spec_pixel(x, y) == pal.dark
                ||| img.spec_pixel(x, y) == pal.darkest
            },
    ensures
        r == Ok::<Seq<u8>, ConversionError>(output_spec(tiles_of(img, pal))),
{
    assert forall|x: int, y: int| valid_pixel(img, x, y) implies #[trigger] classify_spec(
        img.spec_pixel(x, y),
        pal,
    ) is Some by {
        assert(img.spec_pixel(x, y) == pal.lightest || img.spec_pixel(x, y) == pal.light
            || img.spec_pixel(x, y) == pal.dark || img.spec_pixel(x, y) == pal.darkest);
    }
}

/// A pixel that matches no palette entry makes the whole conversion fail
/// with `PixelNotInPalette`: no bytes are produced.
pub proof fn lemma_unmatched_pixel_fails(
    img: Image,
    pal: Palette,
    r: Result<Seq<u8>, ConversionError>,
    x: int,
    y: int,
)
    requires
        convert_post(img, pal, r),
        dims_ok(img.spec_width(), img.spec_height()),
        valid_pixel(img, x, y),
        classify_spec(img.spec_pixel(x, y), pal) is None,
    ensures
        r matches Err(e) && (e matches ConversionError::PixelNotInPalette {
            x: fx,
            y: fy,
            pixel: fp,
        } && first_unclassifiable(img, pal, fx as int, fy as int) && fp == img.spec_pixel(
            fx as int,
            fy as int,
        )),
{
    assert(!all_classifiable(img, pal));
}

/// An image whose width or height is not a multiple of 8 is always
/// rejected with `InvalidDimensions`: no pixel can change that.
pub proof fn lemma_invalid_dimensions_fail(
    img: Image,
    pal: Palette,
    r: Result<Seq<u8>, ConversionError>,
)
    requires
        convert_post(img, pal, r),
        !dims_ok(img.spec_width(), img.spec_height()),
    ensures
        r == Err::<Seq<u8>, ConversionError>(
            ConversionError::InvalidDimensions {
                width: img.spec_width(),
                height: img.spec_height(),
            },
        ),
{
}

} // verus!