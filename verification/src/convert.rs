//! The conversion itself: cutting a well-sized image into 8x8 tiles in
//! column-major tile order, classifying every pixel against the palette,
//! and concatenating the encoded tiles.

use vstd::prelude::*;
use vstd::arithmetic::div_mod::lemma_fundamental_div_mod;
use vstd::arithmetic::div_mod::lemma_fundamental_div_mod_converse;
use crate::error::ConversionError;
use crate::palette::{classify, classify_spec, Intensity, Palette};
use crate::raster::Image;
use crate::tile::{output_spec, PixelData, SpritePixelData};

verus! {

/// Whether an image of these dimensions can be cut into 8x8 tiles.
pub open spec fn dims_ok(width: u32, height: u32) -> bool {
    width % 8 == 0 && height % 8 == 0
}

/// How many tiles stand side by side in the image.
pub open spec fn tiles_x(img: Image) -> int {
    img.spec_width() as int / 8
}

/// How many tiles stand above one another in the image.
pub open spec fn tiles_y(img: Image) -> int {
    img.spec_height() as int / 8
}

/// Whether `(x, y)` lies inside the image.
pub open spec fn valid_pixel(img: Image, x: int, y: int) -> bool {
    0 <= x < img.spec_width() && 0 <= y < img.spec_height()
}

/// The position of pixel `(x, y)` in the order the conversion scans
/// pixels: tiles in column-major order (tile column first), and inside a
/// tile the horizontal offset before the vertical one.
pub open spec fn scan_key(img: Image, x: int, y: int) -> int {
    (((x / 8) * tiles_y(img) + y / 8) * 8 + x % 8) * 8 + y % 8
}

/// What cell `n` (flat index, `0 <= n < 64`) of the tile at tile
/// coordinates `(tx, ty)` classifies to.
pub open spec fn cell_level(img: Image, pal: Palette, tx: int, ty: int, n: int) -> Option<
    Intensity,
> {
    classify_spec(img.spec_pixel(tx * 8 + n / 8, ty * 8 + n % 8), pal)
}

/// The intensity grid of the tile at tile coordinates `(tx, ty)`,
/// meaningful when every cell of that tile classifies.
pub open spec fn tile_levels(img: Image, pal: Palette, tx: int, ty: int) -> Seq<Intensity> {
    Seq::new(64, |n: int| cell_level(img, pal, tx, ty, n).unwrap())
}

/// The whole tile sequence of the image, in column-major tile order.
pub open spec fn tiles_of(img: Image, pal: Palette) -> Seq<Seq<Intensity>> {
    Seq::new(
        (tiles_x(img) * tiles_y(img)) as nat,
        |t: int| tile_levels(img, pal, t / tiles_y(img), t % tiles_y(img)),
    )
}

/// Whether every pixel of the image matches some palette entry.
pub open spec fn all_classifiable(img: Image, pal: Palette) -> bool {
    forall|x: int, y: int|
        valid_pixel(img, x, y) ==> #[trigger] classify_spec(img.spec_pixel(x, y), pal) is Some
}

/// Whether `(x, y)` is the first pixel, in scan order, that matches no
/// palette entry.
pub open spec fn first_unclassifiable(img: Image, pal: Palette, x: int, y: int) -> bool {
    &&& valid_pixel(img, x, y)
    &&& classify_spec(img.spec_pixel(x, y), pal) is None
    &&& forall|x2: int, y2: int|
        valid_pixel(img, x2, y2) && scan_key(img, x2, y2) < scan_key(img, x, y)
            ==> #[trigger] classify_spec(img.spec_pixel(x2, y2), pal) is Some
}

/// Orders of tile indices: `tx * c + ty` with `0 <= ty < c` orders pairs
/// `(tx, ty)` lexicographically.
proof fn lemma_tile_index_order(c: int, tx1: int, ty1: int, tx2: int, ty2: int)
    by (nonlinear_arith)
    requires
        0 <= ty1 < c,
        0 <= ty2 < c,
    ensures
        tx2 * c + ty2 < tx1 * c + ty1 ==> (tx2 < tx1 || (tx2 == tx1 && ty2 < ty1)),
        tx2 * c + ty2 == tx1 * c + ty1 ==> (tx2 == tx1 && ty2 == ty1),
{
}

/// A pixel of the tile at `(tx, ty)` is cell `x % 8 * 8 + y % 8` of that
/// tile, so a fully classified tile classifies all its pixels.
proof fn lemma_tile_done(img: Image, pal: Palette, tx: int, ty: int)
    requires
        forall|n: int| 0 <= n < 64 ==> #[trigger] cell_level(img, pal, tx, ty, n) is Some,
    ensures
        forall|x2: int, y2: int|
            valid_pixel(img, x2, y2) && x2 / 8 == tx && y2 / 8 == ty ==> #[trigger] classify_spec(
                img.spec_pixel(x2, y2),
                pal,
            ) is Some,
{
    assert forall|x2: int, y2: int|
        valid_pixel(img, x2, y2) && x2 / 8 == tx && y2 / 8 == ty implies #[trigger] classify_spec(
        img.spec_pixel(x2, y2),
        pal,
    ) is Some by {
        let i2 = x2 % 8;
        let j2 = y2 % 8;
        let n = i2 * 8 + j2;
        lemma_fundamental_div_mod(x2, 8);
        lemma_fundamental_div_mod(y2, 8);
        lemma_fundamental_div_mod_converse(n, 8, i2, j2);
        assert(cell_level(img, pal, tx, ty, n) is Some);
        assert(tx * 8 + n / 8 == x2);
        assert(ty * 8 + n % 8 == y2);
    }
}

/// When every pixel of the tile columns left of `tx`, of the tiles above
/// `(tx, ty)` in its column, and of the first `i * 8 + j` cells of the
/// tile at `(tx, ty)` classifies, and cell `(i, j)` of that tile does
/// not, then that cell's pixel is the first unclassifiable one in scan
/// order.
proof fn lemma_first_fail(img: Image, pal: Palette, tx: int, ty: int, i: int, j: int)
    requires
        dims_ok(img.spec_width(), img.spec_height()),
        0 <= tx < tiles_x(img),
        0 <= ty < tiles_y(img),
        0 <= i < 8,
        0 <= j < 8,
        forall|x2: int, y2: int|
            valid_pixel(img, x2, y2) && x2 / 8 < tx ==> #[trigger] classify_spec(
                img.spec_pixel(x2, y2),
                pal,
            ) is Some,
        forall|x2: int, y2: int|
            valid_pixel(img, x2, y2) && x2 / 8 == tx && y2 / 8 < ty ==> #[trigger] classify_spec(
                img.spec_pixel(x2, y2),
                pal,
            ) is Some,
        forall|n: int| 0 <= n < i * 8 + j ==> #[trigger] cell_level(img, pal, tx, ty, n) is Some,
        classify_spec(img.spec_pixel(tx * 8 + i, ty * 8 + j), pal) is None,
    ensures
        first_unclassifiable(img, pal, tx * 8 + i, ty * 8 + j),
{
    let w = img.spec_width() as int;
    let h = img.spec_height() as int;
    let c = tiles_y(img);
    let fx = tx * 8 + i;
    let fy = ty * 8 + j;
    assert(w == 8 * (w / 8));
    assert(h == 8 * c);
    assert(valid_pixel(img, fx, fy));
    lemma_fundamental_div_mod_converse(fx, 8, tx, i);
    lemma_fundamental_div_mod_converse(fy, 8, ty, j);
    assert forall|x2: int, y2: int|
        valid_pixel(img, x2, y2) && scan_key(img, x2, y2) < scan_key(img, fx, fy)
        implies #[trigger] classify_spec(img.spec_pixel(x2, y2), pal) is Some by {
        let tx2 = x2 / 8;
        let ty2 = y2 / 8;
        let i2 = x2 % 8;
        let j2 = y2 % 8;
        lemma_fundamental_div_mod(x2, 8);
        lemma_fundamental_div_mod(y2, 8);
        let t1 = tx * c + ty;
        let t2 = tx2 * c + ty2;
        let n1 = i * 8 + j;
        let n2 = i2 * 8 + j2;
        assert(scan_key(img, x2, y2) == t2 * 64 + n2);
        assert(scan_key(img, fx, fy) == t1 * 64 + n1);
        // y2 / 8 < c, because y2 < 8 * c
        assert(0 <= ty2 < c);
        assert(t2 < t1 || (t2 == t1 && n2 < n1));
        if t2 < t1 {
            lemma_tile_index_order(c, tx, ty, tx2, ty2);
        } else {
            lemma_tile_index_order(c, tx, ty, tx2, ty2);
            assert(tx2 == tx && ty2 == ty);
            lemma_fundamental_div_mod_converse(n2, 8, i2, j2);
            assert(cell_level(img, pal, tx, ty, n2) is Some);
            assert(tx * 8 + n2 / 8 == x2);
            assert(ty * 8 + n2 % 8 == y2);
        }
    }
}

/// Cuts the image into 8x8 tiles, column of tiles by column of tiles, and
/// classifies every pixel.  Returns the tile sequence when every pixel
/// matches a palette entry, and the first unclassifiable pixel's error
/// otherwise.
pub fn extract(image: &Image, palette: &Palette) -> (r: Result<PixelData, ConversionError>)
    requires
        image.wf(),
        dims_ok(image.spec_width(), image.spec_height()),
    ensures
        r matches Ok(tiles) ==> {
            &&& all_classifiable(*image, *palette)
            &&& tiles.wf()
            &&& tiles@ == tiles_of(*image, *palette)
        },
        r matches Err(e) ==> {
            &&& !all_classifiable(*image, *palette)
            &&& (e matches ConversionError::PixelNotInPalette { x, y, pixel }
                && first_unclassifiable(*image, *palette, x as int, y as int)
                && pixel == image.spec_pixel(x as int, y as int))
        },
{
    let w = image.width();
    let h = image.height();
    let sw: u32 = w / 8;
    let sh: u32 = h / 8;
    let mut data = PixelData::init();
    let mut x: u32 = 0;
    while x < sw
        invariant
            image.wf(),
            dims_ok(image.spec_width(), image.spec_height()),
            w == image.spec_width(),
            h == image.spec_height(),
            sw == w / 8,
            sh == h / 8,
            x <= sw,
            data.wf(),
            data@.len() == x * sh,
            forall|t: int|
                0 <= t < x * sh ==> #[trigger] data@[t] == tile_levels(
                    *image,
                    *palette,
                    t / (sh as int),
                    t % (sh as int),
                ),
            forall|x2: int, y2: int|
                valid_pixel(*image, x2, y2) && x2 / 8 < x ==> #[trigger] classify_spec(
                    image.spec_pixel(x2, y2),
                    *palette,
                ) is Some,
        decreases sw - x,
    {
        let mut y: u32 = 0;
        while y < sh
            invariant
                image.wf(),
                dims_ok(image.spec_width(), image.spec_height()),
                w == image.spec_width(),
                h == image.spec_height(),
                sw == w / 8,
                sh == h / 8,
                x < sw,
                y <= sh,
                data.wf(),
                data@.len() == x * sh + y,
                forall|t: int|
                    0 <= t < x * sh + y ==> #[trigger] data@[t] == tile_levels(
                        *image,
                        *palette,
                        t / (sh as int),
                        t % (sh as int),
                    ),
                forall|x2: int, y2: int|
                    valid_pixel(*image, x2, y2) && x2 / 8 < x ==> #[trigger] classify_spec(
                        image.spec_pixel(x2, y2),
                        *palette,
                    ) is Some,
                forall|x2: int, y2: int|
                    valid_pixel(*image, x2, y2) && x2 / 8 == x && y2 / 8 < y
                        ==> #[trigger] classify_spec(image.spec_pixel(x2, y2), *palette) is Some,
            decreases sh - y,
        {
            let mut sprite = SpritePixelData::init();
            let mut i: usize = 0;
            while i < 8
                invariant
                    image.wf(),
                    dims_ok(image.spec_width(), image.spec_height()),
                    w == image.spec_width(),
                    h == image.spec_height(),
                    sw == w / 8,
                    sh == h / 8,
                    x < sw,
                    y < sh,
                    i <= 8,
                    sprite.wf(),
                    forall|n: int|
                        0 <= n < i * 8 ==> #[trigger] cell_level(
                            *image,
                            *palette,
                            x as int,
                            y as int,
                            n,
                        ) is Some,
                    forall|n: int|
                        0 <= n < i * 8 ==> sprite@[n] == tile_levels(
                            *image,
                            *palette,
                            x as int,
                            y as int,
                        )[n],
                    forall|x2: int, y2: int|
                        valid_pixel(*image, x2, y2) && x2 / 8 < x ==> #[trigger] classify_spec(
                            image.spec_pixel(x2, y2),
                            *palette,
                        ) is Some,
                    forall|x2: int, y2: int|
                        valid_pixel(*image, x2, y2) && x2 / 8 == x && y2 / 8 < y
                            ==> #[trigger] classify_spec(image.spec_pixel(x2, y2), *palette)
                            is Some,
                decreases 8 - i,
            {
                let mut j: usize = 0;
                while j < 8
                    invariant
                        image.wf(),
                        dims_ok(image.spec_width(), image.spec_height()),
                        w == image.spec_width(),
                        h == image.spec_height(),
                        sw == w / 8,
                        sh == h / 8,
                        x < sw,
                        y < sh,
                        i < 8,
                        j <= 8,
                        sprite.wf(),
                        forall|n: int|
                            0 <= n < i * 8 + j ==> #[trigger] cell_level(
                                *image,
                                *palette,
                                x as int,
                                y as int,
                                n,
                            ) is Some,
                        forall|n: int|
                            0 <= n < i * 8 + j ==> sprite@[n] == tile_levels(
                                *image,
                                *palette,
                                x as int,
                                y as int,
                            )[n],
                        forall|x2: int, y2: int|
                            valid_pixel(*image, x2, y2) && x2 / 8 < x ==> #[trigger] classify_spec(
                                image.spec_pixel(x2, y2),
                                *palette,
                            ) is Some,
                        forall|x2: int, y2: int|
                            valid_pixel(*image, x2, y2) && x2 / 8 == x && y2 / 8 < y
                                ==> #[trigger] classify_spec(image.spec_pixel(x2, y2), *palette)
                                is Some,
                    decreases 8 - j,
                {
                    let px: u32 = x * 8 + (i as u32);
                    let py: u32 = y * 8 + (j as u32);
                    proof {
                        assert(w == 8 * (w as int / 8));
                        assert(h == 8 * (h as int / 8));
                        assert(px < w && py < h);
                        lemma_fundamental_div_mod_converse(
                            (i * 8 + j) as int,
                            8,
                            i as int,
                            j as int,
                        );
                    }
                    let pixel = image.pixel(px, py);
                    match classify(pixel, px, py, palette) {
                        Ok(level) => {
                            proof {
                                assert(cell_level(*image, *palette, x as int, y as int, (i * 8
                                    + j) as int) is Some);
                            }
                            sprite.set_level(i, j, level);
                        },
                        Err(e) => {
                            proof {
                                lemma_first_fail(
                                    *image,
                                    *palette,
                                    x as int,
                                    y as int,
                                    i as int,
                                    j as int,
                                );
                                assert(valid_pixel(*image, px as int, py as int));
                                assert(!all_classifiable(*image, *palette));
                            }
                            return Err(e);
                        },
                    }
                    j = j + 1;
                }
                i = i + 1;
            }
            proof {
                assert(sprite@ =~= tile_levels(*image, *palette, x as int, y as int));
                lemma_fundamental_div_mod_converse(
                    (x * sh + y) as int,
                    sh as int,
                    x as int,
                    y as int,
                );
            }
            data.push(sprite);
            proof {
                lemma_tile_done(*image, *palette, x as int, y as int);
            }
            y = y + 1;
        }
        proof {
            assert((x as int) * (sh as int) + (sh as int) == ((x as int) + 1) * (sh as int))
                by (nonlinear_arith);
            assert forall|x2: int, y2: int|
                valid_pixel(*image, x2, y2) && x2 / 8 < x + 1 implies #[trigger] classify_spec(
                image.spec_pixel(x2, y2),
                *palette,
            ) is Some by {
                if x2 / 8 == x as int {
                    assert(h == 8 * (sh as int));
                    lemma_fundamental_div_mod(y2, 8);
                    assert(y2 / 8 < sh as int);
                }
            }
        }
        x = x + 1;
    }
    proof {
        assert forall|x2: int, y2: int| valid_pixel(*image, x2, y2) implies #[trigger] classify_spec(
            image.spec_pixel(x2, y2),
            *palette,
        ) is Some by {
            assert(w == 8 * (sw as int));
            lemma_fundamental_div_mod(x2, 8);
            assert(x2 / 8 < sw as int);
        }
        assert(data@ =~= tiles_of(*image, *palette));
    }
    Ok(data)
}

/// A byte-buffer result, seen abstractly.
pub open spec fn bytes_view(r: Result<Vec<u8>, ConversionError>) -> Result<Seq<u8>, ConversionError> {
    match r {
        Ok(v) => Ok(v@),
        Err(e) => Err(e),
    }
}

/// Everything `convert` promises of its result `r`, as a function of the
/// image and the palette alone:
/// - an image whose width or height is not a multiple of 8 is rejected
///   with `InvalidDimensions`;
/// - otherwise, when every pixel matches a palette entry, the result is
///   exactly the encoded tiles, in column-major tile order;
/// - otherwise the result is `PixelNotInPalette`, carrying the first
///   pixel in scan order that matches no entry, with its colour.
pub open spec fn convert_post(img: Image, pal: Palette, r: Result<Seq<u8>, ConversionError>) -> bool {
    let w = img.spec_width();
    let h = img.spec_height();
    &&& (!dims_ok(w, h) ==> r == Err::<Seq<u8>, ConversionError>(
        ConversionError::InvalidDimensions { width: w, height: h },
    ))
    &&& (dims_ok(w, h) && all_classifiable(img, pal) ==> r == Ok::<Seq<u8>, ConversionError>(
        output_spec(tiles_of(img, pal)),
    ))
    &&& (dims_ok(w, h) && !all_classifiable(img, pal) ==> (r matches Err(e) && (e matches
    ConversionError::PixelNotInPalette { x, y, pixel } && first_unclassifiable(
        img,
        pal,
        x as int,
        y as int,
    ) && pixel == img.spec_pixel(x as int, y as int))))
}

/// Converts an image to the packed 2bpp byte sequence: validates the
/// dimensions, extracts and classifies every 8x8 tile, and concatenates
/// the encoded tiles in tile order.
pub fn convert(image: &Image, palette: &Palette) -> (r: Result<Vec<u8>, ConversionError>)
    requires
        image.wf(),
    ensures
        convert_post(*image, *palette, bytes_view(r)),
        r matches Ok(bytes) ==> bytes@.len() == 16 * ((image.spec_width() as int / 8) * (
        image.spec_height() as int / 8)),
{
    let w = image.width();
    let h = image.height();
    if w % 8 != 0 || h % 8 != 0 {
        return Err(ConversionError::InvalidDimensions { width: w, height: h });
    }
    match extract(image, palette) {
        Ok(tiles) => {
            let out = tiles.output();
            Ok(out)
        },
        Err(e) => Err(e),
    }
}

} // verus!
