use c2bpp::convert::{convert, extract};
use c2bpp::error::ConversionError;
use c2bpp::palette::{classify, Intensity, Palette, Rgb};
use c2bpp::raster::Image;
use c2bpp::tile::{PixelData, SpritePixelData};

fn rgb(r: u8, g: u8, b: u8) -> Rgb {
    Rgb { r, g, b }
}

fn lightest() -> Rgb {
    rgb(0x9b, 0xbc, 0x0f)
}

fn light() -> Rgb {
    rgb(0x8b, 0xac, 0x0f)
}

fn dark() -> Rgb {
    rgb(0x30, 0x62, 0x30)
}

fn darkest() -> Rgb {
    rgb(0x0f, 0x38, 0x0f)
}

/// An image of the given dimensions whose every pixel is `colour`.
fn solid_image(width: u32, height: u32, colour: Rgb) -> Image {
    let n = (width as usize) * (height as usize);
    let pixels = vec![colour; n];
    Image::new(width, height, pixels).unwrap()
}

/// An image built from a row-major pixel grid.
fn image_from_rows(width: u32, height: u32, rows: Vec<Vec<Rgb>>) -> Image {
    let mut pixels = Vec::new();
    for row in rows {
        assert_eq!(row.len(), width as usize);
        for p in row {
            pixels.push(p);
        }
    }
    assert_eq!(pixels.len(), (width as usize) * (height as usize));
    Image::new(width, height, pixels).unwrap()
}

#[test]
fn default_palette_is_the_classic_one() {
    let pal = Palette::default();
    assert_eq!(pal.lightest, lightest());
    assert_eq!(pal.light, light());
    assert_eq!(pal.dark, dark());
    assert_eq!(pal.darkest, darkest());
}

#[test]
fn classify_maps_each_palette_colour_to_its_level() {
    let pal = Palette::default();
    assert_eq!(classify(lightest(), 0, 0, &pal), Ok(Intensity::Lightest));
    assert_eq!(classify(light(), 0, 0, &pal), Ok(Intensity::Light));
    assert_eq!(classify(dark(), 0, 0, &pal), Ok(Intensity::Dark));
    assert_eq!(classify(darkest(), 0, 0, &pal), Ok(Intensity::Darkest));
}

#[test]
fn classify_unknown_pixel_carries_coordinates_and_colour() {
    let pal = Palette::default();
    let stray = rgb(1, 2, 3);
    assert_eq!(
        classify(stray, 3, 5, &pal),
        Err(ConversionError::PixelNotInPalette { x: 3, y: 5, pixel: stray })
    );
}

#[test]
fn image_new_checks_the_pixel_count() {
    assert!(Image::new(8, 8, vec![lightest(); 63]).is_none());
    assert!(Image::new(8, 8, vec![lightest(); 64]).is_some());
    let img = Image::new(8, 8, vec![lightest(); 64]).unwrap();
    assert_eq!(img.width(), 8);
    assert_eq!(img.height(), 8);
    assert_eq!(img.pixel(7, 7), lightest());
}

#[test]
fn convert_produces_sixteen_bytes_per_tile() {
    let pal = Palette::default();
    let img = solid_image(16, 16, light());
    let out = convert(&img, &pal).unwrap();
    assert_eq!(out.len(), 16 * 2 * 2);
}

#[test]
fn convert_of_empty_image_produces_no_bytes() {
    let pal = Palette::default();
    let img = Image::new(0, 0, Vec::new()).unwrap();
    assert_eq!(convert(&img, &pal), Ok(Vec::new()));
}

#[test]
fn convert_is_deterministic() {
    let pal = Palette::default();
    let img = image_from_rows(
        8,
        8,
        vec![
            vec![lightest(), light(), dark(), darkest(), lightest(), light(), dark(), darkest()],
            vec![light(); 8],
            vec![dark(); 8],
            vec![darkest(); 8],
            vec![lightest(); 8],
            vec![light(); 8],
            vec![dark(); 8],
            vec![darkest(); 8],
        ],
    );
    let first = convert(&img, &pal).unwrap();
    let second = convert(&img, &pal).unwrap();
    assert_eq!(first, second);
}

#[test]
fn convert_fails_on_a_pixel_outside_the_palette() {
    let pal = Palette::default();
    let stray = rgb(0xff, 0x00, 0xff);
    let mut rows = vec![vec![lightest(); 8]; 8];
    rows[5][2] = stray;
    let img = image_from_rows(8, 8, rows);
    assert_eq!(
        convert(&img, &pal),
        Err(ConversionError::PixelNotInPalette { x: 2, y: 5, pixel: stray })
    );
}

#[test]
fn convert_reports_the_first_bad_pixel_in_scan_order() {
    // Tiles are scanned column-major: the bad pixel of tile (0, 1) comes
    // before the bad pixel of tile (1, 0).
    let pal = Palette::default();
    let stray = rgb(0xff, 0x00, 0xff);
    let mut rows = vec![vec![lightest(); 16]; 16];
    rows[8][0] = stray; // tile (0, 1)
    rows[0][8] = stray; // tile (1, 0)
    let img = image_from_rows(16, 16, rows);
    assert_eq!(
        convert(&img, &pal),
        Err(ConversionError::PixelNotInPalette { x: 0, y: 8, pixel: stray })
    );
}

#[test]
fn convert_rejects_width_not_divisible_by_eight() {
    let pal = Palette::default();
    let img = solid_image(9, 8, lightest());
    assert_eq!(
        convert(&img, &pal),
        Err(ConversionError::InvalidDimensions { width: 9, height: 8 })
    );
}

#[test]
fn convert_rejects_height_not_divisible_by_eight() {
    let pal = Palette::default();
    let img = solid_image(8, 12, lightest());
    assert_eq!(
        convert(&img, &pal),
        Err(ConversionError::InvalidDimensions { width: 8, height: 12 })
    );
}

#[test]
fn all_lightest_tile_encodes_to_zero_bytes() {
    let tile = SpritePixelData::init();
    assert_eq!(tile.encode(), vec![0u8; 16]);
}

#[test]
fn all_darkest_tile_encodes_to_ff_bytes() {
    let mut tile = SpritePixelData::init();
    for i in 0..8 {
        for j in 0..8 {
            tile.set_level(i, j, Intensity::Darkest);
        }
    }
    assert_eq!(tile.encode(), vec![0xffu8; 16]);
}

#[test]
fn single_light_pixel_sets_bit_zero_of_the_first_plane() {
    let pal = Palette::default();
    let mut rows = vec![vec![lightest(); 8]; 8];
    rows[0][0] = light();
    let img = image_from_rows(8, 8, rows);
    let out = convert(&img, &pal).unwrap();
    let mut expected = vec![0u8; 16];
    expected[0] = 0x01;
    assert_eq!(out, expected);
}

#[test]
fn single_dark_pixel_sets_bit_zero_of_the_second_plane() {
    let pal = Palette::default();
    let mut rows = vec![vec![lightest(); 8]; 8];
    rows[0][0] = dark();
    let img = image_from_rows(8, 8, rows);
    let out = convert(&img, &pal).unwrap();
    let mut expected = vec![0u8; 16];
    expected[1] = 0x01;
    assert_eq!(out, expected);
}

#[test]
fn single_darkest_pixel_sets_both_planes() {
    let pal = Palette::default();
    let mut rows = vec![vec![lightest(); 8]; 8];
    rows[0][0] = darkest();
    let img = image_from_rows(8, 8, rows);
    let out = convert(&img, &pal).unwrap();
    let mut expected = vec![0u8; 16];
    expected[0] = 0x01;
    expected[1] = 0x01;
    assert_eq!(out, expected);
}

#[test]
fn horizontal_offset_picks_the_byte_pair() {
    // The tile's first index axis tracks the horizontal offset, and the
    // encoder walks that axis as its row loop: pixel (3, 0) lands in the
    // fourth byte pair, bit 0.
    let pal = Palette::default();
    let mut rows = vec![vec![lightest(); 8]; 8];
    rows[0][3] = light();
    let img = image_from_rows(8, 8, rows);
    let out = convert(&img, &pal).unwrap();
    let mut expected = vec![0u8; 16];
    expected[6] = 0x01;
    assert_eq!(out, expected);
}

#[test]
fn vertical_offset_picks_the_bit() {
    // Pixel (0, 3) lands in the first byte pair, bit 3.
    let pal = Palette::default();
    let mut rows = vec![vec![lightest(); 8]; 8];
    rows[3][0] = light();
    let img = image_from_rows(8, 8, rows);
    let out = convert(&img, &pal).unwrap();
    let mut expected = vec![0u8; 16];
    expected[0] = 0x08;
    assert_eq!(out, expected);
}

#[test]
fn two_tiles_side_by_side_come_out_in_order() {
    let pal = Palette::default();
    let mut rows = Vec::new();
    for _ in 0..8 {
        let mut row = vec![lightest(); 8];
        row.extend(vec![darkest(); 8]);
        rows.push(row);
    }
    let img = image_from_rows(16, 8, rows);
    let out = convert(&img, &pal).unwrap();
    assert_eq!(out.len(), 32);
    assert_eq!(&out[..16], &vec![0u8; 16][..]);
    assert_eq!(&out[16..], &vec![0xffu8; 16][..]);
}

#[test]
fn tiles_come_out_in_column_major_order() {
    // In a 16x16 image the tile below the first one is emitted second,
    // before the tile to its right.
    let pal = Palette::default();
    let mut rows = vec![vec![lightest(); 16]; 16];
    for y in 8..16 {
        for x in 0..8 {
            rows[y][x] = darkest();
        }
    }
    let img = image_from_rows(16, 16, rows);
    let out = convert(&img, &pal).unwrap();
    assert_eq!(out.len(), 64);
    assert_eq!(&out[..16], &vec![0u8; 16][..]);
    assert_eq!(&out[16..32], &vec![0xffu8; 16][..]);
    assert_eq!(&out[32..], &vec![0u8; 32][..]);
}

#[test]
fn a_permuted_palette_changes_the_classification() {
    // The same solid image converts to all-ones under the default
    // palette and to all-zeroes under a palette that calls that colour
    // its lightest: palette injection is respected.
    let default_pal = Palette::default();
    let swapped = Palette {
        lightest: darkest(),
        light: dark(),
        dark: light(),
        darkest: lightest(),
    };
    let img = solid_image(8, 8, darkest());
    assert_eq!(convert(&img, &default_pal).unwrap(), vec![0xffu8; 16]);
    assert_eq!(convert(&img, &swapped).unwrap(), vec![0u8; 16]);
}

#[test]
fn extract_yields_one_tile_per_grid_position() {
    let pal = Palette::default();
    let img = solid_image(24, 16, dark());
    let tiles = extract(&img, &pal).unwrap();
    assert_eq!(tiles.len(), 6);
}

#[test]
fn pixel_data_concatenates_pushed_tiles() {
    let mut set = PixelData::init();
    assert_eq!(set.len(), 0);
    let zeroes = SpritePixelData::init();
    let mut ones = SpritePixelData::init();
    for i in 0..8 {
        for j in 0..8 {
            ones.set_level(i, j, Intensity::Darkest);
        }
    }
    set.push(ones);
    set.push(zeroes);
    let out = set.output();
    assert_eq!(out.len(), 32);
    assert_eq!(&out[..16], &vec![0xffu8; 16][..]);
    assert_eq!(&out[16..], &vec![0u8; 16][..]);
}

#[test]
fn tile_levels_can_be_read_back() {
    let mut tile = SpritePixelData::init();
    assert_eq!(tile.level(4, 2), Intensity::Lightest);
    tile.set_level(4, 2, Intensity::Dark);
    assert_eq!(tile.level(4, 2), Intensity::Dark);
    assert_eq!(tile.level(2, 4), Intensity::Lightest);
}

#[test]
fn errors_describe_themselves() {
    let dims = ConversionError::InvalidDimensions { width: 9, height: 8 };
    let pixel = ConversionError::PixelNotInPalette { x: 0, y: 0, pixel: Rgb { r: 0, g: 0, b: 0 } };
    assert_eq!(
        dims.describe(),
        "image dimensions are not valid for conversion, both must be divisible by 8"
    );
    assert_eq!(pixel.describe(), "pixel in image was not in palette");
}
