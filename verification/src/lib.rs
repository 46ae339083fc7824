//! Converter from raster images to the Game Boy 2bpp tile format.
//!
//! An image whose width and height are multiples of 8 is cut into 8x8
//! tiles, each pixel is matched exactly against a four-colour palette,
//! and every tile is packed into 16 bytes across two bit planes.

pub mod convert;
pub mod error;
pub mod laws;
pub mod palette;
pub mod raster;
pub mod tile;
