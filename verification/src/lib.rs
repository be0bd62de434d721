//! RIIF: a raster image container for 8-bit RGBA bitmaps.
//!
//! A bitmap is stored as a 12-byte header, one filter tag per row, and the
//! zlib-compressed concatenation of the filtered rows. Every row is filtered
//! with whichever of five byte-wise predictors gives the smallest byte sum.

pub mod bitmap;
pub mod cli;
pub mod container;
pub mod decode;
pub mod encode;
pub mod error;
pub mod filter_laws;
pub mod filters;
pub mod zlib;
