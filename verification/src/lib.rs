//! Decoder for uncompressed Windows bitmap files with a `BITMAPINFOHEADER`
//! and four bits per pixel.
//!
//! [`Bitmap::read`] consumes a [`ByteSource`] strictly front to back and
//! yields the raw header fields, the palette and one palette index per
//! pixel, or the [`LoadError`] of the first section that could not be
//! read. Nothing is encoded, converted or rendered here.
//!
//! - [`layout`] states the file format over sequences of bytes;
//! - [`reader`] holds the decoder, proved against that statement;
//! - [`laws`] proves what follows from the format for every input;
//! - [`image`], [`source`] and [`error`] hold the types.

pub mod error;
pub mod image;
pub mod laws;
pub mod layout;
pub mod reader;
pub mod source;

pub use error::LoadError;
pub use image::{Bitmap, BitmapView, ColorTable, Dib, Header, PixelFormat, Pixels, Rgbx};
pub use source::ByteSource;
