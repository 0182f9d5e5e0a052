//! The decoded image and its parts.

use vstd::prelude::*;

verus! {

/// The fields of the 14-byte file header that follow the magic number.
#[derive(Debug, Clone, Copy, PartialEq, Eq)]
pub struct Header {
    /// The file's length in bytes, as the file itself declares it.
    pub size: u32,
    pub reserved: u32,
    /// Where, according to the file, the pixel data starts.
    pub offset: u32,
}

/// The fields of the 40-byte info block (`BITMAPINFOHEADER`).
#[derive(Debug, Clone, Copy, PartialEq, Eq)]
pub struct Dib {
    pub width: u32,
    pub height: u32,
    pub planes: u16,
    pub bpp: u16,
    pub comp: u32,
    pub size: u32,
    pub ppm_x: u32,
    pub ppm_y: u32,
    pub colors: u32,
    pub imp_colors: u32,
}

/// A palette colour: red, green, blue and a fourth, reserved component.
#[derive(Debug, Clone, Copy, PartialEq, Eq)]
pub struct Rgbx(pub u8, pub u8, pub u8, pub u8);

impl Rgbx {
    /// The colour whose components are the bytes of `n`, least significant
    /// byte first.
    pub open spec fn of_word(n: u32) -> Rgbx {
        Rgbx(
            (n % 256) as u8,
            ((n / 256) % 256) as u8,
            ((n / 65536) % 256) as u8,
            (n / 16777216) as u8,
        )
    }

    /// Splits a 32-bit palette entry into its four components. The entry is
    /// the little-endian reading of four stream bytes, so the components
    /// come out in stream order.
    pub fn from_u32(n: u32) -> (color: Rgbx)
        ensures
            color == Rgbx::of_word(n),
    {
        assert(n & 0xff == n % 256) by (bit_vector);
        assert((n >> 8) & 0xff == (n / 256) % 256) by (bit_vector);
        assert((n >> 16) & 0xff == (n / 65536) % 256) by (bit_vector);
        assert(n >> 24 == n / 16777216) by (bit_vector);
        assert(n >> 24 < 256) by (bit_vector);
        Rgbx(
            (n & 0xff) as u8,
            ((n >> 8) & 0xff) as u8,
            ((n >> 16) & 0xff) as u8,
            (n >> 24) as u8,
        )
    }
}

/// The palette, in stream order: a pixel's value is an index into it.
pub type ColorTable = Vec<Rgbx>;

/// One palette index per pixel, row after row, first stored row first.
pub type Pixels = Vec<usize>;

/// The pixel encodings that the decoder tells apart.
#[derive(Debug, Clone, Copy, PartialEq, Eq)]
pub enum PixelFormat {
    /// Four bits per pixel, two pixels to a byte.
    Indexed4,
    /// Any other bit depth.
    Unsupported,
}

impl PixelFormat {
    /// The encoding that a declared bit depth selects.
    pub open spec fn of_bpp(bpp: u16) -> PixelFormat {
        if bpp == 4 {
            PixelFormat::Indexed4
        } else {
            PixelFormat::Unsupported
        }
    }

    /// Selects the encoding for a declared bit depth.
    pub fn from_bpp(bpp: u16) -> (format: PixelFormat)
        ensures
            format == PixelFormat::of_bpp(bpp),
    {
        match bpp {
            4 => PixelFormat::Indexed4,
            _ => PixelFormat::Unsupported,
        }
    }
}

/// A decoded bitmap. It is built in one piece by [`Bitmap::read`] and
/// offers no way to change it afterwards.
#[derive(Debug, PartialEq, Eq)]
pub struct Bitmap {
    pub header: Header,
    pub dib: Dib,
    pub colors: ColorTable,
    pub pixels: Pixels,
}

/// What a [`Bitmap`] holds, with sequences in place of vectors.
pub struct BitmapView {
    pub header: Header,
    pub dib: Dib,
    pub colors: Seq<Rgbx>,
    pub pixels: Seq<usize>,
}

impl BitmapView {
    /// The palette has as many entries as the info block declares, there
    /// is one pixel for each position of the grid, and every pixel is a
    /// four-bit value.
    pub open spec fn well_formed(self) -> bool {
        &&& self.colors.len() == self.dib.colors
        &&& self.pixels.len() == self.dib.width * self.dib.height
        &&& forall|i: int| 0 <= i < self.pixels.len() ==> #[trigger] self.pixels[i] < 16
    }
}

impl View for Bitmap {
    type V = BitmapView;

    open spec fn view(&self) -> BitmapView {
        BitmapView {
            header: self.header,
            dib: self.dib,
            colors: self.colors@,
            pixels: self.pixels@,
        }
    }
}

} // verus!
