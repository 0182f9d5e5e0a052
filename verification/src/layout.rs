//! The file format, stated over sequences of bytes.
//!
//! A file is four sections, one after the other: a 14-byte header, a
//! 40-byte info block, the palette with four bytes per colour, and the
//! pixel rows, each padded to a multiple of four bytes. All integers are
//! little-endian. Each section is described here by what it yields on the
//! bytes that are left when it starts, and the whole file by the sections
//! in sequence.

use vstd::prelude::*;
use crate::error::LoadError;
use crate::image::{BitmapView, Dib, Header, PixelFormat, Rgbx};

verus! {

/// The unsigned 16-bit integer stored at `b[at]`, `b[at + 1]`.
pub open spec fn le16(b: Seq<u8>, at: int) -> u16 {
    (b[at] + 256 * b[at + 1]) as u16
}

/// The unsigned 32-bit integer stored at `b[at]` to `b[at + 3]`.
pub open spec fn le32(b: Seq<u8>, at: int) -> u32 {
    (b[at] + 256 * b[at + 1] + 65536 * b[at + 2] + 16777216 * b[at + 3]) as u32
}

/// The header starts with the ASCII letters `B`, `M`.
pub open spec fn has_magic(b: Seq<u8>) -> bool {
    b[0] == 0x42 && b[1] == 0x4d
}

/// The fields of a header section.
pub open spec fn header_of(b: Seq<u8>) -> Header {
    Header { size: le32(b, 2), reserved: le32(b, 6), offset: le32(b, 10) }
}

/// The length that an info block declares for itself.
pub open spec fn declared_dib_len(b: Seq<u8>) -> u32 {
    le32(b, 0)
}

/// The fields of an info block.
pub open spec fn dib_of(b: Seq<u8>) -> Dib {
    Dib {
        width: le32(b, 4),
        height: le32(b, 8),
        planes: le16(b, 12),
        bpp: le16(b, 14),
        comp: le32(b, 16),
        size: le32(b, 20),
        ppm_x: le32(b, 24),
        ppm_y: le32(b, 28),
        colors: le32(b, 32),
        imp_colors: le32(b, 36),
    }
}

/// The colour stored in the four bytes from `b[at]` on: its components
/// are those bytes, in the order in which they are stored.
pub open spec fn color_of(b: Seq<u8>, at: int) -> Rgbx {
    Rgbx(b[at], b[at + 1], b[at + 2], b[at + 3])
}

/// The first `n` colours of a palette section.
pub open spec fn palette_of(b: Seq<u8>, n: nat) -> Seq<Rgbx> {
    Seq::new(n, |i: int| color_of(b, 4 * i))
}

/// Bytes per stored row of `cols` four-bit pixels: the row's bits, rounded
/// up to a whole number of 32-bit words.
pub open spec fn row_stride(cols: nat) -> nat {
    ((4 * cols + 31) / 32) * 4
}

/// Bytes that the pixel rows of a `cols` by `rows` image take.
pub open spec fn pixel_bytes(cols: nat, rows: nat) -> nat {
    row_stride(cols) * rows
}

/// The pixel that `byte` holds for column `col`: the high four bits for an
/// even column, the low four bits for an odd one.
pub open spec fn sample(byte: u8, col: int) -> usize {
    if col % 2 == 0 {
        (byte / 16) as usize
    } else {
        (byte % 16) as usize
    }
}

/// The pixel in row `r`, column `c` of a pixel section.
pub open spec fn pixel_at(b: Seq<u8>, cols: nat, r: int, c: int) -> usize {
    sample(b[r * row_stride(cols) + c / 2], c)
}

/// The pixels of a pixel section, row after row in stored order.
pub open spec fn pixels_of(b: Seq<u8>, cols: nat, rows: nat) -> Seq<usize> {
    Seq::new(rows * cols, |i: int| pixel_at(b, cols, i / (cols as int), i % (cols as int)))
}

/// What reading a section of `n` bytes yields on a source that has `s`
/// left: the bytes, if there are that many.
pub open spec fn section(s: Seq<u8>, n: int) -> Result<Seq<u8>, LoadError> {
    if n <= s.len() {
        Ok(s.take(n))
    } else {
        Err(LoadError::UnexpectedEof)
    }
}

/// What a source that had `s` left has left after it was asked for a
/// section of `n` bytes: a section that comes up short uses up the source.
pub open spec fn rest_after(s: Seq<u8>, n: int) -> Seq<u8> {
    if n <= s.len() {
        s.skip(n)
    } else {
        Seq::empty()
    }
}

/// Outcome of the header section.
pub open spec fn header_stage(s: Seq<u8>) -> Result<Header, LoadError> {
    match section(s, 14) {
        Err(e) => Err(e),
        Ok(b) => if has_magic(b) {
            Ok(header_of(b))
        } else {
            Err(LoadError::BadMagic)
        },
    }
}

/// Outcome of the info block. The bit depth is not judged here.
pub open spec fn dib_stage(s: Seq<u8>) -> Result<Dib, LoadError> {
    match section(s, 40) {
        Err(e) => Err(e),
        Ok(b) => if declared_dib_len(b) == 40 {
            Ok(dib_of(b))
        } else {
            Err(LoadError::UnsupportedDib)
        },
    }
}

/// Outcome of a palette section of `ncolors` entries.
pub open spec fn palette_stage(s: Seq<u8>, ncolors: nat) -> Result<Seq<Rgbx>, LoadError> {
    match section(s, 4 * (ncolors as int)) {
        Err(e) => Err(e),
        Ok(b) => Ok(palette_of(b, ncolors)),
    }
}

/// Outcome of a pixel section with four bits per pixel.
pub open spec fn pixels_4bpp_stage(s: Seq<u8>, cols: nat, rows: nat) -> Result<
    Seq<usize>,
    LoadError,
> {
    match section(s, pixel_bytes(cols, rows) as int) {
        Err(e) => Err(e),
        Ok(b) => Ok(pixels_of(b, cols, rows)),
    }
}

/// Outcome of the pixel section for a declared bit depth.
pub open spec fn pixel_stage(s: Seq<u8>, cols: nat, rows: nat, bpp: u16) -> Result<
    Seq<usize>,
    LoadError,
> {
    match PixelFormat::of_bpp(bpp) {
        PixelFormat::Indexed4 => pixels_4bpp_stage(s, cols, rows),
        PixelFormat::Unsupported => Err(LoadError::UnsupportedBpp),
    }
}

/// What is left after the pixel section: an unsupported bit depth is
/// refused before a byte is read.
pub open spec fn pixel_rest(s: Seq<u8>, cols: nat, rows: nat, bpp: u16) -> Seq<u8> {
    match PixelFormat::of_bpp(bpp) {
        PixelFormat::Indexed4 => rest_after(s, pixel_bytes(cols, rows) as int),
        PixelFormat::Unsupported => s,
    }
}

/// The number of palette entries that a file declares.
pub open spec fn declared_colors(s: Seq<u8>) -> nat {
    le32(s, 46) as nat
}

/// The image width that a file declares.
pub open spec fn declared_width(s: Seq<u8>) -> nat {
    le32(s, 18) as nat
}

/// The image height that a file declares.
pub open spec fn declared_height(s: Seq<u8>) -> nat {
    le32(s, 22) as nat
}

/// Offset of the first pixel row: header and info block take 54 bytes,
/// and the palette follows them.
pub open spec fn pixel_start(s: Seq<u8>) -> nat {
    54 + 4 * declared_colors(s)
}

/// Length of the file that starts at `s[0]`, going by what its info
/// block declares.
pub open spec fn encoded_len(s: Seq<u8>) -> nat {
    pixel_start(s) + pixel_bytes(declared_width(s), declared_height(s))
}

/// `s` starts with a complete file of the supported kind: the magic
/// number, an info block that declares 40 bytes and 4 bits per pixel, and
/// every byte that its palette and its pixel rows need.
pub open spec fn well_encoded(s: Seq<u8>) -> bool {
    &&& encoded_len(s) <= s.len()
    &&& has_magic(s)
    &&& le32(s, 14) == 40
    &&& le16(s, 28) == 4
}

/// The image that a well-encoded file holds, read off at fixed offsets.
pub open spec fn image_at(s: Seq<u8>) -> BitmapView {
    BitmapView {
        header: header_of(s),
        dib: dib_of(s.skip(14)),
        colors: palette_of(s.skip(54), declared_colors(s)),
        pixels: pixels_of(s.skip(pixel_start(s) as int), declared_width(s), declared_height(s)),
    }
}

/// Outcome of decoding a whole file from a source that has `s` left: the
/// four sections in order, the first failure ending the decode.
pub open spec fn decoded(s: Seq<u8>) -> Result<BitmapView, LoadError> {
    let after_header = rest_after(s, 14);
    let after_dib = rest_after(after_header, 40);
    match header_stage(s) {
        Err(e) => Err(e),
        Ok(header) => match dib_stage(after_header) {
            Err(e) => Err(e),
            Ok(dib) => {
                let after_palette = rest_after(after_dib, 4 * dib.colors);
                match palette_stage(after_dib, dib.colors as nat) {
                    Err(e) => Err(e),
                    Ok(colors) => match pixel_stage(
                        after_palette,
                        dib.width as nat,
                        dib.height as nat,
                        dib.bpp,
                    ) {
                        Err(e) => Err(e),
                        Ok(pixels) => Ok(BitmapView { header, dib, colors, pixels }),
                    },
                }
            },
        },
    }
}

/// What the source has left when the decode of `s` has ended, whichever
/// way it ended.
pub open spec fn decoded_rest(s: Seq<u8>) -> Seq<u8> {
    let after_header = rest_after(s, 14);
    let after_dib = rest_after(after_header, 40);
    match header_stage(s) {
        Err(_) => after_header,
        Ok(_) => match dib_stage(after_header) {
            Err(_) => after_dib,
            Ok(dib) => {
                let after_palette = rest_after(after_dib, 4 * dib.colors);
                match palette_stage(after_dib, dib.colors as nat) {
                    Err(_) => after_palette,
                    Ok(_) => pixel_rest(
                        after_palette,
                        dib.width as nat,
                        dib.height as nat,
                        dib.bpp,
                    ),
                }
            },
        },
    }
}

} // verus!
