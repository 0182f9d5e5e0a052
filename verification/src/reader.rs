//! The decoder: one function per section, and [`Bitmap::read`] for a
//! whole file.

use vstd::prelude::*;
use crate::error::LoadError;
use crate::image::{Bitmap, ColorTable, Dib, Header, PixelFormat, Pixels, Rgbx};
use crate::laws::{lemma_decoded_well_formed, lemma_entry_components};
use crate::layout::{
    color_of, decoded, decoded_rest, dib_stage, header_stage, le16, le32, palette_stage,
    pixel_at, pixel_rest, pixel_stage, pixels_4bpp_stage, rest_after, row_stride, sample,
    section,
};
use crate::source::ByteSource;
use vstd::arithmetic::div_mod::lemma_fundamental_div_mod_converse;

verus! {

/// Reads the little-endian 16-bit integer at `b[at]`.
pub fn word(b: &Vec<u8>, at: usize) -> (value: u16)
    requires
        at + 2 <= b.len(),
    ensures
        value == le16(b@, at as int),
{
    let lo: u16 = b[at] as u16;
    let hi: u16 = b[at + 1] as u16;
    assert(lo | (hi << 8) == lo + 256 * hi) by (bit_vector)
        requires
            lo < 256,
            hi < 256,
    ;
    lo | (hi << 8)
}

/// Reads the little-endian 32-bit integer at `b[at]`.
pub fn dword(b: &Vec<u8>, at: usize) -> (value: u32)
    requires
        at + 4 <= b.len(),
    ensures
        value == le32(b@, at as int),
{
    let b0: u32 = b[at] as u32;
    let b1: u32 = b[at + 1] as u32;
    let b2: u32 = b[at + 2] as u32;
    let b3: u32 = b[at + 3] as u32;
    assert(b0 | (b1 << 8) | (b2 << 16) | (b3 << 24) == b0 + 256 * b1 + 65536 * b2 + 16777216
        * b3) by (bit_vector)
        requires
            b0 < 256,
            b1 < 256,
            b2 < 256,
            b3 < 256,
    ;
    b0 | (b1 << 8) | (b2 << 16) | (b3 << 24)
}

/// Bytes per stored row of `cols` four-bit pixels.
pub fn row_bytes(cols: usize) -> (stride: usize)
    ensures
        stride == row_stride(cols as nat),
{
    let bits: u128 = 4 * (cols as u128);
    (((bits + 31) / 32) * 4) as usize
}

/// The pixel that `byte` holds for column `col`.
pub fn nibble(byte: u8, col: usize) -> (pixel: usize)
    ensures
        pixel == sample(byte, col as int),
        pixel < 16,
{
    assert(byte >> 4 == byte / 16) by (bit_vector);
    assert(byte & 0x0f == byte % 16) by (bit_vector);
    if col % 2 == 0 {
        (byte >> 4) as usize
    } else {
        (byte & 0x0f) as usize
    }
}

impl Bitmap {
    /// Reads a section of exactly `ebytes` bytes. A source that has fewer
    /// left is used up and the read fails with
    /// [`LoadError::UnexpectedEof`], whichever section it was for.
    pub fn read_section(input: &mut ByteSource, ebytes: usize) -> (result: Result<
        Vec<u8>,
        LoadError,
    >)
        ensures
            match section(old(input)@, ebytes as int) {
                Ok(bytes) => result is Ok && result->Ok_0@ == bytes,
                Err(e) => result == Err::<Vec<u8>, LoadError>(e),
            },
            final(input)@ == rest_after(old(input)@, ebytes as int),
    {
        let buff = input.read(ebytes);
        if buff.len() != ebytes {
            Err(LoadError::UnexpectedEof)
        } else {
            Ok(buff)
        }
    }

    /// Reads the file header: 14 bytes that start with `B`, `M`.
    pub fn read_header(input: &mut ByteSource) -> (result: Result<Header, LoadError>)
        ensures
            result == header_stage(old(input)@),
            final(input)@ == rest_after(old(input)@, 14),
    {
        let buff = match Bitmap::read_section(input, 14) {
            Ok(buff) => buff,
            Err(e) => {
                return Err(e);
            },
        };
        if buff[0] != 0x42 || buff[1] != 0x4d {
            return Err(LoadError::BadMagic);
        }
        let size = dword(&buff, 2);
        let reserved = dword(&buff, 6);
        let offset = dword(&buff, 10);
        Ok(Header { size, reserved, offset })
    }

    /// Reads the info block: 40 bytes whose first field says 40. The bit
    /// depth is handed on as it stands, supported or not.
    pub fn read_dib(input: &mut ByteSource) -> (result: Result<Dib, LoadError>)
        ensures
            result == dib_stage(old(input)@),
            final(input)@ == rest_after(old(input)@, 40),
    {
        let buff = match Bitmap::read_section(input, 40) {
            Ok(buff) => buff,
            Err(e) => {
                return Err(e);
            },
        };
        if dword(&buff, 0) != 40 {
            return Err(LoadError::UnsupportedDib);
        }
        let width = dword(&buff, 4);
        let height = dword(&buff, 8);
        let planes = word(&buff, 12);
        let bpp = word(&buff, 14);
        let compression = dword(&buff, 16);
        let size = dword(&buff, 20);
        let ppm_x = dword(&buff, 24);
        let ppm_y = dword(&buff, 28);
        let colors = dword(&buff, 32);
        let imp_colors = dword(&buff, 36);
        Ok(
            Dib {
                width,
                height,
                planes,
                bpp,
                comp: compression,
                size,
                ppm_x,
                ppm_y,
                colors,
                imp_colors,
            },
        )
    }

    /// Reads a palette of `ncolors` entries, four bytes each, and keeps
    /// them in stream order. A palette of no entries reads nothing.
    pub fn read_color_table(input: &mut ByteSource, ncolors: usize) -> (result: Result<
        ColorTable,
        LoadError,
    >)
        ensures
            match palette_stage(old(input)@, ncolors as nat) {
                Ok(colors) => result is Ok && result->Ok_0@ == colors,
                Err(e) => result == Err::<ColorTable, LoadError>(e),
            },
            final(input)@ == rest_after(old(input)@, 4 * ncolors),
            ncolors == 0 ==> result is Ok && result->Ok_0@.len() == 0 && final(input)@ == old(
                input,
            )@,
    {
        let ebytes = match ncolors.checked_mul(4) {
            Some(ebytes) => ebytes,
            None => {
                input.drain();
                return Err(LoadError::UnexpectedEof);
            },
        };
        let buff = match Bitmap::read_section(input, ebytes) {
            Ok(buff) => buff,
            Err(e) => {
                return Err(e);
            },
        };
        let mut table = ColorTable::new();
        for i in 0..ncolors
            invariant
                buff.len() == 4 * ncolors,
                table@.len() == i,
                forall|k: int| 0 <= k < i ==> #[trigger] table@[k] == color_of(buff@, 4 * k),
        {
            let entry = dword(&buff, 4 * i);
            proof {
                lemma_entry_components(buff@, 4 * i);
            }
            table.push(Rgbx::from_u32(entry));
        }
        Ok(table)
    }

    /// Reads the pixels of a `cols` by `rows` image stored with `bpp` bits
    /// per pixel. Only a depth of 4 is decoded; any other is refused with
    /// [`LoadError::UnsupportedBpp`] before a byte is read.
    pub fn read_pixels(input: &mut ByteSource, cols: usize, rows: usize, bpp: u16) -> (result:
        Result<Pixels, LoadError>)
        ensures
            match pixel_stage(old(input)@, cols as nat, rows as nat, bpp) {
                Ok(pixels) => result is Ok && result->Ok_0@ == pixels,
                Err(e) => result == Err::<Pixels, LoadError>(e),
            },
            final(input)@ == pixel_rest(old(input)@, cols as nat, rows as nat, bpp),
    {
        match PixelFormat::from_bpp(bpp) {
            PixelFormat::Indexed4 => Bitmap::read_pixels_4bpp(input, cols, rows),
            PixelFormat::Unsupported => Err(LoadError::UnsupportedBpp),
        }
    }

    /// Reads `rows` rows of `cols` four-bit pixels. Each row takes
    /// `((4 * cols + 31) / 32) * 4` bytes; the bytes past its last pixel
    /// are padding. Rows are kept in the order in which they are stored.
    pub fn read_pixels_4bpp(input: &mut ByteSource, cols: usize, rows: usize) -> (result: Result<
        Pixels,
        LoadError,
    >)
        ensures
            match pixels_4bpp_stage(old(input)@, cols as nat, rows as nat) {
                Ok(pixels) => result is Ok && result->Ok_0@ == pixels,
                Err(e) => result == Err::<Pixels, LoadError>(e),
            },
            final(input)@ == rest_after(old(input)@, row_stride(cols as nat) * rows),
    {
        let rbytes = row_bytes(cols);
        let ebytes = match rbytes.checked_mul(rows) {
            Some(ebytes) => ebytes,
            None => {
                input.drain();
                return Err(LoadError::UnexpectedEof);
            },
        };
        let buff = match Bitmap::read_section(input, ebytes) {
            Ok(buff) => buff,
            Err(e) => {
                return Err(e);
            },
        };
        let mut pixels = Pixels::new();
        let mut row_start: usize = 0;
        assert(0 * rbytes == 0 && 0 * cols == 0);
        for r in 0..rows
            invariant
                rbytes == row_stride(cols as nat),
                buff.len() == rbytes * rows,
                row_start == r * rbytes,
                pixels@.len() == r * cols,
                forall|k: int|
                    0 <= k < pixels@.len() ==> #[trigger] pixels@[k] == pixel_at(
                        buff@,
                        cols as nat,
                        k / (cols as int),
                        k % (cols as int),
                    ),
        {
            assert((r + 1) * rbytes <= rbytes * rows) by (nonlinear_arith)
                requires
                    r + 1 <= rows,
            ;
            assert((r + 1) * rbytes == r * rbytes + rbytes) by (nonlinear_arith);
            assert((r + 1) * cols == r * cols + cols) by (nonlinear_arith);
            for c in 0..cols
                invariant
                    rbytes == row_stride(cols as nat),
                    row_start == r * rbytes,
                    row_start + rbytes <= buff.len(),
                    pixels@.len() == r * cols + c,
                    forall|k: int|
                        0 <= k < pixels@.len() ==> #[trigger] pixels@[k] == pixel_at(
                            buff@,
                            cols as nat,
                            k / (cols as int),
                            k % (cols as int),
                        ),
            {
                proof {
                    lemma_fundamental_div_mod_converse(
                        r * cols + c,
                        cols as int,
                        r as int,
                        c as int,
                    );
                }
                let b = buff[row_start + c / 2];
                pixels.push(nibble(b, c));
            }
            row_start = row_start + rbytes;
        }
        Ok(pixels)
    }

    /// Decodes a whole file: header, info block, palette and pixels, in
    /// that order and from one source. The first section that fails ends
    /// the decode with its error, and no part of an image is handed out.
    pub fn read(input: &mut ByteSource) -> (result: Result<Bitmap, LoadError>)
        ensures
            match decoded(old(input)@) {
                Ok(image) => result is Ok && result->Ok_0@ == image,
                Err(e) => result == Err::<Bitmap, LoadError>(e),
            },
            final(input)@ == decoded_rest(old(input)@),
            result is Ok ==> result->Ok_0@.well_formed(),
    {
        proof {
            if decoded(input@) is Ok {
                lemma_decoded_well_formed(input@);
            }
        }
        let hd = match Bitmap::read_header(input) {
            Ok(hd) => hd,
            Err(e) => {
                return Err(e);
            },
        };
        let dib = match Bitmap::read_dib(input) {
            Ok(dib) => dib,
            Err(e) => {
                return Err(e);
            },
        };
        let ct = match Bitmap::read_color_table(input, dib.colors as usize) {
            Ok(ct) => ct,
            Err(e) => {
                return Err(e);
            },
        };
        let pixels = match Bitmap::read_pixels(
            input,
            dib.width as usize,
            dib.height as usize,
            dib.bpp,
        ) {
            Ok(pixels) => pixels,
            Err(e) => {
                return Err(e);
            },
        };
        Ok(Bitmap { header: hd, dib, colors: ct, pixels })
    }
}

} // verus!
