//! What holds of the format for every input.

use vstd::prelude::*;
use crate::error::LoadError;
use crate::image::{BitmapView, Dib, Header, Rgbx};
use crate::layout::{
    color_of, decoded, decoded_rest, declared_colors, declared_height, declared_width, dib_of,
    dib_stage, encoded_len, has_magic, header_of, header_stage, image_at, le16, le32,
    palette_of, palette_stage, pixel_at, pixel_bytes, pixel_rest, pixel_stage, pixel_start,
    pixels_of, rest_after, row_stride, sample, section, well_encoded,
};
use vstd::arithmetic::div_mod::lemma_fundamental_div_mod_converse;

verus! {

/// A palette entry read as a little-endian integer and split again gives
/// back the four stored bytes, in the order in which they are stored.
pub proof fn lemma_entry_components(b: Seq<u8>, at: int)
    ensures
        Rgbx::of_word(le32(b, at)) == color_of(b, at),
{
    let b0 = b[at] as u32;
    let b1 = b[at + 1] as u32;
    let b2 = b[at + 2] as u32;
    let b3 = b[at + 3] as u32;
    let n = le32(b, at);
    assert(n == b0 + 256 * b1 + 65536 * b2 + 16777216 * b3);
    assert(n % 256 == b0 && (n / 256) % 256 == b1 && (n / 65536) % 256 == b2 && n / 16777216
        == b3) by (bit_vector)
        requires
            b0 < 256,
            b1 < 256,
            b2 < 256,
            b3 < 256,
            n == b0 + 256 * b1 + 65536 * b2 + 16777216 * b3,
    ;
}

/// A row is padded to the next multiple of four bytes: the stride is the
/// least multiple of four that holds `cols` half-bytes.
pub proof fn lemma_row_stride_pads(cols: nat)
    ensures
        row_stride(cols) % 4 == 0,
        2 * row_stride(cols) >= cols,
        2 * row_stride(cols) < cols + 8,
{
}

/// Every pixel of a row lies in that row's bytes, and every row of the
/// grid lies in the pixel section.
pub proof fn lemma_pixel_byte_in_section(cols: nat, rows: nat, r: int, c: int)
    requires
        0 <= r < rows,
        0 <= c < cols,
    ensures
        c / 2 < row_stride(cols),
        0 <= r * row_stride(cols) + c / 2 < pixel_bytes(cols, rows),
{
    let stride = row_stride(cols) as int;
    assert(r * stride + stride <= stride * rows) by (nonlinear_arith)
        requires
            0 <= r < rows,
            0 <= stride,
    ;
    assert(0 <= r * stride) by (nonlinear_arith)
        requires
            0 <= r,
            0 <= stride,
    ;
}

/// Position `r * cols + c` of the grid is row `r`, column `c`.
pub proof fn lemma_pixel_position(b: Seq<u8>, cols: nat, rows: nat, r: int, c: int)
    requires
        0 <= r < rows,
        0 <= c < cols,
    ensures
        0 <= r * cols + c < pixels_of(b, cols, rows).len(),
        pixels_of(b, cols, rows)[r * cols + c] == pixel_at(b, cols, r, c),
        pixel_at(b, cols, r, c) == sample(b[r * row_stride(cols) + c / 2], c),
        pixel_at(b, cols, r, c) < 16,
{
    lemma_fundamental_div_mod_converse(r * cols + c, cols as int, r, c);
    assert(r * cols + cols <= rows * cols) by (nonlinear_arith)
        requires
            0 <= r < rows,
            0 <= cols,
    ;
    assert(0 <= r * cols) by (nonlinear_arith)
        requires
            0 <= r,
            0 <= cols,
    ;
}

/// Only the bytes of a pixel section count, not what follows them.
pub proof fn lemma_pixels_ignore_tail(b: Seq<u8>, cols: nat, rows: nat)
    requires
        pixel_bytes(cols, rows) <= b.len(),
    ensures
        pixels_of(b.take(pixel_bytes(cols, rows) as int), cols, rows) == pixels_of(b, cols, rows),
{
    let cut = b.take(pixel_bytes(cols, rows) as int);
    assert forall|i: int| 0 <= i < rows * cols implies #[trigger] pixels_of(cut, cols, rows)[i]
        == pixels_of(b, cols, rows)[i] by {
        let r = i / (cols as int);
        let c = i % (cols as int);
        assert(cols > 0) by (nonlinear_arith)
            requires
                0 <= i < rows * cols,
        ;
        assert(0 <= r < rows) by (nonlinear_arith)
            requires
                0 <= i < rows * cols,
                cols > 0,
                r == i / (cols as int),
        ;
        lemma_pixel_byte_in_section(cols, rows, r, c);
    }
    assert(pixels_of(cut, cols, rows) =~= pixels_of(b, cols, rows));
}

/// A decode succeeds on the well-encoded inputs and on no others. On
/// those it yields the image found at the fixed offsets of the format
/// and leaves the source just behind the last pixel row.
pub proof fn lemma_decoded_iff_well_encoded(s: Seq<u8>)
    ensures
        decoded(s) is Ok <==> well_encoded(s),
        well_encoded(s) ==> decoded(s) == Ok::<BitmapView, LoadError>(image_at(s)),
        well_encoded(s) ==> decoded_rest(s) == s.skip(encoded_len(s) as int),
{
    if s.len() >= 54 {
        let head = s.take(14);
        assert(header_of(head) == header_of(s));
        let block = s.skip(14).take(40);
        assert(dib_of(block) == dib_of(s.skip(14)));
        assert(s.skip(14).skip(40) =~= s.skip(54));
        let ncolors = declared_colors(s);
        assert(ncolors == dib_of(block).colors);
        let start = pixel_start(s) as int;
        if start <= s.len() {
            let table = s.skip(54).take(start - 54);
            assert(palette_of(table, ncolors) =~= palette_of(s.skip(54), ncolors));
            assert(s.skip(54).skip(start - 54) =~= s.skip(start));
            let cols = declared_width(s);
            let rows = declared_height(s);
            let grid = s.skip(start);
            if pixel_bytes(cols, rows) <= grid.len() {
                lemma_pixels_ignore_tail(grid, cols, rows);
                assert(grid.skip(pixel_bytes(cols, rows) as int) =~= s.skip(
                    encoded_len(s) as int,
                ));
            }
        }
    }
}

/// Every field of a well-encoded file sits at a fixed offset from the
/// start of the file, palette entry `i` is the four bytes from offset
/// `54 + 4 * i`, and the pixel in row `r`, column `c` is half of the byte
/// at offset `r * stride + c / 2` behind the palette.
pub proof fn lemma_file_offsets(s: Seq<u8>)
    requires
        well_encoded(s),
    ensures
        ({
            let image = image_at(s);
            &&& image.header.size == le32(s, 2)
            &&& image.header.reserved == le32(s, 6)
            &&& image.header.offset == le32(s, 10)
            &&& image.dib.width == le32(s, 18)
            &&& image.dib.height == le32(s, 22)
            &&& image.dib.planes == le16(s, 26)
            &&& image.dib.bpp == le16(s, 28)
            &&& image.dib.comp == le32(s, 30)
            &&& image.dib.size == le32(s, 34)
            &&& image.dib.ppm_x == le32(s, 38)
            &&& image.dib.ppm_y == le32(s, 42)
            &&& image.dib.colors == le32(s, 46)
            &&& image.dib.imp_colors == le32(s, 50)
            &&& image.colors.len() == image.dib.colors
            &&& forall|i: int|
                0 <= i < image.dib.colors ==> #[trigger] image.colors[i] == color_of(
                    s,
                    54 + 4 * i,
                )
            &&& image.pixels.len() == declared_height(s) * declared_width(s)
            &&& forall|r: int, c: int|
                0 <= r < declared_height(s) && 0 <= c < declared_width(s)
                    ==> #[trigger] image.pixels[r * declared_width(s) + c] == sample(
                    s[pixel_start(s) + r * row_stride(declared_width(s)) + c / 2],
                    c,
                )
        }),
{
    let image = image_at(s);
    let grid = s.skip(pixel_start(s) as int);
    assert forall|r: int, c: int|
        0 <= r < declared_height(s) && 0 <= c < declared_width(s)
        implies #[trigger] image.pixels[r * declared_width(s) + c] == sample(
        s[pixel_start(s) + r * row_stride(declared_width(s)) + c / 2],
        c,
    ) by {
        lemma_pixel_position(grid, declared_width(s), declared_height(s), r, c);
        lemma_pixel_byte_in_section(declared_width(s), declared_height(s), r, c);
    }
}

/// An input of at least 14 bytes that does not start with `B`, `M` is
/// refused for its magic number, whatever else it holds, and the decode
/// ends behind the header.
pub proof fn lemma_bad_magic(s: Seq<u8>)
    requires
        s.len() >= 14,
        !has_magic(s),
    ensures
        decoded(s) == Err::<BitmapView, LoadError>(LoadError::BadMagic),
        decoded_rest(s) == s.skip(14),
{
}

/// An info block that declares any length but 40 is refused, whatever
/// its other fields hold, and the decode ends behind the info block.
pub proof fn lemma_dib_length_gate(s: Seq<u8>)
    requires
        s.len() >= 54,
        has_magic(s),
        le32(s, 14) != 40,
    ensures
        decoded(s) == Err::<BitmapView, LoadError>(LoadError::UnsupportedDib),
        decoded_rest(s) == s.skip(54),
{
    assert(s.skip(14).skip(40) =~= s.skip(54));
}

/// The bit depth is judged only when the palette has been read: with a
/// depth other than 4 the decode fails for the depth if the declared
/// palette is all there, and ends behind it; if the palette is cut short,
/// it fails for that instead.
pub proof fn lemma_bit_depth_gate(s: Seq<u8>)
    requires
        s.len() >= 54,
        has_magic(s),
        le32(s, 14) == 40,
        le16(s, 28) != 4,
    ensures
        pixel_start(s) <= s.len() ==> decoded(s) == Err::<BitmapView, LoadError>(
            LoadError::UnsupportedBpp,
        ) && decoded_rest(s) == s.skip(pixel_start(s) as int),
        pixel_start(s) > s.len() ==> decoded(s) == Err::<BitmapView, LoadError>(
            LoadError::UnexpectedEof,
        ),
{
    let start = pixel_start(s) as int;
    assert(s.skip(14).skip(40) =~= s.skip(54));
    if start <= s.len() {
        assert(s.skip(54).skip(start - 54) =~= s.skip(start));
    }
}

/// A palette of no entries is read in full from any source, and reading
/// it takes nothing from the source.
pub proof fn lemma_empty_palette(s: Seq<u8>)
    ensures
        palette_stage(s, 0) == Ok::<Seq<Rgbx>, LoadError>(Seq::empty()),
        rest_after(s, 0) == s,
{
    assert(palette_of(s.take(0), 0) =~= Seq::<Rgbx>::empty());
}

/// A section read from the first `k` bytes of `s` comes up short exactly
/// when it reaches past them; otherwise the bytes behind `k` make no
/// difference to it.
pub proof fn lemma_section_of_prefix(s: Seq<u8>, n: int, k: int)
    requires
        0 <= n,
        0 <= k <= s.len(),
    ensures
        k < n ==> section(s.take(k), n) == Err::<Seq<u8>, LoadError>(LoadError::UnexpectedEof),
        k < n ==> rest_after(s.take(k), n) == Seq::<u8>::empty(),
        n <= k ==> section(s.take(k), n) == section(s, n),
        n <= k ==> rest_after(s.take(k), n) == rest_after(s, n).take(k - n),
{
    if n <= k {
        assert(s.take(k).take(n) =~= s.take(n));
        assert(s.take(k).skip(n) =~= s.skip(n).take(k - n));
    }
}

/// A well-encoded input cut off after `n` bytes: a section that the cut
/// does not precede fails for want of bytes exactly when the cut lies
/// before the section's end, and a section that ends at the cut or before
/// it is read as from the whole input.
pub proof fn lemma_truncation_by_section(s: Seq<u8>, n: int)
    requires
        well_encoded(s),
        0 <= n <= s.len(),
    ensures
        ({
            let t = s.take(n);
            let t1 = rest_after(t, 14);
            let t2 = rest_after(t1, 40);
            let t3 = rest_after(t2, pixel_start(s) - 54);
            let eof = LoadError::UnexpectedEof;
            &&& header_stage(t) == if n < 14 {
                Err::<Header, LoadError>(eof)
            } else {
                header_stage(s)
            }
            &&& n >= 14 ==> dib_stage(t1) == if n < 54 {
                Err::<Dib, LoadError>(eof)
            } else {
                dib_stage(s.skip(14))
            }
            &&& n >= 54 ==> palette_stage(t2, declared_colors(s)) == if n < pixel_start(s) {
                Err::<Seq<Rgbx>, LoadError>(eof)
            } else {
                palette_stage(s.skip(54), declared_colors(s))
            }
            &&& n >= pixel_start(s) ==> pixel_stage(
                t3,
                declared_width(s),
                declared_height(s),
                4,
            ) == if n < encoded_len(s) {
                Err::<Seq<usize>, LoadError>(eof)
            } else {
                pixel_stage(
                    s.skip(pixel_start(s) as int),
                    declared_width(s),
                    declared_height(s),
                    4,
                )
            }
        }),
{
    let start = pixel_start(s) as int;
    let end = encoded_len(s) as int;
    let t = s.take(n);
    lemma_section_of_prefix(s, 14, n);
    if n >= 14 {
        let s1 = s.skip(14);
        assert(rest_after(t, 14) == s1.take(n - 14));
        lemma_section_of_prefix(s1, 40, n - 14);
        if n >= 54 {
            let s2 = s.skip(54);
            assert(s1.skip(40) =~= s2);
            assert(rest_after(s1.take(n - 14), 40) == s2.take(n - 54));
            lemma_section_of_prefix(s2, start - 54, n - 54);
            if n >= start {
                let s3 = s.skip(start);
                assert(s2.skip(start - 54) =~= s3);
                assert(rest_after(s2.take(n - 54), start - 54) == s3.take(n - start));
                lemma_section_of_prefix(s3, end - start, n - start);
            }
        }
    }
}

/// Cutting a well-encoded input short anywhere before its end makes the
/// decode fail for want of bytes, and with no other error; what follows
/// the end of the file makes no difference to the decode.
pub proof fn lemma_truncation(s: Seq<u8>, n: int)
    requires
        well_encoded(s),
        0 <= n <= s.len(),
    ensures
        n < encoded_len(s) ==> decoded(s.take(n)) == Err::<BitmapView, LoadError>(
            LoadError::UnexpectedEof,
        ),
        n >= encoded_len(s) ==> decoded(s.take(n)) == decoded(s),
{
    lemma_truncation_by_section(s, n);
    lemma_decoded_iff_well_encoded(s);
    let t = s.take(n);
    if n >= 54 {
        assert(s.skip(14).skip(40) =~= s.skip(54));
        assert(t.skip(14).skip(40) =~= t.skip(54));
        assert(dib_of(t.skip(14).take(40)) == dib_of(s.skip(14).take(40)));
    }
    if n >= encoded_len(s) {
        lemma_decoded_iff_well_encoded(t);
        assert(well_encoded(t));
        let start = pixel_start(s) as int;
        assert(dib_of(t.skip(14)) == dib_of(s.skip(14)));
        assert(palette_of(t.skip(54), declared_colors(s)) =~= palette_of(
            s.skip(54),
            declared_colors(s),
        ));
        let cols = declared_width(s);
        let rows = declared_height(s);
        lemma_pixels_ignore_tail(s.skip(start), cols, rows);
        lemma_pixels_ignore_tail(t.skip(start), cols, rows);
        assert(t.skip(start).take(pixel_bytes(cols, rows) as int) =~= s.skip(start).take(
            pixel_bytes(cols, rows) as int,
        ));
    }
}

/// What a successful decode yields is well formed: the palette has the
/// declared number of entries, the grid has `width * height` pixels, and
/// every pixel is a four-bit value.
pub proof fn lemma_decoded_well_formed(s: Seq<u8>)
    requires
        decoded(s) is Ok,
    ensures
        decoded(s)->Ok_0.well_formed(),
{
    lemma_decoded_iff_well_encoded(s);
    let image = image_at(s);
    assert(image.dib.width == declared_width(s));
    assert(image.dib.height == declared_height(s));
    assert(image.dib.colors == declared_colors(s));
    assert(image.pixels.len() == image.dib.height * image.dib.width);
    assert(image.dib.height * image.dib.width == image.dib.width * image.dib.height)
        by (nonlinear_arith);
}

/// A decode from memory never fails for a fault of the stream itself.
pub proof fn lemma_no_stream_fault(s: Seq<u8>)
    ensures
        !(decoded(s) matches Err(LoadError::Io(_))),
{
}

/// The decode only moves forward: what it leaves is a tail of what it
/// found.
pub proof fn lemma_forward_only(s: Seq<u8>)
    ensures
        decoded_rest(s).len() <= s.len(),
        decoded_rest(s) == s.skip(s.len() - decoded_rest(s).len()),
{
    let s1 = rest_after(s, 14);
    let s2 = rest_after(s1, 40);
    assert(s1 =~= s.skip(s.len() - s1.len()));
    assert(s2 =~= s.skip(s.len() - s2.len()));
    if dib_stage(s1) is Ok {
        let dib = dib_stage(s1)->Ok_0;
        let s3 = rest_after(s2, 4 * dib.colors);
        assert(s3 =~= s.skip(s.len() - s3.len()));
        let s4 = pixel_rest(s3, dib.width as nat, dib.height as nat, dib.bpp);
        assert(s4 =~= s.skip(s.len() - s4.len()));
    }
}

} // verus!
