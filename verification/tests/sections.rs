use bmp_decoder::reader::{dword, nibble, row_bytes, word};
use bmp_decoder::{Bitmap, ByteSource, Dib, Header, LoadError, PixelFormat, Rgbx};

#[test]
fn source_reads_forward_and_stops_at_the_end() {
    let mut source = ByteSource::new(vec![1, 2, 3, 4, 5]);
    assert_eq!(source.available(), 5);
    assert_eq!(source.read(2), vec![1, 2]);
    assert_eq!(source.available(), 3);
    assert_eq!(source.read(0), Vec::<u8>::new());
    assert_eq!(source.available(), 3);
    assert_eq!(source.read(7), vec![3, 4, 5]);
    assert_eq!(source.available(), 0);
    assert_eq!(source.read(1), Vec::<u8>::new());
}

#[test]
fn source_drain_discards_the_rest() {
    let mut source = ByteSource::new(vec![9, 8, 7, 6]);
    source.read(1);
    assert_eq!(source.drain(), 3);
    assert_eq!(source.available(), 0);
    assert_eq!(source.drain(), 0);
}

#[test]
fn section_of_exactly_the_bytes_left_succeeds() {
    let mut source = ByteSource::new(vec![10, 20, 30]);
    assert_eq!(Bitmap::read_section(&mut source, 3).unwrap(), vec![10, 20, 30]);
    assert_eq!(source.available(), 0);
    assert_eq!(Bitmap::read_section(&mut source, 0).unwrap(), Vec::<u8>::new());
}

#[test]
fn section_advances_by_its_length() {
    let mut source = ByteSource::new(vec![10, 20, 30, 40, 50]);
    assert_eq!(Bitmap::read_section(&mut source, 2).unwrap(), vec![10, 20]);
    assert_eq!(source.available(), 3);
    assert_eq!(Bitmap::read_section(&mut source, 2).unwrap(), vec![30, 40]);
    assert_eq!(source.available(), 1);
}

#[test]
fn section_that_comes_up_short_uses_up_the_source() {
    let mut source = ByteSource::new(vec![10, 20, 30]);
    assert_eq!(Bitmap::read_section(&mut source, 4).unwrap_err(), LoadError::UnexpectedEof);
    assert_eq!(source.available(), 0);

    let mut source = ByteSource::new(vec![10, 20, 30]);
    assert_eq!(
        Bitmap::read_section(&mut source, usize::MAX).unwrap_err(),
        LoadError::UnexpectedEof
    );
    assert_eq!(source.available(), 0);
}

#[test]
fn little_endian_integers() {
    let bytes = vec![0x78, 0x56, 0x34, 0x12, 0xff, 0xee];
    assert_eq!(dword(&bytes, 0), 0x1234_5678);
    assert_eq!(dword(&bytes, 2), 0xeeff_1234);
    assert_eq!(word(&bytes, 0), 0x5678);
    assert_eq!(word(&bytes, 4), 0xeeff);
    assert_eq!(dword(&vec![0xff, 0xff, 0xff, 0xff], 0), u32::MAX);
    assert_eq!(word(&vec![0xff, 0xff], 0), u16::MAX);
}

#[test]
fn header_fields() {
    let mut source = ByteSource::new(vec![
        0x42, 0x4d, 0x52, 0x00, 0x00, 0x00, 0x01, 0x02, 0x03, 0x04, 0x46, 0x00, 0x00, 0x80, 0xaa,
    ]);
    assert_eq!(
        Bitmap::read_header(&mut source).unwrap(),
        Header { size: 0x52, reserved: 0x0403_0201, offset: 0x8000_0046 }
    );
    assert_eq!(source.available(), 1);
}

#[test]
fn header_of_exactly_fourteen_bytes() {
    let mut source = ByteSource::new(vec![0x42, 0x4d, 0, 0, 0, 0, 0, 0, 0, 0, 0, 0, 0, 0]);
    assert_eq!(
        Bitmap::read_header(&mut source).unwrap(),
        Header { size: 0, reserved: 0, offset: 0 }
    );
    assert_eq!(source.available(), 0);
}

#[test]
fn header_failures() {
    let mut source = ByteSource::new(vec![0x42, 0x4d, 0, 0, 0, 0, 0, 0, 0, 0, 0, 0, 0]);
    assert_eq!(Bitmap::read_header(&mut source).unwrap_err(), LoadError::UnexpectedEof);
    assert_eq!(source.available(), 0);

    let mut source = ByteSource::new(vec![0x42, 0x4c, 0, 0, 0, 0, 0, 0, 0, 0, 0, 0, 0, 0, 7]);
    assert_eq!(Bitmap::read_header(&mut source).unwrap_err(), LoadError::BadMagic);
    assert_eq!(source.available(), 1);

    let mut source = ByteSource::new(vec![0x62, 0x6d, 0, 0, 0, 0, 0, 0, 0, 0, 0, 0, 0, 0]);
    assert_eq!(Bitmap::read_header(&mut source).unwrap_err(), LoadError::BadMagic);
}

fn info_block() -> Vec<u8> {
    vec![
        0x28, 0x00, 0x00, 0x00,
        0x03, 0x00, 0x00, 0x00,
        0x05, 0x00, 0x00, 0x00,
        0x01, 0x00,
        0x04, 0x00,
        0x07, 0x00, 0x00, 0x00,
        0x0c, 0x00, 0x00, 0x00,
        0x13, 0x0b, 0x00, 0x00,
        0x14, 0x0b, 0x00, 0x00,
        0x04, 0x00, 0x00, 0x00,
        0x02, 0x00, 0x00, 0x00,
    ]
}

#[test]
fn info_block_fields() {
    let mut bytes = info_block();
    bytes.push(0xee);
    let mut source = ByteSource::new(bytes);
    assert_eq!(
        Bitmap::read_dib(&mut source).unwrap(),
        Dib {
            width: 3,
            height: 5,
            planes: 1,
            bpp: 4,
            comp: 7,
            size: 12,
            ppm_x: 0x0b13,
            ppm_y: 0x0b14,
            colors: 4,
            imp_colors: 2,
        }
    );
    assert_eq!(source.available(), 1);
}

#[test]
fn info_block_hands_on_an_unsupported_bit_depth() {
    let mut bytes = info_block();
    bytes[14] = 24;
    let dib = Bitmap::read_dib(&mut ByteSource::new(bytes)).unwrap();
    assert_eq!(dib.bpp, 24);
    assert_eq!(dib.width, 3);
    assert_eq!(dib.height, 5);
    assert_eq!(dib.planes, 1);
}

#[test]
fn info_block_failures() {
    let mut bytes = info_block();
    bytes.truncate(39);
    let mut source = ByteSource::new(bytes);
    assert_eq!(Bitmap::read_dib(&mut source).unwrap_err(), LoadError::UnexpectedEof);
    assert_eq!(source.available(), 0);

    let mut bytes = info_block();
    bytes[0] = 0x7c;
    bytes.push(1);
    let mut source = ByteSource::new(bytes);
    assert_eq!(Bitmap::read_dib(&mut source).unwrap_err(), LoadError::UnsupportedDib);
    assert_eq!(source.available(), 1);

    let mut bytes = info_block();
    bytes[1] = 0x01;
    assert_eq!(
        Bitmap::read_dib(&mut ByteSource::new(bytes)).unwrap_err(),
        LoadError::UnsupportedDib
    );
}

#[test]
fn palette_components_come_in_stream_order() {
    assert_eq!(Rgbx::from_u32(0x0403_0201), Rgbx(1, 2, 3, 4));
    assert_eq!(Rgbx::from_u32(0x0000_00ff), Rgbx(255, 0, 0, 0));
    assert_eq!(Rgbx::from_u32(0xff00_0000), Rgbx(0, 0, 0, 255));
    assert_eq!(Rgbx::from_u32(0), Rgbx(0, 0, 0, 0));
    assert_eq!(Rgbx::from_u32(u32::MAX), Rgbx(255, 255, 255, 255));

    let mut source = ByteSource::new(vec![1, 2, 3, 4, 0xa0, 0xb0, 0xc0, 0xd0, 9]);
    assert_eq!(
        Bitmap::read_color_table(&mut source, 2).unwrap(),
        vec![Rgbx(1, 2, 3, 4), Rgbx(0xa0, 0xb0, 0xc0, 0xd0)]
    );
    assert_eq!(source.available(), 1);
}

#[test]
fn empty_palette_reads_nothing() {
    let mut source = ByteSource::new(vec![1, 2, 3]);
    assert_eq!(Bitmap::read_color_table(&mut source, 0).unwrap(), Vec::<Rgbx>::new());
    assert_eq!(source.available(), 3);

    let mut source = ByteSource::new(vec![]);
    assert_eq!(Bitmap::read_color_table(&mut source, 0).unwrap(), Vec::<Rgbx>::new());
    assert_eq!(source.available(), 0);
}

#[test]
fn short_palette() {
    let mut source = ByteSource::new(vec![1, 2, 3, 4, 5, 6, 7]);
    assert_eq!(
        Bitmap::read_color_table(&mut source, 2).unwrap_err(),
        LoadError::UnexpectedEof
    );
    assert_eq!(source.available(), 0);

    let mut source = ByteSource::new(vec![1, 2, 3, 4, 5, 6, 7, 8]);
    assert_eq!(
        Bitmap::read_color_table(&mut source, usize::MAX).unwrap_err(),
        LoadError::UnexpectedEof
    );
    assert_eq!(source.available(), 0);
}

#[test]
fn row_stride_is_padded_to_four_bytes() {
    assert_eq!(row_bytes(3), 4);
    assert_eq!(row_bytes(8), 4);
    assert_eq!(row_bytes(9), 8);
    assert_eq!(row_bytes(0), 0);
    assert_eq!(row_bytes(1), 4);
    assert_eq!(row_bytes(7), 4);
    assert_eq!(row_bytes(16), 8);
    assert_eq!(row_bytes(17), 12);
    assert_eq!(row_bytes(0xffff_ffff), 0x8000_0000);
    assert_eq!(row_bytes(usize::MAX), usize::MAX / 8 * 4 + 4);
}

#[test]
fn high_nibble_for_even_columns_low_nibble_for_odd_ones() {
    assert_eq!(nibble(0x13, 0), 1);
    assert_eq!(nibble(0x13, 1), 3);
    assert_eq!(nibble(0x20, 2), 2);
    assert_eq!(nibble(0xf0, 4), 15);
    assert_eq!(nibble(0xf0, 5), 0);
    assert_eq!(nibble(0xab, usize::MAX), 0x0b);
}

#[test]
fn nibbles_of_one_row() {
    let mut source = ByteSource::new(vec![0x13, 0x20, 0x00, 0x00]);
    assert_eq!(Bitmap::read_pixels_4bpp(&mut source, 3, 1).unwrap(), vec![1, 3, 2]);
    assert_eq!(source.available(), 0);
}

#[test]
fn padding_bytes_are_skipped_between_rows() {
    // nine pixels a row: five bytes of pixels, three of padding
    let mut source = ByteSource::new(vec![
        0x01, 0x23, 0x45, 0x67, 0x8f, 0xff, 0xff, 0xff,
        0xfe, 0xdc, 0xba, 0x98, 0x7f, 0xff, 0xff, 0xff,
        0x55,
    ]);
    assert_eq!(
        Bitmap::read_pixels_4bpp(&mut source, 9, 2).unwrap(),
        vec![0, 1, 2, 3, 4, 5, 6, 7, 8, 15, 14, 13, 12, 11, 10, 9, 8, 7]
    );
    assert_eq!(source.available(), 1);
}

#[test]
fn a_full_word_row_has_no_padding() {
    let mut source = ByteSource::new(vec![
        0x01, 0x23, 0x45, 0x67,
        0x89, 0xab, 0xcd, 0xef,
    ]);
    assert_eq!(
        Bitmap::read_pixels_4bpp(&mut source, 8, 2).unwrap(),
        vec![0, 1, 2, 3, 4, 5, 6, 7, 8, 9, 10, 11, 12, 13, 14, 15]
    );
    assert_eq!(source.available(), 0);
}

#[test]
fn short_pixel_rows() {
    let mut source = ByteSource::new(vec![0x13, 0x20, 0x00, 0x00, 0x30, 0x30, 0x00]);
    assert_eq!(
        Bitmap::read_pixels_4bpp(&mut source, 3, 2).unwrap_err(),
        LoadError::UnexpectedEof
    );
    assert_eq!(source.available(), 0);

    let mut source = ByteSource::new(vec![0x13, 0x20, 0x00, 0x00]);
    assert_eq!(
        Bitmap::read_pixels_4bpp(&mut source, usize::MAX, usize::MAX).unwrap_err(),
        LoadError::UnexpectedEof
    );
    assert_eq!(source.available(), 0);
}

#[test]
fn empty_grids_read_nothing() {
    let mut source = ByteSource::new(vec![0x13]);
    assert_eq!(Bitmap::read_pixels_4bpp(&mut source, 0, 5).unwrap(), Vec::<usize>::new());
    assert_eq!(Bitmap::read_pixels_4bpp(&mut source, 5, 0).unwrap(), Vec::<usize>::new());
    assert_eq!(Bitmap::read_pixels_4bpp(&mut source, usize::MAX, 0).unwrap(), Vec::<usize>::new());
    assert_eq!(source.available(), 1);
}

#[test]
fn pixel_reader_dispatches_on_the_bit_depth() {
    let mut source = ByteSource::new(vec![0x13, 0x20, 0x00, 0x00]);
    assert_eq!(Bitmap::read_pixels(&mut source, 3, 1, 4).unwrap(), vec![1, 3, 2]);
    assert_eq!(source.available(), 0);

    for bpp in [0u16, 1, 2, 8, 16, 24, 32, 0x0400] {
        let mut source = ByteSource::new(vec![0x13, 0x20, 0x00, 0x00]);
        assert_eq!(
            Bitmap::read_pixels(&mut source, 3, 1, bpp).unwrap_err(),
            LoadError::UnsupportedBpp
        );
        // refused before a byte is read
        assert_eq!(source.available(), 4);
    }
}

#[test]
fn pixel_formats() {
    assert_eq!(PixelFormat::from_bpp(4), PixelFormat::Indexed4);
    assert_eq!(PixelFormat::from_bpp(0), PixelFormat::Unsupported);
    assert_eq!(PixelFormat::from_bpp(1), PixelFormat::Unsupported);
    assert_eq!(PixelFormat::from_bpp(8), PixelFormat::Unsupported);
    assert_eq!(PixelFormat::from_bpp(24), PixelFormat::Unsupported);
}
