use bmp_reader::bmp_header::{mask_is_contiguous, BMPError, BMPHeader, BMPVersion, CompressionType};
use bmp_reader::bmp_pixels::{upscale, Pixel, PalletePixel, Pixels};
use bmp_reader::source::{ByteSource, StreamError};
use bmp_reader::BMPReader;

fn put16(v: &mut Vec<u8>, x: u16) {
    v.extend_from_slice(&x.to_le_bytes());
}

fn put32(v: &mut Vec<u8>, x: u32) {
    v.extend_from_slice(&x.to_le_bytes());
}

/// File header and a 40-byte info header.
fn info_header(width: i32, height: i32, bpp: u16, compression: u32, n_colors: u32, offset: u32) -> Vec<u8> {
    let mut v = vec![b'B', b'M'];
    put32(&mut v, 0);
    put32(&mut v, 0);
    put32(&mut v, offset);
    put32(&mut v, 40);
    put32(&mut v, width as u32);
    put32(&mut v, height as u32);
    put16(&mut v, 1);
    put16(&mut v, bpp);
    put32(&mut v, compression);
    put32(&mut v, 0);
    put32(&mut v, 0);
    put32(&mut v, 0);
    put32(&mut v, n_colors);
    put32(&mut v, 0);
    v
}

fn open_err(data: Vec<u8>) -> BMPError {
    match Pixels::new(ByteSource::new(data)) {
        Ok(_) => panic!("expected an error"),
        Err(e) => e,
    }
}

fn palette_len(p: &Pixels) -> usize {
    match p {
        Pixels::OneBPP(pal, _) | Pixels::TwoBPP(pal, _) | Pixels::FourBPP(pal, _) | Pixels::EightBPP(pal, _) => {
            pal.len()
        }
        _ => 0,
    }
}

fn opaque(r: u8, g: u8, b: u8) -> Pixel {
    Pixel {
        red: r as u32 * 0x0101_0101,
        green: g as u32 * 0x0101_0101,
        blue: b as u32 * 0x0101_0101,
        alpha: 0xffff_ffff,
    }
}

#[test]
fn contiguous_masks() {
    assert!(mask_is_contiguous(0x0000_ffff));
    assert!(mask_is_contiguous(0xff00_0000));
    assert!(mask_is_contiguous(0x0000_0000));
    assert!(mask_is_contiguous(0xffff_ffff));
    assert!(!mask_is_contiguous(0x00ff_00ff));
    assert!(!mask_is_contiguous(0x8000_0001));
}

#[test]
fn set_masks_checks_runs_and_overlap() {
    let mut h = BMPHeader::new(BMPVersion::Three, 1, 1, 1, 32, 0, 0).unwrap();
    assert_eq!(
        h.set_masks(0x00ff_00ff, 0, 0, 0),
        Err(BMPError::BitfieldsNotContiguous(0x00ff_00ff, 0, 0, 0))
    );
    assert_eq!(
        h.set_masks(0x0000_ffff, 0x0000_ff00, 0, 0),
        Err(BMPError::BitfieldsOverlap(0x0000_ffff, 0x0000_ff00, 0, 0))
    );
    assert_eq!(h.set_masks(0x0000_ffff, 0xff00_0000, 0, 0), Ok(()));
    assert_eq!(h.red_mask, 0x0000_ffff);
    assert_eq!(h.green_mask, 0xff00_0000);
    let mut h8 = BMPHeader::new(BMPVersion::Three, 1, 1, 1, 8, 0, 0).unwrap();
    assert_eq!(h8.set_masks(0xff, 0, 0, 0), Err(BMPError::BitfieldsNotSupportedForPixelDepth(8)));
}

#[test]
fn header_size_dispatch() {
    assert_eq!(BMPVersion::from_dib_header_size(12), Ok(BMPVersion::Two));
    assert_eq!(BMPVersion::from_dib_header_size(40), Ok(BMPVersion::Three));
    assert_eq!(BMPVersion::from_dib_header_size(108), Ok(BMPVersion::Four));
    assert_eq!(BMPVersion::from_dib_header_size(124), Ok(BMPVersion::Five));
    assert_eq!(BMPVersion::from_dib_header_size(56), Err(BMPError::UnsupportedHeaderSize(56)));
    assert_eq!(CompressionType::from_u32(3), Ok(CompressionType::Bitfields));
    assert_eq!(CompressionType::from_u32(1), Err(BMPError::UnsupportedCompressionType(1)));
}

#[test]
fn header_new_validates_and_reconciles() {
    assert_eq!(BMPHeader::new(BMPVersion::Three, 0, 1, 1, 8, 0, 0), Err(BMPError::InvalidWidth(0)));
    assert_eq!(BMPHeader::new(BMPVersion::Three, 1, 0, 1, 8, 0, 0), Err(BMPError::InvalidHeight(0)));
    assert_eq!(BMPHeader::new(BMPVersion::Three, 1, 1, 2, 8, 0, 0), Err(BMPError::UnsupportedNumberOfPlanes(2)));
    assert_eq!(BMPHeader::new(BMPVersion::Three, 1, 1, 1, 4, 0, 0).unwrap().n_colors, 16);
    assert_eq!(BMPHeader::new(BMPVersion::Three, 1, 1, 1, 8, 300, 0).unwrap().n_colors, 256);
    assert_eq!(BMPHeader::new(BMPVersion::Three, 1, 1, 1, 8, 5, 0).unwrap().n_colors, 5);
    let h16 = BMPHeader::new(BMPVersion::Three, 1, -1, 1, 16, 0, 0).unwrap();
    assert_eq!((h16.red_mask, h16.green_mask, h16.blue_mask, h16.alpha_mask), (0x7c00, 0x03e0, 0x001f, 0));
    let h32 = BMPHeader::new(BMPVersion::Three, 1, 1, 1, 32, 0, 0).unwrap();
    assert_eq!((h32.red_mask, h32.green_mask, h32.blue_mask), (0x00ff_0000, 0x0000_ff00, 0x0000_00ff));
}

#[test]
fn palette_reconciliation() {
    let mut four = info_header(1, 1, 4, 0, 0, 54 + 64);
    four.extend(vec![0u8; 64 + 4]);
    let (p, _, _) = Pixels::new(ByteSource::new(four)).unwrap();
    assert_eq!(palette_len(&p), 16);

    let mut eight = info_header(1, 1, 8, 0, 300, 54 + 1024);
    eight.extend(vec![0u8; 1024 + 4]);
    let (p, _, _) = Pixels::new(ByteSource::new(eight)).unwrap();
    assert_eq!(palette_len(&p), 256);
}

#[test]
fn end_to_end_top_down_24_bit() {
    let mut data = info_header(2, -2, 24, 0, 0, 54);
    data.extend_from_slice(&[1, 2, 3, 4, 5, 6, 0, 0]);
    data.extend_from_slice(&[7, 8, 9, 10, 11, 12, 0, 0]);
    let mut reader = BMPReader::new(data).unwrap();
    assert_eq!(reader.get_width(), 2);
    assert_eq!(reader.get_height(), 2);
    let mut seen = Vec::new();
    while let Some((x, y, px)) = reader.next() {
        seen.push((x, y, px.unwrap()));
    }
    assert_eq!(
        seen,
        vec![
            (0, 1, opaque(3, 2, 1)),
            (1, 1, opaque(6, 5, 4)),
            (0, 0, opaque(9, 8, 7)),
            (1, 0, opaque(12, 11, 10)),
        ]
    );
    assert!(reader.next().is_none());
}

#[test]
fn row_padding_counts_from_the_pixel_array_start() {
    for offset in [54u32, 55, 56, 57] {
        let mut data = info_header(2, 2, 24, 0, 0, offset);
        data.extend(vec![0xee; offset as usize - 54]);
        data.extend_from_slice(&[1, 2, 3, 4, 5, 6, 0xaa, 0xbb]);
        data.extend_from_slice(&[7, 8, 9, 10, 11, 12, 0xcc, 0xdd]);
        let mut reader = BMPReader::new(data).unwrap();
        let mut seen = Vec::new();
        while let Some((x, y, px)) = reader.next() {
            seen.push((x, y, px.unwrap()));
        }
        assert_eq!(
            seen,
            vec![
                (0, 0, opaque(3, 2, 1)),
                (1, 0, opaque(6, 5, 4)),
                (0, 1, opaque(9, 8, 7)),
                (1, 1, opaque(12, 11, 10)),
            ]
        );
    }
}

#[test]
fn signature_failure_stops_after_two_bytes() {
    let mut src = ByteSource::new(vec![0x42, 0x41, 0, 0, 0, 0, 0, 0, 0, 0, 0, 0, 0, 0, 0, 0]);
    assert_eq!(BMPHeader::from_buffer(&mut src), Err(BMPError::WrongMagicNumbers(0x42, 0x41)));
    assert_eq!(src.position(), 2);
}

#[test]
fn bottom_up_rows_keep_stored_order() {
    let mut data = info_header(1, 2, 24, 0, 0, 56);
    data.extend_from_slice(&[0, 0]);
    data.extend_from_slice(&[1, 2, 3, 0]);
    data.extend_from_slice(&[4, 5, 6, 0]);
    let mut reader = BMPReader::new(data).unwrap();
    let (col_a, row_a, px_a) = reader.next().unwrap();
    let (col_b, row_b, px_b) = reader.next().unwrap();
    assert_eq!((col_a, row_a, px_a.unwrap()), (0, 0, opaque(3, 2, 1)));
    assert_eq!((col_b, row_b, px_b.unwrap()), (0, 1, opaque(6, 5, 4)));
    assert!(reader.next().is_none());
}

#[test]
fn header_larger_than_pixel_offset() {
    let mut data = info_header(1, 1, 24, 0, 0, 10);
    data.extend_from_slice(&[0, 0, 0, 0]);
    assert_eq!(open_err(data), BMPError::HeaderTooLarge(54, 10));
}

#[test]
fn header_errors() {
    assert_eq!(open_err(vec![b'X', b'M', 0, 0]), BMPError::WrongMagicNumbers(b'X', b'M'));
    let mut bad_size = info_header(1, 1, 24, 0, 0, 54);
    bad_size[14] = 41;
    assert_eq!(open_err(bad_size), BMPError::UnsupportedHeaderSize(41));
    let mut planes = info_header(1, 1, 24, 0, 0, 54);
    planes[26] = 3;
    assert_eq!(open_err(planes), BMPError::UnsupportedNumberOfPlanes(3));
    assert_eq!(open_err(info_header(1, 1, 24, 1, 0, 54)), BMPError::UnsupportedCompressionType(1));
    assert_eq!(open_err(info_header(1, 1, 3, 0, 2, 62)), BMPError::UnsupportedBitsPerPixel(3));
    let mut bf24 = info_header(1, 1, 24, 3, 0, 66);
    bf24.extend(vec![0u8; 12]);
    assert_eq!(open_err(bf24), BMPError::BitfieldsNotSupportedForPixelDepth(24));
    assert_eq!(open_err(info_header(0, 1, 24, 0, 0, 54)), BMPError::InvalidWidth(0));
    assert_eq!(open_err(info_header(1, 0, 24, 0, 0, 54)), BMPError::InvalidHeight(0));
    let truncated = info_header(1, 1, 24, 0, 0, 54)[..30].to_vec();
    assert_eq!(open_err(truncated), BMPError::IOError(StreamError::UnexpectedEof));
}

#[test]
fn bitfield_errors_from_file() {
    let mut gap = info_header(1, 1, 32, 3, 0, 66);
    for m in [0x00ff_00ffu32, 0, 0] {
        put32(&mut gap, m);
    }
    assert_eq!(open_err(gap), BMPError::BitfieldsNotContiguous(0x00ff_00ff, 0, 0, 0));
    let mut overlap = info_header(1, 1, 32, 3, 0, 66);
    for m in [0x0000_ffffu32, 0x0000_ff00, 0] {
        put32(&mut overlap, m);
    }
    assert_eq!(open_err(overlap), BMPError::BitfieldsOverlap(0x0000_ffff, 0x0000_ff00, 0, 0));
}

#[test]
fn upscale_values() {
    assert_eq!(upscale(0b10101, 5), 0xad6b_5ad6);
    assert_eq!(upscale(0x1f, 5), 0xffff_ffff);
    assert_eq!(upscale(1, 1), 0xffff_ffff);
    assert_eq!(upscale(0xab, 8), 0xabab_abab);
    assert_eq!(upscale(0b101, 3), 0xb6db_6db6);
    assert_eq!(upscale(0x1234_5678, 32), 0x1234_5678);
}

#[test]
fn bitfield_channels() {
    let px = Pixel::from_bitfields(0b0101_0100_0001_1111, 0x7c00, 0x03e0, 0x001f, 0);
    assert_eq!(px, Pixel { red: 0xad6b_5ad6, green: 0, blue: 0xffff_ffff, alpha: 0xffff_ffff });
    let q = Pixel::from_bitfields(0x80ab_cdef, 0x00ff_0000, 0x0000_ff00, 0x0000_00ff, 0xff00_0000);
    assert_eq!(q, Pixel { red: 0xabab_abab, green: 0xcdcd_cdcd, blue: 0xefef_efef, alpha: 0x8080_8080 });
    let p = Pixel::from_pallete_pixel(&PalletePixel { red: 1, green: 0x80, blue: 0xff });
    assert_eq!(p, opaque(1, 0x80, 0xff));
}

#[test]
fn sixteen_and_thirty_two_bit_images() {
    let mut d16 = info_header(1, 1, 16, 0, 0, 54);
    put16(&mut d16, 0b0101_0100_0001_1111);
    d16.extend_from_slice(&[0, 0]);
    let mut r16 = BMPReader::new(d16).unwrap();
    let (_, _, p) = r16.next().unwrap();
    assert_eq!(p.unwrap(), Pixel { red: 0xad6b_5ad6, green: 0, blue: 0xffff_ffff, alpha: 0xffff_ffff });

    let mut d32 = info_header(1, 1, 32, 0, 0, 54);
    put32(&mut d32, 0x00ab_cdef);
    let mut r32 = BMPReader::new(d32).unwrap();
    let (_, _, p) = r32.next().unwrap();
    assert_eq!(p.unwrap(), Pixel { red: 0xabab_abab, green: 0xcdcd_cdcd, blue: 0xefef_efef, alpha: 0xffff_ffff });
}

#[test]
fn one_bit_indexed_image_with_v2_header() {
    let mut v = vec![b'B', b'M'];
    put32(&mut v, 0);
    put32(&mut v, 0);
    put32(&mut v, 26 + 6);
    put32(&mut v, 12);
    put16(&mut v, 3);
    put16(&mut v, 1);
    put16(&mut v, 1);
    put16(&mut v, 1);
    v.extend_from_slice(&[0, 0, 0, 0xff, 0xff, 0xff]);
    v.extend_from_slice(&[0b0000_0101, 0, 0, 0]);
    let mut reader = BMPReader::new(v).unwrap();
    let mut out = Vec::new();
    while let Some((x, _, p)) = reader.next() {
        out.push((x, p.unwrap()));
    }
    let white = opaque(0xff, 0xff, 0xff);
    let black = opaque(0, 0, 0);
    assert_eq!(out, vec![(0, white), (1, black), (2, white)]);
}

#[test]
fn palette_index_out_of_range() {
    let mut data = info_header(1, 1, 8, 0, 1, 58);
    data.extend_from_slice(&[1, 2, 3, 0]);
    data.extend_from_slice(&[5, 0, 0, 0]);
    let mut reader = BMPReader::new(data).unwrap();
    let (_, _, p) = reader.next().unwrap();
    assert_eq!(p, Err(StreamError::PaletteIndexOutOfRange(5)));
}

#[test]
fn truncated_pixel_data() {
    let data = info_header(1, 1, 32, 0, 0, 54);
    let mut reader = BMPReader::new(data).unwrap();
    let (_, _, p) = reader.next().unwrap();
    assert_eq!(p, Err(StreamError::UnexpectedEof));
}
