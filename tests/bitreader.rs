use bmp_reader::bitreader::BitReader;
use bmp_reader::source::ByteSource;

fn test_constructor_one(bytes: ByteSource, n_bits: u8, expected: u8) -> ByteSource {
    let mut bitreader = BitReader::new(bytes, n_bits);

    assert!(bitreader.read_bits().unwrap() == expected);
    assert!(bitreader.read_bits().unwrap() == expected);
    bitreader.into_source()
}

#[test]
fn test_constructor() {
    let buff = ByteSource::new(vec![!0; 128]);

    let buff = test_constructor_one(buff, 1, 1);
    let buff = test_constructor_one(buff, 2, 3);
    let buff = test_constructor_one(buff, 4, 15);
    test_constructor_one(buff, 8, 255);
}

fn read_chunks(byte: u8, width: u8) -> Vec<u8> {
    let mut reader = BitReader::new(ByteSource::new(vec![byte]), width);
    let mut out = Vec::new();
    for _ in 0..(8 / width) {
        out.push(reader.read_bits().unwrap());
    }
    out
}

#[test]
fn chunks_of_all_ones_are_all_ones() {
    for (width, expected) in [(1u8, 1u8), (2, 3), (4, 15), (8, 255)] {
        let chunks = read_chunks(0xff, width);
        assert_eq!(chunks.len(), 8 / width as usize);
        assert!(chunks.iter().all(|&c| c == expected));
    }
}

#[test]
fn chunks_come_low_bits_first_and_rebuild_the_byte() {
    let byte = 0b1011_0100u8;
    assert_eq!(read_chunks(byte, 1), vec![0, 0, 1, 0, 1, 1, 0, 1]);
    assert_eq!(read_chunks(byte, 2), vec![0, 1, 3, 2]);
    assert_eq!(read_chunks(byte, 4), vec![4, 11]);
    assert_eq!(read_chunks(byte, 8), vec![byte]);
    for width in [1u8, 2, 4, 8] {
        let mut rebuilt: u32 = 0;
        for (i, c) in read_chunks(byte, width).iter().enumerate() {
            rebuilt |= (*c as u32) << (i as u32 * width as u32);
        }
        assert_eq!(rebuilt, byte as u32);
    }
}

#[test]
fn reading_past_the_end_gives_zero() {
    let mut reader = BitReader::new(ByteSource::new(vec![]), 4);
    assert_eq!(reader.read_bits().unwrap(), 0);
    assert_eq!(reader.read_bits().unwrap(), 0);
}

#[test]
fn realigning_drops_buffered_bits() {
    let mut reader = BitReader::new(ByteSource::new(vec![0x21, 0, 0, 0, 0x0f]), 4);
    assert_eq!(reader.read_bits().unwrap(), 1);
    reader.seek_to_byte_boundary(4).unwrap();
    assert_eq!(reader.read_bits().unwrap(), 0x0f);
}

#[test]
fn realigning_is_a_no_op_when_aligned_and_advances_otherwise() {
    let mut s = ByteSource::new(vec![0; 32]);
    s.seek_to_byte_boundary(4).unwrap();
    assert_eq!(s.position(), 0);
    s.skip(5);
    s.seek_to_byte_boundary(4).unwrap();
    assert_eq!(s.position(), 8);
    s.seek_to_byte_boundary(4).unwrap();
    assert_eq!(s.position(), 8);
    s.skip(1);
    s.seek_to_byte_boundary(8).unwrap();
    assert_eq!(s.position(), 16);
}

#[test]
fn little_endian_reads() {
    let mut s = ByteSource::new(vec![0x34, 0x12, 0x78, 0x56, 0x34, 0x12, 0xfe, 0xff, 0xff, 0xff, 0x01]);
    assert_eq!(s.read_u16_le().unwrap(), 0x1234);
    assert_eq!(s.read_u32_le().unwrap(), 0x1234_5678);
    assert_eq!(s.read_i32_le().unwrap(), -2);
    assert_eq!(s.position(), 10);
    assert!(s.read_u16_le().is_err());
    assert_eq!(s.position(), 10);
    assert_eq!(s.read_u8().unwrap(), 1);
    assert!(s.read_u8().is_err());
}

#[test]
fn realigning_from_an_origin() {
    let mut s = ByteSource::new(vec![0; 32]);
    s.skip(5);
    s.seek_to_boundary_from(2, 4).unwrap();
    assert_eq!(s.position(), 6);
    s.seek_to_boundary_from(2, 4).unwrap();
    assert_eq!(s.position(), 6);
    s.skip(1);
    s.seek_to_boundary_from(2, 4).unwrap();
    assert_eq!(s.position(), 10);
}
