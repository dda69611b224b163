use sereal_decoder::reader::Error;
use sereal_decoder::reader::Reader;

#[test]
fn read_tag_skips_padding() {
    let mut r = Reader::new(b"\x3f\xbf\x3f\x01\x3f");
    assert_eq!(r.read_tag(), Ok(0x01));
    assert_eq!(r.pos(), 4);
    assert_eq!(r.read_tag(), Err(Error::UnexpectedEof));
    assert_eq!(r.pos(), 4);
}

#[test]
fn read_tag_keeps_the_track_bit() {
    let mut r = Reader::new(b"\xa9\x01");
    assert_eq!(r.read_tag(), Ok(0xa9));
    assert_eq!(r.pos(), 1);
}

#[test]
fn read_tag_of_an_empty_buffer_is_eof() {
    let mut r = Reader::new(b"");
    assert_eq!(r.read_tag(), Err(Error::UnexpectedEof));
    assert_eq!(r.pos(), 0);
}

#[test]
fn floats_are_little_endian() {
    let mut r = Reader::new(b"\x00\x00\x80\x3f\x00\x00\x00\x00\x00\x00\xf0\x3f\x01");
    assert_eq!(r.read_f32().map(f32::from_bits), Ok(1.0f32));
    assert_eq!(r.pos(), 4);
    assert_eq!(r.read_f64().map(f64::from_bits), Ok(1.0f64));
    assert_eq!(r.pos(), 12);
    assert_eq!(r.read_f32(), Err(Error::UnexpectedEof));
    assert_eq!(r.read_f64(), Err(Error::UnexpectedEof));
    assert_eq!(r.pos(), 12);
}

#[test]
fn words_are_read_low_byte_first() {
    let mut r = Reader::new(b"\x01\x02\x03\x04\x05\x06\x07\x08\x09\x0a\x0b\x0c");
    assert_eq!(r.read_u32(), Ok(0x04030201));
    assert_eq!(r.read_f64(), Ok(0x0c0b0a0908070605));
    assert_eq!(r.pos(), 12);
}

#[test]
fn varints_advance_by_their_length() {
    let mut r = Reader::new(b"\x80\x01\x03\xac\x02");
    assert_eq!(r.read_varint(), Ok(128));
    assert_eq!(r.pos(), 2);
    assert_eq!(r.read_zigzag(), Ok(-2));
    assert_eq!(r.pos(), 3);
    assert_eq!(r.read_varlen(), Ok(300));
    assert_eq!(r.pos(), 5);
    assert_eq!(r.read_varint(), Err(Error::UnexpectedEof));
    assert_eq!(r.pos(), 5);
}

#[test]
fn varint_overflow_leaves_the_cursor() {
    let mut r = Reader::new(b"\x01\x80\x80\x80\x80\x80\x80\x80\x80\x80\x80\x00");
    assert_eq!(r.read_varint(), Ok(1));
    assert_eq!(r.read_varint(), Err(Error::VarintOverflow));
    assert_eq!(r.read_zigzag(), Err(Error::VarintOverflow));
    assert_eq!(r.read_varlen(), Err(Error::VarintOverflow));
    assert_eq!(r.pos(), 1);
}

#[test]
fn varlen_takes_what_fits_the_offset_type() {
    let mut r = Reader::new(b"\xff\xff\xff\xff\xff\xff\xff\xff\xff\x01");
    if usize::MAX as u64 == u64::MAX {
        assert_eq!(r.read_varlen(), Ok(usize::MAX));
        assert_eq!(r.pos(), 10);
    } else {
        assert_eq!(r.read_varlen(), Err(Error::OffsetOverflow));
        assert_eq!(r.pos(), 0);
    }
}

#[test]
fn read_bytes_borrows_from_the_buffer() {
    let buf = b"abcdef".to_vec();
    let mut r = Reader::new(&buf);
    let first = r.read_bytes(2).unwrap();
    let none = r.read_bytes(0).unwrap();
    let rest = r.read_bytes(4).unwrap();
    assert_eq!(first, b"ab");
    assert_eq!(none, b"");
    assert_eq!(rest, b"cdef");
    assert_eq!(r.pos(), 6);
    assert_eq!(r.read_bytes(1), Err(Error::UnexpectedEof));
    assert_eq!(r.read_bytes(0), Ok(&b""[..]));
    assert_eq!(r.pos(), 6);
}

#[test]
fn read_bytes_past_the_offset_type_overflows() {
    let mut r = Reader::new(b"abc");
    assert_eq!(r.read_u8(), Ok(b'a'));
    assert_eq!(r.read_bytes(usize::MAX), Err(Error::OffsetOverflow));
    assert_eq!(r.read_bytes(usize::MAX - 1), Err(Error::UnexpectedEof));
    assert_eq!(r.pos(), 1);
}

#[test]
fn set_pos_returns_the_previous_position() {
    let mut r = Reader::new(b"\x01\x02\x03");
    assert_eq!(r.read_tag(), Ok(1));
    assert_eq!(r.set_pos(2), 1);
    assert_eq!(r.pos(), 2);
    assert_eq!(r.read_tag(), Ok(3));
    assert_eq!(r.set_pos(0), 3);
    assert_eq!(r.read_tag(), Ok(1));
}

#[test]
fn a_position_past_the_end_reads_as_the_end() {
    let mut r = Reader::new(b"\x01");
    assert_eq!(r.set_pos(7), 0);
    assert_eq!(r.read_tag(), Err(Error::UnexpectedEof));
    assert_eq!(r.read_u8(), Err(Error::UnexpectedEof));
    assert_eq!(r.read_varint(), Err(Error::UnexpectedEof));
    assert_eq!(r.read_f32(), Err(Error::UnexpectedEof));
    assert_eq!(r.read_bytes(1), Err(Error::UnexpectedEof));
    assert_eq!(r.pos(), 7);
    assert_eq!(r.len(), 1);
}
