use sereal_decoder::varint::parse_varint;
use sereal_decoder::varint::parse_zigzag;
use sereal_decoder::varint::straighten;
use sereal_decoder::varint::Error;
use sereal_decoder::varint::VarintReaderExt;

fn unsigned(s: &[u8]) -> u64 {
    let mut source = s;
    source.read_varint().unwrap()
}

fn signed(s: &[u8]) -> i64 {
    let mut source = s;
    source.read_zigzag().unwrap()
}

fn unsigned_err(s: &[u8]) -> Error {
    let mut source = s;
    source.read_varint().unwrap_err()
}

fn signed_err(s: &[u8]) -> Error {
    let mut source = s;
    source.read_zigzag().unwrap_err()
}

#[test]
fn test_varint() {
    assert_eq!(unsigned(b"\x00"), 0);
    assert_eq!(unsigned(b"\x01"), 1);
    assert_eq!(unsigned(b"\x80\x01"), 128);
    assert_eq!(unsigned(b"\x80\x80\x01"), 16384);
    assert_eq!(unsigned(b"\x81\x01"), 129);
    assert_eq!(unsigned(b"\x81\x81\x00"), 129);
    assert_eq!(unsigned(b"\x80\x80\x80\x80\x80\x80\x80\x80\x80\x00"), 0);
    assert_eq!(unsigned(b"\xff\xff\xff\xff\xff\xff\xff\xff\xff\x7f"), u64::MAX);

    assert!(unsigned_err(b"\x80").is_eof());
    assert!(unsigned_err(b"\x80\x80\x80\x80\x80\x80\x80\x80\x80\x80\x00").is_overflow());
}

#[test]
fn test_zigzag() {
    assert_eq!(signed(b"\x00"), 0);
    assert_eq!(signed(b"\x01"), -1);
    assert_eq!(signed(b"\x02"), 1);
    assert_eq!(signed(b"\x03"), -2);
    assert_eq!(signed(b"\x04"), 2);
    assert_eq!(signed(b"\x80\x01"), 64);
    assert_eq!(signed(b"\x80\x80\x01"), 8192);
    assert_eq!(signed(b"\x81\x01"), -65);
    assert_eq!(signed(b"\x81\x81\x00"), -65);
    assert_eq!(signed(b"\x80\x80\x80\x80\x80\x80\x80\x80\x80\x00"), 0);
    assert_eq!(signed(b"\xfe\xff\xff\xff\xff\xff\xff\xff\xff\x7f"), i64::MAX);
    assert_eq!(signed(b"\xff\xff\xff\xff\xff\xff\xff\xff\xff\x7f"), i64::MIN);

    assert!(signed_err(b"\x80").is_eof());
    assert!(signed_err(b"\x80\x80\x80\x80\x80\x80\x80\x80\x80\x80\x00").is_overflow());
}

#[test]
fn varint_reports_the_bytes_it_took() {
    assert_eq!(parse_varint(b"\x00\xff"), Ok((0, 1)));
    assert_eq!(parse_varint(b"\xac\x02\x01"), Ok((300, 2)));
    assert_eq!(parse_varint(b"\xff\xff\xff\xff\xff\xff\xff\xff\xff\x01"), Ok((u64::MAX, 10)));
    assert_eq!(parse_zigzag(b"\xac\x02\x01"), Ok((150, 2)));
}

#[test]
fn varint_of_an_empty_buffer_is_eof() {
    assert_eq!(parse_varint(b""), Err(Error::UnexpectedEof));
    assert_eq!(parse_zigzag(b""), Err(Error::UnexpectedEof));
}

#[test]
fn varint_of_ten_bytes_that_goes_on_overflows() {
    let ten = [0x80u8; 10];
    assert_eq!(parse_varint(&ten), Err(Error::Overflow));
    let nine = [0x80u8; 9];
    assert_eq!(parse_varint(&nine), Err(Error::UnexpectedEof));
}

#[test]
fn tenth_byte_keeps_its_lowest_bit_only() {
    assert_eq!(parse_varint(b"\x80\x80\x80\x80\x80\x80\x80\x80\x80\x01"), Ok((1u64 << 63, 10)));
    assert_eq!(parse_varint(b"\x80\x80\x80\x80\x80\x80\x80\x80\x80\x02"), Ok((0, 10)));
    assert_eq!(parse_varint(b"\x80\x80\x80\x80\x80\x80\x80\x80\x80\x7e"), Ok((0, 10)));
}

fn encode(mut x: u64) -> Vec<u8> {
    let mut out = Vec::new();
    while x >= 0x80 {
        out.push((x % 128) as u8 | 0x80);
        x /= 128;
    }
    out.push(x as u8);
    out
}

#[test]
fn decoding_undoes_encoding() {
    let samples = [0u64, 1, 127, 128, 255, 300, 16383, 16384, 1 << 32, (1 << 63) - 1, 1 << 63, u64::MAX];
    for &x in samples.iter() {
        let mut bytes = encode(x);
        let len = bytes.len();
        bytes.push(0xff);
        assert_eq!(parse_varint(&bytes), Ok((x, len)));
    }
}

#[test]
fn zigzag_decoding_undoes_encoding() {
    let samples = [0i64, 1, -1, 2, -2, 63, -64, 64, -65, i64::MAX, i64::MIN];
    for &x in samples.iter() {
        let code = if x >= 0 { (x as u64) * 2 } else { ((-(x + 1)) as u64) * 2 + 1 };
        assert_eq!(straighten(code), x);
        assert_eq!(parse_zigzag(&encode(code)).unwrap().0, x);
    }
}

#[test]
fn straighten_alternates_signs() {
    assert_eq!(straighten(0), 0);
    assert_eq!(straighten(1), -1);
    assert_eq!(straighten(2), 1);
    assert_eq!(straighten(3), -2);
    assert_eq!(straighten(u64::MAX), i64::MIN);
    assert_eq!(straighten(u64::MAX - 1), i64::MAX);
}

#[test]
fn a_source_is_read_from_its_front() {
    let bytes = b"\xac\x02\x03\x80";
    let mut source = &bytes[..];
    assert_eq!(source.read_varint(), Ok(300));
    assert_eq!(source, b"\x03\x80");
    assert_eq!(source.read_zigzag(), Ok(-2));
    assert_eq!(source, b"\x80");
    assert_eq!(source.read_varint(), Err(Error::UnexpectedEof));
    assert_eq!(source.read_zigzag(), Err(Error::UnexpectedEof));
    assert_eq!(source, b"\x80");
}

#[test]
fn kinds_of_errors_tell_themselves_apart() {
    assert!(Error::Overflow.is_overflow());
    assert!(!Error::Overflow.is_eof());
    assert!(Error::UnexpectedEof.is_eof());
    assert!(!Error::UnexpectedEof.is_overflow());
}
