use sereal_decoder::config::Config;
use sereal_decoder::header::DocumentType;
use sereal_decoder::header::Error;
use sereal_decoder::header::Header;
use sereal_decoder::reader;
use sereal_decoder::reader::Reader;

fn r(s: &[u8]) -> Result<Header, Error> {
    Header::read(&mut Reader::new(s), &Config::default())
}

fn p(s: &[u8]) -> Header {
    r(s).unwrap()
}

fn e(s: &[u8]) -> Error {
    r(s).unwrap_err()
}

#[test]
fn invalid() {
    // bad magic
    assert!(e(b"=mrl").is_invalid_magic());
    assert!(e(b"=srf").is_invalid_magic());

    // =srl allows version 2 only
    assert!(e(b"=srl\x00\x00").is_invalid_version());
    assert!(e(b"=srl\x01\x00").is_invalid_version());
    assert!(e(b"=srl\x03\x00").is_invalid_version());
    assert!(e(b"=srl\x04\x00").is_invalid_version());

    // =\xf3rl allows versions 3 and 4
    assert!(e(b"=\xf3rl\x00\x00").is_invalid_version());
    assert!(e(b"=\xf3rl\x01\x00").is_invalid_version());
    assert!(e(b"=\xf3rl\x02\x00").is_invalid_version());

    // doctype 1 is not allowed
    assert!(e(b"=srl\x12\x00").is_invalid_type());
    assert!(e(b"=\xf3rl\x13\x00").is_invalid_type());
    assert!(e(b"=\xf3rl\x14\x00").is_invalid_type());

    // doctype <= version
    assert!(e(b"=srl\x32\x00").is_invalid_type());
    assert!(e(b"=\xf3rl\x43\x00").is_invalid_type());
    assert!(e(b"=\xf3rl\x54\x00").is_invalid_type());
}

#[test]
fn version2() {
    let h = p(b"=srl\x02\x00");
    assert_eq!(h.document_type(), DocumentType::Uncompressed);
    assert_eq!(h.user_metadata(), &None);

    let h = p(b"=srl\x22\x02\x01\x00\x0a");
    assert_eq!(h.document_type(), DocumentType::Snappy { compressed_size: 10 });
    assert_eq!(h.user_metadata(), &Some(vec![0]));
}

#[test]
fn version3() {
    let h = p(b"=\xf3rl\x33\x02\x01\x00\x0a\x0b");
    assert_eq!(
        h.document_type(),
        DocumentType::ZLib { uncompressed_size: 10, compressed_size: 11 }
    );
    assert_eq!(h.user_metadata(), &Some(vec![0]));
}

#[test]
fn version4() {
    let h = p(b"=\xf3rl\x04\x00");
    assert_eq!(h.document_type(), DocumentType::Uncompressed);
    assert_eq!(h.user_metadata(), &None);

    let h = p(b"=\xf3rl\x44\x00\x0a");
    assert_eq!(h.document_type(), DocumentType::ZStd { compressed_size: 10 });
    assert_eq!(h.user_metadata(), &None);
}

#[test]
fn header_leaves_the_cursor_at_the_body() {
    let bytes = b"=\xf3rl\x33\x02\x01\x00\x0a\x0b\x01\x02";
    let mut reader = Reader::new(bytes);
    Header::read(&mut reader, &Config::default()).unwrap();
    assert_eq!(reader.pos(), 10);
    assert_eq!(reader.read_u8(), Ok(1));
}

#[test]
fn truncated_headers_are_io_errors() {
    assert_eq!(e(b""), Error::IOError(reader::Error::UnexpectedEof));
    assert_eq!(e(b"=sr"), Error::IOError(reader::Error::UnexpectedEof));
    assert!(e(b"=srl").is_io_error());
    assert!(e(b"=srl\x02").is_io_error());
    // the suffix announces three bytes and has two
    assert!(e(b"=srl\x02\x03\x01\x00").is_io_error());
    // no size after the suffix of a compressed document
    assert!(e(b"=srl\x22\x00").is_io_error());
    assert!(e(b"=\xf3rl\x33\x00\x0a").is_io_error());
    // a suffix length that is no varint
    assert_eq!(
        e(b"=srl\x02\x80\x80\x80\x80\x80\x80\x80\x80\x80\x80"),
        Error::IOError(reader::Error::VarintOverflow)
    );
}

#[test]
fn version_and_type_are_checked_before_the_suffix() {
    assert!(e(b"=srl\x03").is_invalid_version());
    assert!(e(b"=srl\x12").is_invalid_type());
}

#[test]
fn suffix_over_the_bound_is_refused() {
    let config = Config::default().with_max_suffix_len(2);
    let fits = Header::read(&mut Reader::new(b"=srl\x02\x02\x01\x07"), &config).unwrap();
    assert_eq!(fits.user_metadata(), &Some(vec![7]));
    let over = Header::read(&mut Reader::new(b"=srl\x02\x03\x01\x07\x08"), &config).unwrap_err();
    assert!(over.is_suffix_too_large());
    // 1_000_001 as a varint
    assert!(e(b"=srl\x02\xc1\x84\x3d").is_suffix_too_large());
}

#[test]
fn suffix_without_the_metadata_flag_is_passed_over() {
    let mut reader = Reader::new(b"=srl\x02\x03\x00\x07\x08\x25");
    let h = Header::read(&mut reader, &Config::default()).unwrap();
    assert_eq!(h.user_metadata(), &None);
    assert_eq!(reader.pos(), 9);
    // other flags do not make it metadata
    let h = p(b"=srl\x02\x02\xfe\x07");
    assert_eq!(h.user_metadata(), &None);
    let h = p(b"=srl\x02\x02\xff\x07");
    assert_eq!(h.user_metadata(), &Some(vec![7]));
    // a suffix of the flags byte alone
    let h = p(b"=srl\x02\x01\x01");
    assert_eq!(h.user_metadata(), &Some(vec![]));
}

#[test]
fn metadata_can_be_changed_in_place() {
    let mut h = p(b"=srl\x02\x02\x01\x07");
    *h.user_metadata_mut() = Some(vec![1, 2]);
    assert_eq!(h.user_metadata(), &Some(vec![1, 2]));
    h.user_metadata_mut().take();
    assert_eq!(h.user_metadata(), &None);
    assert_eq!(h.document_type(), DocumentType::Uncompressed);
}
