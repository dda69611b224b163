use std::io::Write;

use sereal_decoder::arena::Arena;
use sereal_decoder::arena::ArenaBuilder;
use sereal_decoder::arena::Inner;
use sereal_decoder::arena::Value;
use sereal_decoder::config::Config;
use sereal_decoder::header;
use sereal_decoder::header::DocumentType;
use sereal_decoder::inflate;
use sereal_decoder::locate_body;
use sereal_decoder::parse;
use sereal_decoder::parser;
use sereal_decoder::read_body;
use sereal_decoder::reader;
use sereal_decoder::Error;
use sereal_decoder::IoError;

fn items_of_ref_to_array(cells: &ArenaBuilder, v: Value) -> Vec<Value> {
    match cells.get(v) {
        Some(Inner::Ref(inner)) => match cells.get(inner) {
            Some(Inner::Array(items)) => items.to_vec(),
            other => panic!("unexpected {:?}", other),
        },
        other => panic!("unexpected {:?}", other),
    }
}

fn failure(raw: &[u8]) -> Error {
    let mut buffer = Vec::new();
    let store = Arena::new();
    match parse(raw, ArenaBuilder::new(&store), &mut buffer) {
        Ok((v, _)) => panic!("decoded as {:?}", v),
        Err(e) => e,
    }
}

fn is_ref_to_1024_zeros(raw: &[u8]) -> bool {
    let mut buffer = Vec::new();
    let store = Arena::new();
    let (v, cells) = parse(raw, ArenaBuilder::new(&store), &mut buffer).unwrap();
    let items = items_of_ref_to_array(&cells, v);
    items.len() == 1024 && items.iter().all(|i| cells.get(*i) == Some(Inner::U64(0)))
}

#[test]
fn simple_snappy() {
    let raw = b"\
        \x3d\xf3\x72\x6c\x23\x00\xb8\x00\x84\x08\x10\x28\x2b\x80\x08\x00\
        \xfe\x01\x00\xfe\x01\x00\xfe\x01\x00\xfe\x01\x00\xfe\x01\x00\xfe\
        \x01\x00\xfe\x01\x00\xfe\x01\x00\xfe\x01\x00\xfe\x01\x00\xfe\x01\
        \x00\xfe\x01\x00\xfe\x01\x00\xfe\x01\x00\xfe\x01\x00\xfa\x01\x00\
    ";
    assert!(is_ref_to_1024_zeros(&raw[..]));
}

#[test]
fn simple_zlib() {
    let raw = b"\
        \x3d\xf3\x72\x6c\x33\x00\x84\x08\x9d\x00\x78\x01\xed\xc0\x31\x0d\
        \x00\x00\x0c\x02\xc1\x8e\x95\x42\x82\x49\xa4\x23\x84\x3f\x39\x7f\
        \x00\x66\x15\x72\x5a\x00\xdc\
    ";
    assert!(is_ref_to_1024_zeros(&raw[..]));
}

fn body_of_1024_zeros() -> Vec<u8> {
    let mut body = vec![0x28, 0x2b, 0x80, 0x08];
    body.extend_from_slice(&[0u8; 1024]);
    body
}

#[test]
fn simple_zstd() {
    let stored = zstd::stream::encode_all(&body_of_1024_zeros()[..], 3).unwrap();
    assert!(stored.len() < 128);
    let mut raw = b"\x3d\xf3\x72\x6c\x44\x00".to_vec();
    raw.push(stored.len() as u8);
    raw.extend_from_slice(&stored);
    assert!(is_ref_to_1024_zeros(&raw));
    let (head, body) = read_body(&raw, &Config::default()).unwrap();
    assert_eq!(
        head.document_type(),
        DocumentType::ZStd { compressed_size: stored.len() as u64 }
    );
    assert_eq!(body, body_of_1024_zeros());
}

#[test]
fn raw_body_is_all_that_follows_the_header() {
    let raw = b"=srl\x02\x00\x42\x01\x02\xff";
    let frame = locate_body(raw, &Config::default()).unwrap();
    assert_eq!(frame.header.document_type(), DocumentType::Uncompressed);
    assert_eq!((frame.start, frame.end), (6, 10));
    let (_, body) = read_body(raw, &Config::default()).unwrap();
    assert_eq!(body, b"\x42\x01\x02\xff");
    let mut buffer = Vec::new();
    let store = Arena::new();
    let (v, cells) = parse(raw, ArenaBuilder::new(&store), &mut buffer).unwrap();
    let items = items_of_ref_to_array(&cells, v);
    assert_eq!(cells.get(items[0]), Some(Inner::U64(1)));
    assert_eq!(cells.get(items[1]), Some(Inner::U64(2)));
    assert_eq!(read_body(raw, &Config::default()).unwrap().1, b"\x42\x01\x02\xff");
}

#[test]
fn strings_borrow_from_the_buffer() {
    let raw = b"=\xf3rl\x04\x00\x63abc";
    let mut buffer = Vec::new();
    let store = Arena::new();
    let (v, cells) = parse(raw, ArenaBuilder::new(&store), &mut buffer).unwrap();
    match cells.get(v) {
        Some(Inner::Binary(s)) => assert_eq!(s, b"abc"),
        other => panic!("unexpected {:?}", other),
    }
}

#[test]
fn snappy_body_is_located_by_its_size() {
    let raw = b"=srl\x22\x00\x03abcdef";
    let frame = locate_body(raw, &Config::default()).unwrap();
    assert_eq!(frame.header.document_type(), DocumentType::Snappy { compressed_size: 3 });
    assert_eq!((frame.start, frame.end), (7, 10));
    // a Snappy body has to be there in full
    assert_eq!(
        locate_body(b"=srl\x22\x00\x03ab", &Config::default()).unwrap_err(),
        Error::IO(IoError::UnexpectedEof)
    );
}

#[test]
fn zlib_and_zstd_bodies_take_what_is_there() {
    let frame = locate_body(b"=\xf3rl\x33\x00\x0a\x05abc", &Config::default()).unwrap();
    assert_eq!(
        frame.header.document_type(),
        DocumentType::ZLib { uncompressed_size: 10, compressed_size: 5 }
    );
    assert_eq!((frame.start, frame.end), (8, 11));
    let frame = locate_body(b"=\xf3rl\x33\x00\x0a\x02abc", &Config::default()).unwrap();
    assert_eq!((frame.start, frame.end), (8, 10));
    let frame = locate_body(b"=\xf3rl\x44\x00\x05abc", &Config::default()).unwrap();
    assert_eq!((frame.start, frame.end), (7, 10));
    let frame = locate_body(b"=\xf3rl\x44\x00\x02abc", &Config::default()).unwrap();
    assert_eq!((frame.start, frame.end), (7, 9));
}

#[test]
fn sizes_over_their_bounds_are_refused() {
    let config = Config::default().with_max_compressed_size(4).with_max_uncompressed_size(8);
    assert_eq!(
        locate_body(b"=srl\x22\x00\x05abcde", &config).unwrap_err(),
        Error::BodyTooLarge { size: 5, limit: 4 }
    );
    assert!(locate_body(b"=srl\x22\x00\x04abcd", &config).is_ok());
    assert_eq!(
        locate_body(b"=\xf3rl\x33\x00\x08\x05abcde", &config).unwrap_err(),
        Error::BodyTooLarge { size: 5, limit: 4 }
    );
    assert_eq!(
        locate_body(b"=\xf3rl\x33\x00\x09\x04abcd", &config).unwrap_err(),
        Error::BodyTooLarge { size: 9, limit: 8 }
    );
    assert!(locate_body(b"=\xf3rl\x33\x00\x08\x04abcd", &config).is_ok());
    assert_eq!(
        locate_body(b"=\xf3rl\x44\x00\x05abcde", &config).unwrap_err(),
        Error::BodyTooLarge { size: 5, limit: 4 }
    );
    // 100_000_001 as a varint, with the default bounds
    assert_eq!(
        locate_body(b"=srl\x22\x00\x81\xc2\xd7\x2f", &Config::default()).unwrap_err(),
        Error::BodyTooLarge { size: 100_000_001, limit: 100_000_000 }
    );
}

#[test]
fn errors_of_the_header_and_of_the_parser_are_passed_on() {
    let config = Config::default();
    assert_eq!(
        locate_body(b"=srx\x02\x00", &config).unwrap_err(),
        Error::Header(header::Error::InvalidMagic)
    );
    assert_eq!(
        read_body(b"=srl", &config).unwrap_err(),
        Error::Header(header::Error::IOError(reader::Error::UnexpectedEof))
    );
    assert_eq!(failure(b"=srl\x02\x00"), Error::Parser(parser::Error::UnexpectedEof));
    assert_eq!(failure(b"=srl\x02\x00\x2f\x01"), Error::Parser(parser::Error::InvalidCopy));
    assert_eq!(
        failure(b""),
        Error::Header(header::Error::IOError(reader::Error::UnexpectedEof))
    );
}

#[test]
fn stored_bytes_that_are_no_compressed_body_are_io_errors() {
    assert_eq!(
        inflate(DocumentType::Snappy { compressed_size: 3 }, b"\xff\xff\xff").unwrap_err(),
        Error::IO(IoError::Snappy)
    );
    assert_eq!(
        inflate(DocumentType::Snappy { compressed_size: 0 }, b"").unwrap_err(),
        Error::IO(IoError::Snappy)
    );
    assert_eq!(
        inflate(DocumentType::ZLib { compressed_size: 3, uncompressed_size: 4 }, b"abc").unwrap_err(),
        Error::IO(IoError::ZLib)
    );
    assert_eq!(
        inflate(DocumentType::ZStd { compressed_size: 3 }, b"abc").unwrap_err(),
        Error::IO(IoError::ZStd)
    );
    assert_eq!(inflate(DocumentType::Uncompressed, b"abc"), Ok(b"abc".to_vec()));
}

#[test]
fn each_codec_gives_the_bytes_back() {
    let body = body_of_1024_zeros();
    let snappy = snap::raw::Encoder::new().compress_vec(&body).unwrap();
    assert_ne!(snappy, body);
    assert_eq!(
        inflate(DocumentType::Snappy { compressed_size: snappy.len() as u64 }, &snappy),
        Ok(body.clone())
    );
    let zstd = zstd::stream::encode_all(&body[..], 1).unwrap();
    assert_ne!(zstd, body);
    assert_eq!(
        inflate(DocumentType::ZStd { compressed_size: zstd.len() as u64 }, &zstd),
        Ok(body.clone())
    );
    let zlib = {
        let mut enc = flate2::write::ZlibEncoder::new(Vec::new(), flate2::Compression::default());
        enc.write_all(&body).unwrap();
        enc.finish().unwrap()
    };
    assert_ne!(zlib, body);
    assert_eq!(
        inflate(
            DocumentType::ZLib { compressed_size: zlib.len() as u64, uncompressed_size: 1028 },
            &zlib
        ),
        Ok(body.clone())
    );
    // of a longer stream the announced size is taken
    assert_eq!(
        inflate(
            DocumentType::ZLib { compressed_size: zlib.len() as u64, uncompressed_size: 4 },
            &zlib
        ),
        Ok(body[..4].to_vec())
    );
    // a stream that is shorter than announced is an error
    assert_eq!(
        inflate(
            DocumentType::ZLib { compressed_size: zlib.len() as u64, uncompressed_size: 1029 },
            &zlib
        )
        .unwrap_err(),
        Error::IO(IoError::ZLib)
    );
}
