//! A decoder for the Sereal binary serialization format, protocol versions 2 to 4.
//!
//! The body parser reconstructs the value graph of a document from its bytes and
//! hands it, cell by cell, to a [`parser::Builder`]. Every function here carries a
//! contract over a mathematical model of the bytes and of the graph.
//!
//! - [`varint`], [`reader`]: numbers and a cursor over the bytes of a body.
//! - [`header`]: the frame header. [`locate_body`], [`inflate`], [`read_body`]
//!   and [`parse`] go from a frame to its body and on to its value.
//! - [`parser`]: the body parser, its model and the builder it drives;
//!   [`arena`], [`arc`]: builders whose cells borrow from the body, or own
//!   what they hold.
//! - [`lexer`], [`de`]: the body as tokens, and as events for a visitor.
//! - [`laws`], [`padding`], [`alike`], [`place`]: what holds of every parse.
use vstd::prelude::*;
use vstd::std_specs::convert::FromSpecImpl;
use crate::codec::snappy_decode;
use crate::codec::snappy_decoded;
use crate::codec::snappy_len;
use crate::codec::snappy_length;
use crate::codec::zlib_decode;
use crate::codec::zlib_decoded;
use crate::codec::zstd_decode;
use crate::codec::zstd_decoded;
use crate::config::Config;
use crate::config::ConfigView;
use crate::header::DocumentType;
use crate::header::Header;
use crate::header::HeaderView;
use crate::parser::Builder;
use crate::parser::Value;
use crate::reader::Reader;

pub mod alike;
pub mod arc;
pub mod arena;
pub mod codec;
pub mod config;
pub mod constants;
pub mod de;
pub mod header;
pub mod laws;
pub mod lexer;
pub mod padding;
pub mod place;
pub mod parser;
pub mod reader;
pub mod varint;

verus! {

/// Why the stored body of a frame could not be turned into the body.
#[derive(Debug, Clone, Copy, PartialEq, Eq, Structural)]
pub enum IoError {
    /// The frame ends before the compressed body does.
    UnexpectedEof,
    /// The stored bytes are no Snappy block, or one of more bytes than can be held.
    Snappy,
    /// The stored bytes are no zlib stream with as many bytes as were announced,
    /// or more were announced than can be held.
    ZLib,
    /// The stored bytes are no Zstandard frame.
    ZStd,
}

/// Why a frame could not be decoded.
#[derive(Debug, Clone, Copy, PartialEq, Eq, Structural)]
pub enum Error {
    IO(IoError),
    Header(header::Error),
    Parser(parser::Error),
    /// A size that the header announces is over its bound.
    BodyTooLarge { size: u64, limit: u64 },
}

impl From<header::Error> for Error {
    fn from(e: header::Error) -> (r: Error) {
        Error::Header(e)
    }
}

impl FromSpecImpl<header::Error> for Error {
    open spec fn obeys_from_spec() -> bool {
        true
    }

    open spec fn from_spec(e: header::Error) -> Error {
        Error::Header(e)
    }
}

impl From<parser::Error> for Error {
    fn from(e: parser::Error) -> (r: Error) {
        Error::Parser(e)
    }
}

impl FromSpecImpl<parser::Error> for Error {
    open spec fn obeys_from_spec() -> bool {
        true
    }

    open spec fn from_spec(e: parser::Error) -> Error {
        Error::Parser(e)
    }
}

/// Where the stored body of a frame lies, and what its header says.
#[derive(Debug)]
pub struct Frame {
    pub header: Header,
    /// The index of the first byte of the stored body.
    pub start: usize,
    /// The index after the last byte of the stored body.
    pub end: usize,
}

/// The header of the frame `input`, and the range of its stored body.
///
/// The sizes that the header announces are held against their bounds. A raw body
/// is all that follows the header. A Snappy body has to be there in full; of a
/// zlib or Zstandard body as much is taken as is there, up to the size announced.
pub open spec fn spec_locate_body(input: Seq<u8>, cfg: ConfigView) -> Result<
    (HeaderView, nat, nat),
    Error,
> {
    match header::spec_read_header(input, 0, cfg.max_suffix_len) {
        Err(e) => Err(Error::Header(e)),
        Ok((head, start)) => {
            let rest = (input.len() - start) as nat;
            match head.doc_type {
                DocumentType::Uncompressed => Ok((head, start, input.len())),
                DocumentType::Snappy { compressed_size } => if compressed_size
                    > cfg.max_compressed_size {
                    Err(Error::BodyTooLarge { size: compressed_size, limit: cfg.max_compressed_size })
                } else if compressed_size > rest {
                    Err(Error::IO(IoError::UnexpectedEof))
                } else {
                    Ok((head, start, start + compressed_size as nat))
                },
                DocumentType::ZLib { compressed_size, uncompressed_size } => if compressed_size
                    > cfg.max_compressed_size {
                    Err(Error::BodyTooLarge { size: compressed_size, limit: cfg.max_compressed_size })
                } else if uncompressed_size > cfg.max_uncompressed_size || uncompressed_size
                    > isize::MAX {
                    Err(
                        Error::BodyTooLarge {
                            size: uncompressed_size,
                            limit: cfg.max_uncompressed_size,
                        },
                    )
                } else if compressed_size > rest {
                    Ok((head, start, input.len()))
                } else {
                    Ok((head, start, start + compressed_size as nat))
                },
                DocumentType::ZStd { compressed_size } => if compressed_size
                    > cfg.max_compressed_size {
                    Err(Error::BodyTooLarge { size: compressed_size, limit: cfg.max_compressed_size })
                } else if compressed_size > rest {
                    Ok((head, start, input.len()))
                } else {
                    Ok((head, start, start + compressed_size as nat))
                },
            }
        },
    }
}

/// The body that the bytes `stored` of a document of type `doc_type` stand for.
/// A Snappy or zlib body that announces more bytes than this machine can
/// allocate cannot be had.
pub open spec fn spec_inflate(doc_type: DocumentType, stored: Seq<u8>) -> Result<Seq<u8>, Error> {
    match doc_type {
        DocumentType::Uncompressed => Ok(stored),
        DocumentType::Snappy { compressed_size } => match snappy_length(stored) {
            Some(len) => if len > isize::MAX {
                Err(Error::IO(IoError::Snappy))
            } else {
                match snappy_decoded(stored) {
                    Some(body) => Ok(body),
                    None => Err(Error::IO(IoError::Snappy)),
                }
            },
            None => Err(Error::IO(IoError::Snappy)),
        },
        DocumentType::ZLib { compressed_size, uncompressed_size } => if uncompressed_size
            > isize::MAX {
            Err(Error::IO(IoError::ZLib))
        } else {
            match zlib_decoded(stored, uncompressed_size as usize) {
                Some(body) => Ok(body),
                None => Err(Error::IO(IoError::ZLib)),
            }
        },
        DocumentType::ZStd { compressed_size } => match zstd_decoded(stored) {
            Some(body) => Ok(body),
            None => Err(Error::IO(IoError::ZStd)),
        },
    }
}

/// The header and the body of the frame `input`.
pub open spec fn spec_read_body(input: Seq<u8>, cfg: ConfigView) -> Result<
    (HeaderView, Seq<u8>),
    Error,
> {
    match spec_locate_body(input, cfg) {
        Err(e) => Err(e),
        Ok((head, start, end)) => match spec_inflate(
            head.doc_type,
            input.subrange(start as int, end as int),
        ) {
            Ok(body) => Ok((head, body)),
            Err(e) => Err(e),
        },
    }
}

/// Reads the header of the frame `input`, holds the sizes it announces against
/// their bounds, and finds the stored body.
pub fn locate_body(input: &[u8], config: &Config) -> (r: Result<Frame, Error>)
    ensures
        match spec_locate_body(input@, config@) {
            Ok((head, start, end)) => r is Ok && r->Ok_0.header@ == head && r->Ok_0.start == start
                && r->Ok_0.end == end && start <= end <= input@.len(),
            Err(e) => r is Err && r->Err_0 == e,
        },
{
    let mut reader = Reader::new(input);
    let head = match Header::read(&mut reader, config) {
        Ok(head) => head,
        Err(e) => return Err(Error::from(e)),
    };
    let start: usize = reader.pos();
    let len: usize = input.len();
    proof {
        header::lemma_header_end(input@, 0, config@.max_suffix_len);
    }
    let rest: usize = len - start;
    let stored: usize = match head.document_type() {
        DocumentType::Uncompressed => rest,
        DocumentType::Snappy { compressed_size } => {
            if compressed_size > config.max_compressed_size() {
                return Err(
                    Error::BodyTooLarge {
                        size: compressed_size,
                        limit: config.max_compressed_size(),
                    },
                );
            }
            if compressed_size > rest as u64 {
                return Err(Error::IO(IoError::UnexpectedEof));
            }
            compressed_size as usize
        },
        DocumentType::ZLib { compressed_size, uncompressed_size } => {
            if compressed_size > config.max_compressed_size() {
                return Err(
                    Error::BodyTooLarge {
                        size: compressed_size,
                        limit: config.max_compressed_size(),
                    },
                );
            }
            if uncompressed_size > config.max_uncompressed_size() || uncompressed_size
                > isize::MAX as u64 {
                return Err(
                    Error::BodyTooLarge {
                        size: uncompressed_size,
                        limit: config.max_uncompressed_size(),
                    },
                );
            }
            if compressed_size > rest as u64 {
                rest
            } else {
                compressed_size as usize
            }
        },
        DocumentType::ZStd { compressed_size } => {
            if compressed_size > config.max_compressed_size() {
                return Err(
                    Error::BodyTooLarge {
                        size: compressed_size,
                        limit: config.max_compressed_size(),
                    },
                );
            }
            if compressed_size > rest as u64 {
                rest
            } else {
                compressed_size as usize
            }
        },
    };
    Ok(Frame { header: head, start: start, end: start + stored })
}

/// Turns the stored bytes of a document of type `doc_type` into its body.
pub fn inflate(doc_type: DocumentType, stored: &[u8]) -> (r: Result<Vec<u8>, Error>)
    ensures
        match spec_inflate(doc_type, stored@) {
            Ok(body) => r is Ok && r->Ok_0@ == body,
            Err(e) => r is Err && r->Err_0 == e,
        },
{
    match doc_type {
        DocumentType::Uncompressed => Ok(vstd::slice::slice_to_vec(stored)),
        DocumentType::Snappy { compressed_size } => {
            match snappy_len(stored) {
                Some(len) => {
                    if len > isize::MAX as usize {
                        return Err(Error::IO(IoError::Snappy));
                    }
                },
                None => {
                    return Err(Error::IO(IoError::Snappy));
                },
            }
            match snappy_decode(stored) {
                Some(body) => Ok(body),
                None => Err(Error::IO(IoError::Snappy)),
            }
        },
        DocumentType::ZLib { compressed_size, uncompressed_size } => {
            if uncompressed_size > isize::MAX as u64 {
                return Err(Error::IO(IoError::ZLib));
            }
            match zlib_decode(stored, uncompressed_size as usize) {
                Some(body) => Ok(body),
                None => Err(Error::IO(IoError::ZLib)),
            }
        },
        DocumentType::ZStd { compressed_size } => match zstd_decode(stored) {
            Some(body) => Ok(body),
            None => Err(Error::IO(IoError::ZStd)),
        },
    }
}

/// Reads the header of the frame `input` and gives it together with the body,
/// decompressed where the document type says so.
pub fn read_body(input: &[u8], config: &Config) -> (r: Result<(Header, Vec<u8>), Error>)
    ensures
        match spec_read_body(input@, config@) {
            Ok((head, body)) => r is Ok && r->Ok_0.0@ == head && r->Ok_0.1@ == body,
            Err(e) => r is Err && r->Err_0 == e,
        },
{
    let frame = locate_body(input, config)?;
    let stored = vstd::slice::slice_subrange(input, frame.start, frame.end);
    let body = inflate(frame.header.document_type(), stored)?;
    Ok((frame.header, body))
}

/// Decodes the frame `input` with the default bounds: the body goes to `buffer`,
/// which the cells may borrow from, and its one value is parsed into `builder`.
pub fn parse<'buf, B: Builder<'buf>>(input: &[u8], builder: B, buffer: &'buf mut Vec<u8>) -> (r:
    Result<(B::Value, B), Error>)
    ensures
        match spec_read_body(input@, config::default_bounds()) {
            Err(e) => r is Err && r->Err_0 == e,
            Ok((head, body)) => final(buffer)@ == body && match parser::spec_parse_inner(
                parser::ParseEnv {
                    buf: body,
                    cfg: config::default_bounds(),
                    key_ok: parser::key_rule::<B>(),
                },
                parser::ParseState {
                    pos: 0,
                    copy_pos: 0,
                    track: Map::empty(),
                    graph: builder.graph(),
                },
                false,
                config::default_bounds().max_depth as nat,
            ) {
                Ok((st, id)) => r is Ok && r->Ok_0.0.id() == id && r->Ok_0.1.graph() == st.graph,
                Err(e) => r is Err && r->Err_0 == Error::Parser(e),
            },
        },
{
    let config = Config::default();
    let (_, body) = read_body(input, &config)?;
    *buffer = body;
    let stored: &'buf Vec<u8> = buffer;
    match parser::parse(stored.as_slice(), builder) {
        Ok(parsed) => Ok(parsed),
        Err(e) => Err(Error::from(e)),
    }
}

} // verus!
