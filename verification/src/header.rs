//! The frame header: magic, protocol version, document type, user metadata and
//! the sizes of a compressed body.
use vstd::prelude::*;
use vstd::std_specs::convert::FromSpecImpl;
use crate::config::Config;
use crate::constants::MAGIC_V1;
use crate::constants::MAGIC_V3;
use crate::constants::OPT_USER_METADATA;
use crate::constants::PROTO_V2;
use crate::constants::PROTO_V3;
use crate::constants::PROTO_V4;
use crate::constants::TYPE_RAW;
use crate::constants::TYPE_SNAPPY;
use crate::constants::TYPE_ZLIB;
use crate::constants::TYPE_ZSTD;
use crate::reader;
use crate::reader::Reader;

verus! {

/// Why a header was not accepted.
#[derive(Debug, Clone, Copy, PartialEq, Eq, Structural)]
pub enum Error {
    /// The first four bytes are no magic of this format.
    InvalidMagic,
    /// The protocol version is unknown, or does not go with the magic.
    InvalidVersion,
    /// The document type is unknown, or the protocol version does not have it.
    InvalidType,
    /// The suffix is longer than the configuration allows.
    SuffixTooLarge,
    /// The bytes could not be read: they end too early, or a varint is malformed.
    IOError(reader::Error),
}

impl Error {
    pub fn is_invalid_magic(&self) -> (b: bool)
        ensures
            b == (*self is InvalidMagic),
    {
        match self {
            Error::InvalidMagic => true,
            _ => false,
        }
    }

    pub fn is_invalid_version(&self) -> (b: bool)
        ensures
            b == (*self is InvalidVersion),
    {
        match self {
            Error::InvalidVersion => true,
            _ => false,
        }
    }

    pub fn is_invalid_type(&self) -> (b: bool)
        ensures
            b == (*self is InvalidType),
    {
        match self {
            Error::InvalidType => true,
            _ => false,
        }
    }

    pub fn is_suffix_too_large(&self) -> (b: bool)
        ensures
            b == (*self is SuffixTooLarge),
    {
        match self {
            Error::SuffixTooLarge => true,
            _ => false,
        }
    }

    pub fn is_io_error(&self) -> (b: bool)
        ensures
            b == (*self is IOError),
    {
        match self {
            Error::IOError(_) => true,
            _ => false,
        }
    }
}

impl From<reader::Error> for Error {
    fn from(e: reader::Error) -> (r: Error) {
        Error::IOError(e)
    }
}

impl FromSpecImpl<reader::Error> for Error {
    open spec fn obeys_from_spec() -> bool {
        true
    }

    open spec fn from_spec(e: reader::Error) -> Error {
        Error::IOError(e)
    }
}

/// How the body is stored, with the sizes that the header gives for it.
#[derive(Copy, Clone, Debug, PartialEq, Eq, Structural)]
pub enum DocumentType {
    Uncompressed,
    Snappy { compressed_size: u64 },
    ZLib { compressed_size: u64, uncompressed_size: u64 },
    ZStd { compressed_size: u64 },
}

/// What a [`Header`] holds, as plain values.
pub struct HeaderView {
    pub doc_type: DocumentType,
    pub metadata: Option<Seq<u8>>,
}

/// A frame header.
#[derive(Debug, PartialEq)]
pub struct Header {
    doc_type: DocumentType,
    metadata: Option<Vec<u8>>,
}

impl View for Header {
    type V = HeaderView;

    closed spec fn view(&self) -> HeaderView {
        HeaderView {
            doc_type: self.doc_type,
            metadata: match self.metadata {
                Some(bytes) => Some(bytes@),
                None => None,
            },
        }
    }
}

/// Whether protocol version `proto` goes with the magic `magic`: version 2 with
/// the older magic, versions 3 and 4 with the newer one.
pub open spec fn version_accepted(magic: u32, proto: u8) -> bool {
    ||| proto == PROTO_V2 && magic == MAGIC_V1
    ||| proto == PROTO_V3 && magic == MAGIC_V3
    ||| proto == PROTO_V4 && magic == MAGIC_V3
}

/// Whether protocol version `proto` has the document type `doctype`.
pub open spec fn type_accepted(proto: u8, doctype: u8) -> bool {
    ||| doctype == TYPE_RAW
    ||| doctype == TYPE_SNAPPY && proto >= PROTO_V2
    ||| doctype == TYPE_ZLIB && proto >= PROTO_V3
    ||| doctype == TYPE_ZSTD && proto >= PROTO_V4
}

/// The suffix at `pos`: its length, then, unless that is zero, a flags byte and
/// one byte less than the length says. The bytes are user metadata if the
/// lowest flag is set, and are passed over otherwise.
pub open spec fn spec_read_suffix(input: Seq<u8>, pos: nat, max_suffix_len: u64) -> Result<
    (Option<Seq<u8>>, nat),
    Error,
> {
    match reader::spec_read_varint(input, pos) {
        Err(e) => Err(Error::IOError(e)),
        Ok((suffix_len, start)) => if suffix_len > max_suffix_len {
            Err(Error::SuffixTooLarge)
        } else if suffix_len == 0 {
            Ok((None, start))
        } else {
            match reader::spec_read_u8(input, start) {
                Err(e) => Err(Error::IOError(e)),
                Ok((flags, body)) => if suffix_len - 1 > usize::MAX {
                    Err(Error::SuffixTooLarge)
                } else {
                    match reader::spec_read_bytes(input, body, (suffix_len - 1) as nat) {
                        Err(e) => Err(Error::IOError(e)),
                        Ok((bytes, end)) => if flags % 2 == 1 {
                            Ok((Some(bytes), end))
                        } else {
                            Ok((None, end))
                        },
                    }
                },
            }
        },
    }
}

/// The sizes that follow the suffix of a document of type `doctype`: none for
/// a raw body, the compressed size for Snappy and Zstandard, and for zlib the
/// uncompressed size and then the compressed size.
pub open spec fn spec_read_sizes(input: Seq<u8>, pos: nat, doctype: u8) -> Result<
    (DocumentType, nat),
    Error,
> {
    if doctype == TYPE_RAW {
        Ok((DocumentType::Uncompressed, pos))
    } else {
        match reader::spec_read_varint(input, pos) {
            Err(e) => Err(Error::IOError(e)),
            Ok((first, next)) => if doctype == TYPE_SNAPPY {
                Ok((DocumentType::Snappy { compressed_size: first }, next))
            } else if doctype == TYPE_ZSTD {
                Ok((DocumentType::ZStd { compressed_size: first }, next))
            } else {
                match reader::spec_read_varint(input, next) {
                    Err(e) => Err(Error::IOError(e)),
                    Ok((second, end)) => Ok(
                        (
                            DocumentType::ZLib { compressed_size: second, uncompressed_size: first },
                            end,
                        ),
                    ),
                }
            },
        }
    }
}

/// The header at `pos` and the position of the first byte after it.
///
/// Four bytes of magic come first, then one byte whose low half is the protocol
/// version and whose high half is the document type. Both are held against what
/// is accepted before anything else is read. Then come the suffix and the sizes.
pub open spec fn spec_read_header(input: Seq<u8>, pos: nat, max_suffix_len: u64) -> Result<
    (HeaderView, nat),
    Error,
> {
    match reader::spec_read_word(input, pos, 4) {
        Err(e) => Err(Error::IOError(e)),
        Ok((magic, after_magic)) => if magic != MAGIC_V1 && magic != MAGIC_V3 {
            Err(Error::InvalidMagic)
        } else {
            match reader::spec_read_u8(input, after_magic) {
                Err(e) => Err(Error::IOError(e)),
                Ok((version_type, after_version)) => {
                    let proto = version_type % 16;
                    let doctype = version_type / 16;
                    if !version_accepted(magic as u32, proto) {
                        Err(Error::InvalidVersion)
                    } else if !type_accepted(proto, doctype) {
                        Err(Error::InvalidType)
                    } else {
                        match spec_read_suffix(input, after_version, max_suffix_len) {
                            Err(e) => Err(e),
                            Ok((metadata, after_suffix)) => match spec_read_sizes(
                                input,
                                after_suffix,
                                doctype,
                            ) {
                                Err(e) => Err(e),
                                Ok((doc_type, end)) => Ok((HeaderView { doc_type, metadata }, end)),
                            },
                        }
                    }
                },
            }
        },
    }
}

/// A header that is read ends inside the bytes it was read from.
pub proof fn lemma_header_end(input: Seq<u8>, pos: nat, max_suffix_len: u64)
    ensures
        spec_read_header(input, pos, max_suffix_len) matches Ok((head, end)) ==> pos < end
            <= input.len(),
{
    if let Ok((magic, after_magic)) = reader::spec_read_word(input, pos, 4) {
        if let Ok((version_type, after_version)) = reader::spec_read_u8(input, after_magic) {
            crate::varint::lemma_varint_end(reader::remaining(input, after_version));
            if let Ok((suffix_len, start)) = reader::spec_read_varint(input, after_version) {
                if let Ok((metadata, after_suffix)) = spec_read_suffix(
                    input,
                    after_version,
                    max_suffix_len,
                ) {
                    crate::varint::lemma_varint_end(reader::remaining(input, after_suffix));
                    if let Ok((first, next)) = reader::spec_read_varint(input, after_suffix) {
                        crate::varint::lemma_varint_end(reader::remaining(input, next));
                    }
                }
            }
        }
    }
}

proof fn lemma_nibbles(b: u8)
    by (bit_vector)
    ensures
        b & 0xf == b % 16,
        (b & 0xf0) >> 4 == b / 16,
        (b & 1 != 0) == (b % 2 == 1),
{
}

/// Reads the suffix at the cursor.
fn read_suffix(reader: &mut Reader, config: &Config) -> (r: Result<Option<Vec<u8>>, Error>)
    ensures
        final(reader)@.input == old(reader)@.input,
        match spec_read_suffix(old(reader)@.input, old(reader)@.pos, config@.max_suffix_len) {
            Ok((metadata, end)) => r is Ok && final(reader)@.pos == end && match metadata {
                Some(bytes) => r->Ok_0 is Some && r->Ok_0->Some_0@ == bytes,
                None => r->Ok_0 is None,
            },
            Err(e) => r == Err::<Option<Vec<u8>>, Error>(e),
        },
{
    let suffix_len: u64 = match reader.read_varint() {
        Ok(v) => v,
        Err(e) => return Err(Error::from(e)),
    };
    if suffix_len > config.max_suffix_len() {
        return Err(Error::SuffixTooLarge);
    }
    if suffix_len == 0 {
        return Ok(None);
    }
    let flags: u8 = match reader.read_u8() {
        Ok(v) => v,
        Err(e) => return Err(Error::from(e)),
    };
    let size: u64 = suffix_len - 1;
    if size > usize::MAX as u64 {
        return Err(Error::SuffixTooLarge);
    }
    let bytes = match reader.read_bytes(size as usize) {
        Ok(v) => v,
        Err(e) => return Err(Error::from(e)),
    };
    proof {
        lemma_nibbles(flags);
    }
    if flags & OPT_USER_METADATA != 0 {
        Ok(Some(vstd::slice::slice_to_vec(bytes)))
    } else {
        Ok(None)
    }
}

/// Reads the sizes that a document of type `doctype` has after its suffix.
fn read_sizes(reader: &mut Reader, doctype: u8) -> (r: Result<DocumentType, Error>)
    requires
        doctype == TYPE_RAW || doctype == TYPE_SNAPPY || doctype == TYPE_ZLIB || doctype
            == TYPE_ZSTD,
    ensures
        final(reader)@.input == old(reader)@.input,
        match spec_read_sizes(old(reader)@.input, old(reader)@.pos, doctype) {
            Ok((doc_type, end)) => r == Ok::<DocumentType, Error>(doc_type) && final(reader)@.pos
                == end,
            Err(e) => r == Err::<DocumentType, Error>(e),
        },
{
    if doctype == TYPE_RAW {
        return Ok(DocumentType::Uncompressed);
    }
    let first: u64 = match reader.read_varint() {
        Ok(v) => v,
        Err(e) => return Err(Error::from(e)),
    };
    if doctype == TYPE_SNAPPY {
        Ok(DocumentType::Snappy { compressed_size: first })
    } else if doctype == TYPE_ZSTD {
        Ok(DocumentType::ZStd { compressed_size: first })
    } else {
        let second: u64 = match reader.read_varint() {
            Ok(v) => v,
            Err(e) => return Err(Error::from(e)),
        };
        Ok(DocumentType::ZLib { compressed_size: second, uncompressed_size: first })
    }
}

impl Header {
    /// Reads the header at the cursor and leaves the cursor at the first byte of
    /// the body. On an error no more is said of where the cursor stands.
    pub fn read(reader: &mut Reader, config: &Config) -> (r: Result<Header, Error>)
        ensures
            final(reader)@.input == old(reader)@.input,
            match spec_read_header(old(reader)@.input, old(reader)@.pos, config@.max_suffix_len) {
                Ok((header, end)) => r is Ok && r->Ok_0@ == header && final(reader)@.pos == end,
                Err(e) => r == Err::<Header, Error>(e),
            },
    {
        let magic: u32 = match reader.read_u32() {
            Ok(v) => v,
            Err(e) => return Err(Error::from(e)),
        };
        if magic != MAGIC_V1 && magic != MAGIC_V3 {
            return Err(Error::InvalidMagic);
        }
        let version_type: u8 = match reader.read_u8() {
            Ok(v) => v,
            Err(e) => return Err(Error::from(e)),
        };
        proof {
            lemma_nibbles(version_type);
        }
        let proto: u8 = version_type & 0xf;
        let doctype: u8 = (version_type & 0xf0) >> 4;
        let accepted: bool = (proto == PROTO_V2 && magic == MAGIC_V1) || (proto == PROTO_V3 && magic
            == MAGIC_V3) || (proto == PROTO_V4 && magic == MAGIC_V3);
        if !accepted {
            return Err(Error::InvalidVersion);
        }
        let known: bool = doctype == TYPE_RAW || (doctype == TYPE_SNAPPY && proto >= PROTO_V2) || (
        doctype == TYPE_ZLIB && proto >= PROTO_V3) || (doctype == TYPE_ZSTD && proto >= PROTO_V4);
        if !known {
            return Err(Error::InvalidType);
        }
        let meta = read_suffix(reader, config)?;
        let doc_type = read_sizes(reader, doctype)?;
        Ok(Header { doc_type: doc_type, metadata: meta })
    }

    /// How the body is stored.
    pub fn document_type(&self) -> (t: DocumentType)
        ensures
            t == self@.doc_type,
    {
        self.doc_type
    }

    /// The user metadata, to be changed in place.
    pub fn user_metadata_mut(&mut self) -> (m: &mut Option<Vec<u8>>)
        ensures
            match old(self)@.metadata {
                Some(bytes) => *m is Some && m->Some_0@ == bytes,
                None => *m is None,
            },
            final(self)@.doc_type == old(self)@.doc_type,
            match final(self)@.metadata {
                Some(bytes) => *final(m) is Some && final(m)->Some_0@ == bytes,
                None => *final(m) is None,
            },
    {
        &mut self.metadata
    }

    /// The user metadata, if the header has any.
    pub fn user_metadata(&self) -> (m: &Option<Vec<u8>>)
        ensures
            match self@.metadata {
                Some(bytes) => *m is Some && m->Some_0@ == bytes,
                None => *m is None,
            },
    {
        &self.metadata
    }
}

} // verus!
