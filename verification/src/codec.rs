//! The codecs of compressed bodies, which outside crates provide.
use vstd::prelude::*;

verus! {

/// The number of bytes that the header of the Snappy block `input` announces,
/// if it has one.
pub uninterp spec fn snappy_length(input: Seq<u8>) -> Option<usize>;

/// The bytes that the Snappy block `input` decompresses to, if it is one.
pub uninterp spec fn snappy_decoded(input: Seq<u8>) -> Option<Seq<u8>>;

/// The first `size` bytes that the zlib stream `input` decompresses to, if it
/// is one and has that many.
pub uninterp spec fn zlib_decoded(input: Seq<u8>, size: usize) -> Option<Seq<u8>>;

/// The bytes that the Zstandard frames of `input` decompress to, if it holds such.
pub uninterp spec fn zstd_decoded(input: Seq<u8>) -> Option<Seq<u8>>;

/// `snap::raw::decompress_len`: the number of bytes that the header of the
/// Snappy block `input` announces, or nothing where the crate reports an error.
#[verifier::external_body]
pub(crate) fn snappy_len(input: &[u8]) -> (r: Option<usize>)
    ensures
        r == snappy_length(input@),
{
    snap::raw::decompress_len(input).ok()
}

/// `snap::raw::Decoder::decompress_vec` on a new decoder: the bytes of the
/// Snappy block `input`, or nothing where the crate reports an error. It
/// allocates as many bytes as the header announces, and panics on more than
/// can be allocated, which `requires` rules out.
#[verifier::external_body]
pub(crate) fn snappy_decode(input: &[u8]) -> (r: Option<Vec<u8>>)
    requires
        snappy_length(input@) matches Some(len) && len <= isize::MAX,
    ensures
        match r {
            Some(bytes) => snappy_decoded(input@) == Some(bytes@),
            None => snappy_decoded(input@) is None,
        },
{
    snap::raw::Decoder::new().decompress_vec(input).ok()
}

/// `flate2::read::ZlibDecoder` over `input`, read until `size` bytes are had:
/// those bytes, or nothing where the read reports an error because the stream
/// is malformed or ends before them. The buffer for them is allocated before,
/// which panics on more than can be allocated: `requires` rules that out.
#[verifier::external_body]
pub(crate) fn zlib_decode(input: &[u8], size: usize) -> (r: Option<Vec<u8>>)
    requires
        size <= isize::MAX,
    ensures
        match r {
            Some(bytes) => zlib_decoded(input@, size) == Some(bytes@),
            None => zlib_decoded(input@, size) is None,
        },
{
    let mut buf: Vec<u8> = vec![0; size];
    let mut decoder = flate2::read::ZlibDecoder::new(input);
    match std::io::Read::read_exact(&mut decoder, &mut buf) {
        Ok(_) => Some(buf),
        Err(_) => None,
    }
}

/// `zstd::stream::decode_all`: the bytes of the Zstandard frames of `input`,
/// or nothing where the decoder reports an error.
#[verifier::external_body]
pub(crate) fn zstd_decode(input: &[u8]) -> (r: Option<Vec<u8>>)
    ensures
        match r {
            Some(bytes) => zstd_decoded(input@) == Some(bytes@),
            None => zstd_decoded(input@) is None,
        },
{
    zstd::stream::decode_all(input).ok()
}

} // verus!
