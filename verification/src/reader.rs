//! A cursor over the bytes of a document body.
use vstd::prelude::*;
use vstd::std_specs::convert::FromSpecImpl;
use byteorder::ByteOrder;
use byteorder::LittleEndian;
use crate::constants::PAD;
use crate::constants::TYPE_MASK;
use crate::varint;

verus! {

/// Why the cursor could not read what was asked of it.
#[derive(Debug, Clone, Copy, PartialEq, Eq, Structural)]
pub enum Error {
    /// The buffer ends before the item does.
    UnexpectedEof,
    /// A length or an offset does not fit the machine's offset type.
    OffsetOverflow,
    /// A varint goes on past its tenth byte.
    VarintOverflow,
}

/// The cursor's error for a varint's error.
pub open spec fn of_varint_error(e: varint::Error) -> Error {
    match e {
        varint::Error::UnexpectedEof => Error::UnexpectedEof,
        varint::Error::Overflow => Error::VarintOverflow,
    }
}

impl From<varint::Error> for Error {
    fn from(e: varint::Error) -> (r: Error) {
        match e {
            varint::Error::UnexpectedEof => Error::UnexpectedEof,
            varint::Error::Overflow => Error::VarintOverflow,
        }
    }
}

impl FromSpecImpl<varint::Error> for Error {
    open spec fn obeys_from_spec() -> bool {
        true
    }

    open spec fn from_spec(e: varint::Error) -> Error {
        of_varint_error(e)
    }
}

/// The bytes of `input` from `pos` on; none if `pos` lies past the end.
pub open spec fn remaining(input: Seq<u8>, pos: nat) -> Seq<u8> {
    if pos <= input.len() {
        input.subrange(pos as int, input.len() as int)
    } else {
        Seq::empty()
    }
}

/// Whether `b` is a padding byte, with or without the track bit.
pub open spec fn is_pad(b: u8) -> bool {
    b & TYPE_MASK == PAD
}

/// The first byte at or after `pos` that is no padding, and the position after it.
pub open spec fn spec_read_tag(input: Seq<u8>, pos: nat) -> Result<(u8, nat), Error>
    decreases input.len() - pos,
{
    if pos >= input.len() {
        Err(Error::UnexpectedEof)
    } else if !is_pad(input[pos as int]) {
        Ok((input[pos as int], pos + 1))
    } else {
        spec_read_tag(input, pos + 1)
    }
}

/// The 32-bit word whose little-endian bytes are the first four of `b`.
pub open spec fn spec_le_u32(b: Seq<u8>) -> u32 {
    (b[0] + b[1] * 0x100 + b[2] * 0x1_0000 + b[3] * 0x100_0000) as u32
}

/// The 64-bit word whose little-endian bytes are the first eight of `b`.
pub open spec fn spec_le_u64(b: Seq<u8>) -> u64 {
    (spec_le_u32(b) + spec_le_u32(b.subrange(4, 8)) * 0x1_0000_0000) as u64
}

/// The word of `width` bytes (four or eight) at `pos`, and the position after it.
pub open spec fn spec_read_word(input: Seq<u8>, pos: nat, width: nat) -> Result<(u64, nat), Error> {
    if remaining(input, pos).len() < width {
        Err(Error::UnexpectedEof)
    } else if width == 4 {
        Ok((spec_le_u32(remaining(input, pos)) as u64, pos + 4))
    } else {
        Ok((spec_le_u64(remaining(input, pos)), pos + 8))
    }
}

/// The byte at `pos` and the position after it.
pub open spec fn spec_read_u8(input: Seq<u8>, pos: nat) -> Result<(u8, nat), Error> {
    if pos < input.len() {
        Ok((input[pos as int], pos + 1))
    } else {
        Err(Error::UnexpectedEof)
    }
}

/// The varint at `pos` and the position after it.
pub open spec fn spec_read_varint(input: Seq<u8>, pos: nat) -> Result<(u64, nat), Error> {
    match varint::spec_parse_varint(remaining(input, pos)) {
        Ok((v, len)) => Ok((v, pos + len as nat)),
        Err(e) => Err(of_varint_error(e)),
    }
}

/// The zig-zag varint at `pos` and the position after it.
pub open spec fn spec_read_zigzag(input: Seq<u8>, pos: nat) -> Result<(i64, nat), Error> {
    match spec_read_varint(input, pos) {
        Ok((v, end)) => Ok((varint::zigzag_decode(v), end)),
        Err(e) => Err(e),
    }
}

/// The varint at `pos` as an offset of this machine, and the position after it.
pub open spec fn spec_read_varlen(input: Seq<u8>, pos: nat) -> Result<(usize, nat), Error> {
    match spec_read_varint(input, pos) {
        Ok((v, end)) => if v <= usize::MAX {
            Ok((v as usize, end))
        } else {
            Err(Error::OffsetOverflow)
        },
        Err(e) => Err(e),
    }
}

/// The `len` bytes at `pos` and the position after them.
pub open spec fn spec_read_bytes(input: Seq<u8>, pos: nat, len: nat) -> Result<(Seq<u8>, nat), Error> {
    if pos + len > usize::MAX {
        Err(Error::OffsetOverflow)
    } else if pos + len <= input.len() {
        Ok((input.subrange(pos as int, (pos + len) as int), pos + len))
    } else {
        Err(Error::UnexpectedEof)
    }
}

/// Padding before a tag does not change what is read: from a padding byte the
/// same tag is found, at the same place, as from the byte after it.
pub proof fn lemma_read_tag_skips_pad(input: Seq<u8>, pos: nat)
    requires
        pos < input.len(),
        is_pad(input[pos as int]),
    ensures
        spec_read_tag(input, pos) == spec_read_tag(input, pos + 1),
{
}

/// A tag that is read is no padding, and lies just before the position returned.
pub proof fn lemma_read_tag_found(input: Seq<u8>, pos: nat)
    ensures
        spec_read_tag(input, pos) matches Ok((tag, end)) ==> pos < end <= input.len() && tag
            == input[end - 1] && !is_pad(tag),
        spec_read_tag(input, pos) matches Err(e) ==> e == Error::UnexpectedEof,
    decreases input.len() - pos,
{
    if pos < input.len() && is_pad(input[pos as int]) {
        lemma_read_tag_found(input, pos + 1);
    }
}

/// An offset that is read ends behind where it starts, at a position that
/// lies in the buffer.
pub proof fn lemma_varlen_end(input: Seq<u8>, pos: nat)
    ensures
        spec_read_varlen(input, pos) matches Ok((v, end)) ==> pos < end <= input.len(),
{
    varint::lemma_varint_end(remaining(input, pos));
}

/// `byteorder::LittleEndian::read_u32`: the first four bytes of `buf` as a
/// little-endian word. It panics on fewer than four bytes, which `requires` rules out.
#[verifier::external_body]
pub(crate) fn le_read_u32(buf: &[u8]) -> (v: u32)
    requires
        buf@.len() >= 4,
    ensures
        v == spec_le_u32(buf@),
{
    LittleEndian::read_u32(buf)
}

/// `byteorder::LittleEndian::read_u64`: the first eight bytes of `buf` as a
/// little-endian word. It panics on fewer than eight bytes, which `requires` rules out.
#[verifier::external_body]
pub(crate) fn le_read_u64(buf: &[u8]) -> (v: u64)
    requires
        buf@.len() >= 8,
    ensures
        v == spec_le_u64(buf@),
{
    LittleEndian::read_u64(buf)
}

/// Finds the first byte of `input` at or after `start` that is no padding.
fn find_tag(input: &[u8], start: usize) -> (r: Result<(u8, usize), Error>)
    ensures
        match spec_read_tag(input@, start as nat) {
            Ok((tag, end)) => r == Ok::<(u8, usize), Error>((tag, end as usize)) && end
                <= usize::MAX,
            Err(e) => r == Err::<(u8, usize), Error>(e),
        },
{
    let n: usize = input.len();
    let mut pos: usize = start;
    loop
        invariant
            start <= pos,
            n == input@.len(),
            spec_read_tag(input@, pos as nat) == spec_read_tag(input@, start as nat),
        decreases n - pos,
    {
        if pos >= n {
            return Err(Error::UnexpectedEof);
        }
        let tag: u8 = input[pos];
        pos += 1;
        if tag & TYPE_MASK != PAD {
            return Ok((tag, pos));
        }
    }
}

/// The state of a [`Reader`]: the buffer it reads and where it stands.
pub struct ReaderView {
    pub input: Seq<u8>,
    pub pos: nat,
}

/// A cursor over a byte buffer that it borrows. Slices that it hands out borrow
/// from the buffer, not from the cursor. A read that fails leaves the cursor where it was.
pub struct Reader<'buf> {
    input: &'buf [u8],
    pos: usize,
}

impl<'buf> View for Reader<'buf> {
    type V = ReaderView;

    closed spec fn view(&self) -> ReaderView {
        ReaderView { input: self.input@, pos: self.pos as nat }
    }
}

impl<'buf> Reader<'buf> {
    pub fn new(input: &'buf [u8]) -> (r: Self)
        ensures
            r@ == (ReaderView { input: input@, pos: 0 }),
    {
        Reader { input: input, pos: 0 }
    }

    /// The bytes from the cursor on.
    fn rest(&self) -> (s: &'buf [u8])
        ensures
            s@ == remaining(self@.input, self@.pos),
            self@.pos + s@.len() <= usize::MAX,
    {
        let input: &'buf [u8] = self.input;
        let n: usize = input.len();
        if self.pos <= n {
            vstd::slice::slice_subrange(input, self.pos, n)
        } else {
            vstd::slice::slice_subrange(input, 0, 0)
        }
    }

    /// Returns the next byte that is no padding and moves past it.
    pub fn read_tag(&mut self) -> (r: Result<u8, Error>)
        ensures
            final(self)@.input == old(self)@.input,
            match spec_read_tag(old(self)@.input, old(self)@.pos) {
                Ok((tag, end)) => r == Ok::<u8, Error>(tag) && final(self)@.pos == end,
                Err(e) => r == Err::<u8, Error>(e) && final(self)@.pos == old(self)@.pos,
            },
    {
        match find_tag(self.input, self.pos) {
            Ok((tag, end)) => {
                self.pos = end;
                Ok(tag)
            },
            Err(e) => Err(e),
        }
    }

    /// Returns the byte at the cursor, padding or not, and moves past it.
    pub fn read_u8(&mut self) -> (r: Result<u8, Error>)
        ensures
            final(self)@.input == old(self)@.input,
            match spec_read_u8(old(self)@.input, old(self)@.pos) {
                Ok((v, end)) => r == Ok::<u8, Error>(v) && final(self)@.pos == end,
                Err(e) => r == Err::<u8, Error>(e) && final(self)@.pos == old(self)@.pos,
            },
    {
        let input: &'buf [u8] = self.input;
        if self.pos < input.len() {
            let v: u8 = input[self.pos];
            self.pos += 1;
            Ok(v)
        } else {
            Err(Error::UnexpectedEof)
        }
    }

    /// Returns the little-endian 32-bit word at the cursor and moves past it.
    pub fn read_u32(&mut self) -> (r: Result<u32, Error>)
        ensures
            final(self)@.input == old(self)@.input,
            match spec_read_word(old(self)@.input, old(self)@.pos, 4) {
                Ok((v, end)) => r == Ok::<u32, Error>(v as u32) && final(self)@.pos == end,
                Err(e) => r == Err::<u32, Error>(e) && final(self)@.pos == old(self)@.pos,
            },
    {
        let buf = self.rest();
        if buf.len() < 4 {
            return Err(Error::UnexpectedEof);
        }
        self.pos += 4;
        Ok(le_read_u32(buf))
    }

    /// Returns the bits of the single-precision float at the cursor, which is stored
    /// as four little-endian bytes, and moves past them.
    pub fn read_f32(&mut self) -> (r: Result<u32, Error>)
        ensures
            final(self)@.input == old(self)@.input,
            match spec_read_word(old(self)@.input, old(self)@.pos, 4) {
                Ok((v, end)) => r == Ok::<u32, Error>(v as u32) && final(self)@.pos == end,
                Err(e) => r == Err::<u32, Error>(e) && final(self)@.pos == old(self)@.pos,
            },
    {
        self.read_u32()
    }

    /// Returns the bits of the double-precision float at the cursor, which is stored
    /// as eight little-endian bytes, and moves past them.
    pub fn read_f64(&mut self) -> (r: Result<u64, Error>)
        ensures
            final(self)@.input == old(self)@.input,
            match spec_read_word(old(self)@.input, old(self)@.pos, 8) {
                Ok((v, end)) => r == Ok::<u64, Error>(v) && final(self)@.pos == end,
                Err(e) => r == Err::<u64, Error>(e) && final(self)@.pos == old(self)@.pos,
            },
    {
        let buf = self.rest();
        if buf.len() < 8 {
            return Err(Error::UnexpectedEof);
        }
        self.pos += 8;
        Ok(le_read_u64(buf))
    }

    /// Reads the varint at the cursor and moves past it.
    pub fn read_varint(&mut self) -> (r: Result<u64, Error>)
        ensures
            final(self)@.input == old(self)@.input,
            match spec_read_varint(old(self)@.input, old(self)@.pos) {
                Ok((v, end)) => r == Ok::<u64, Error>(v) && final(self)@.pos == end,
                Err(e) => r == Err::<u64, Error>(e) && final(self)@.pos == old(self)@.pos,
            },
    {
        match varint::parse_varint(self.rest()) {
            Ok((val, len)) => {
                proof {
                    varint::lemma_varint_end(remaining(self@.input, self@.pos));
                }
                self.pos += len;
                Ok(val)
            },
            Err(e) => Err(Error::from(e)),
        }
    }

    /// Reads the zig-zag varint at the cursor and moves past it.
    pub fn read_zigzag(&mut self) -> (r: Result<i64, Error>)
        ensures
            final(self)@.input == old(self)@.input,
            match spec_read_zigzag(old(self)@.input, old(self)@.pos) {
                Ok((v, end)) => r == Ok::<i64, Error>(v) && final(self)@.pos == end,
                Err(e) => r == Err::<i64, Error>(e) && final(self)@.pos == old(self)@.pos,
            },
    {
        match self.read_varint() {
            Ok(val) => Ok(varint::straighten(val)),
            Err(e) => Err(e),
        }
    }

    /// Reads the varint at the cursor as an offset of this machine and moves past it.
    pub fn read_varlen(&mut self) -> (r: Result<usize, Error>)
        ensures
            final(self)@.input == old(self)@.input,
            match spec_read_varlen(old(self)@.input, old(self)@.pos) {
                Ok((v, end)) => r == Ok::<usize, Error>(v) && final(self)@.pos == end,
                Err(e) => r == Err::<usize, Error>(e) && final(self)@.pos == old(self)@.pos,
            },
    {
        let start: usize = self.pos;
        let len: u64 = self.read_varint()?;
        if len <= usize::MAX as u64 {
            Ok(len as usize)
        } else {
            self.pos = start;
            Err(Error::OffsetOverflow)
        }
    }

    /// Returns the `len` bytes at the cursor, borrowed from the buffer, and moves past them.
    pub fn read_bytes(&mut self, len: usize) -> (r: Result<&'buf [u8], Error>)
        ensures
            final(self)@.input == old(self)@.input,
            match spec_read_bytes(old(self)@.input, old(self)@.pos, len as nat) {
                Ok((bytes, end)) => r is Ok && r->Ok_0@ == bytes && final(self)@.pos == end,
                Err(e) => r == Err::<&[u8], Error>(e) && final(self)@.pos == old(self)@.pos,
            },
    {
        let beg: usize = self.pos;
        if len > usize::MAX - beg {
            return Err(Error::OffsetOverflow);
        }
        let end: usize = beg + len;
        let input: &'buf [u8] = self.input;
        if end <= input.len() {
            self.pos = end;
            Ok(vstd::slice::slice_subrange(input, beg, end))
        } else {
            Err(Error::UnexpectedEof)
        }
    }

    /// The position of a cursor is one that the machine can address.
    pub proof fn lemma_pos_fits(&self)
        ensures
            self@.pos <= usize::MAX,
    {
    }

    /// The position of the cursor.
    pub fn pos(&self) -> (p: usize)
        ensures
            p == self@.pos,
    {
        self.pos
    }

    /// Moves the cursor to `new` and returns where it stood.
    pub fn set_pos(&mut self, new: usize) -> (prev: usize)
        ensures
            prev == old(self)@.pos,
            final(self)@ == (ReaderView { input: old(self)@.input, pos: new as nat }),
    {
        let prev: usize = self.pos;
        self.pos = new;
        prev
    }

    /// The length of the buffer.
    pub fn len(&self) -> (n: usize)
        ensures
            n == self@.input.len(),
    {
        self.input.len()
    }
}

} // verus!
