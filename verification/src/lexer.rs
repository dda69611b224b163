//! The body as a stream of tokens: every tag with its payload, one at a time,
//! with nothing resolved and nothing built.
use vstd::prelude::*;
use crate::config::Config;
use crate::config::ConfigView;
use crate::constants::ALIAS;
use crate::constants::ARRAY;
use crate::constants::ARRAYREF_0;
use crate::constants::ARRAYREF_15;
use crate::constants::BINARY;
use crate::constants::CANONICAL_UNDEF;
use crate::constants::COPY;
use crate::constants::DOUBLE;
use crate::constants::FALSE;
use crate::constants::FLOAT;
use crate::constants::HASH;
use crate::constants::HASHREF_0;
use crate::constants::HASHREF_15;
use crate::constants::NEG_1;
use crate::constants::OBJECT;
use crate::constants::OBJECTV;
use crate::constants::OBJECTV_FREEZE;
use crate::constants::OBJECT_FREEZE;
use crate::constants::POS_15;
use crate::constants::REFN;
use crate::constants::REFP;
use crate::constants::REGEXP;
use crate::constants::SHORT_BINARY_0;
use crate::constants::SHORT_BINARY_31;
use crate::constants::STR_UTF8;
use crate::constants::TRACK_BIT;
use crate::constants::TRUE;
use crate::constants::TYPE_MASK;
use crate::constants::UNDEF;
use crate::constants::VARINT;
use crate::constants::WEAKEN;
use crate::constants::ZIGZAG;
use crate::reader;
use crate::reader::Reader;

verus! {

/// Why no token could be read.
#[derive(Debug, Clone, Copy, PartialEq, Eq, Structural)]
pub enum Error {
    UnexpectedEof,
    VarintOverflow,
    /// A string is longer than the configuration, or this machine, allows.
    StringTooLarge(u64),
    /// A tag that this decoder does not support, without its track bit.
    UnknownTag(u8),
}

impl Error {
    pub fn is_eof(&self) -> (b: bool)
        ensures
            b == (*self is UnexpectedEof),
    {
        match *self {
            Error::UnexpectedEof => true,
            _ => false,
        }
    }

    pub fn is_varint_overflow(&self) -> (b: bool)
        ensures
            b == (*self is VarintOverflow),
    {
        match *self {
            Error::VarintOverflow => true,
            _ => false,
        }
    }

    pub fn is_unknown_tag(&self) -> (b: bool)
        ensures
            b == (*self is UnknownTag),
    {
        self.as_unknown_tag().is_some()
    }

    pub fn as_unknown_tag(&self) -> (t: Option<u8>)
        ensures
            t == match *self {
                Error::UnknownTag(t) => Some(t),
                _ => None,
            },
    {
        match *self {
            Error::UnknownTag(t) => Some(t),
            _ => None,
        }
    }
}

/// The lexer's error for an error in reading a varint: the bytes end, or the
/// varint goes on too long.
pub open spec fn of_varint_error(e: reader::Error) -> Error {
    match e {
        reader::Error::VarintOverflow => Error::VarintOverflow,
        _ => Error::UnexpectedEof,
    }
}

/// A tag and its payload.
#[derive(Debug, Clone, Copy, PartialEq, Eq)]
pub enum Tag<'a> {
    Undef,
    CanonicalUndef,
    True,
    False,
    Pos(u8),
    Neg(i8),
    Varint(u64),
    Zigzag(i64),
    /// The bits of a single-precision float.
    Float(u32),
    /// The bits of a double-precision float.
    Double(u64),
    Refn,
    Refp(u64),
    Alias(u64),
    Copy(u64),
    Array(u64),
    ArrayRef(u8),
    Hash(u64),
    HashRef(u8),
    Bin(&'a [u8]),
    Str(&'a [u8]),
    Object,
    ObjectV(u64),
    ObjectFreeze,
    ObjectVFreeze(u64),
    Weaken,
    Regexp,
}

/// A [`Tag`] as plain values.
pub enum TagView {
    Undef,
    CanonicalUndef,
    True,
    False,
    Pos(u8),
    Neg(i8),
    Varint(u64),
    Zigzag(i64),
    Float(u32),
    Double(u64),
    Refn,
    Refp(u64),
    Alias(u64),
    Copy(u64),
    Array(u64),
    ArrayRef(u8),
    Hash(u64),
    HashRef(u8),
    Bin(Seq<u8>),
    Str(Seq<u8>),
    Object,
    ObjectV(u64),
    ObjectFreeze,
    ObjectVFreeze(u64),
    Weaken,
    Regexp,
}

impl<'a> View for Tag<'a> {
    type V = TagView;

    open spec fn view(&self) -> TagView {
        match *self {
            Tag::Undef => TagView::Undef,
            Tag::CanonicalUndef => TagView::CanonicalUndef,
            Tag::True => TagView::True,
            Tag::False => TagView::False,
            Tag::Pos(v) => TagView::Pos(v),
            Tag::Neg(v) => TagView::Neg(v),
            Tag::Varint(v) => TagView::Varint(v),
            Tag::Zigzag(v) => TagView::Zigzag(v),
            Tag::Float(v) => TagView::Float(v),
            Tag::Double(v) => TagView::Double(v),
            Tag::Refn => TagView::Refn,
            Tag::Refp(v) => TagView::Refp(v),
            Tag::Alias(v) => TagView::Alias(v),
            Tag::Copy(v) => TagView::Copy(v),
            Tag::Array(v) => TagView::Array(v),
            Tag::ArrayRef(v) => TagView::ArrayRef(v),
            Tag::Hash(v) => TagView::Hash(v),
            Tag::HashRef(v) => TagView::HashRef(v),
            Tag::Bin(s) => TagView::Bin(s@),
            Tag::Str(s) => TagView::Str(s@),
            Tag::Object => TagView::Object,
            Tag::ObjectV(v) => TagView::ObjectV(v),
            Tag::ObjectFreeze => TagView::ObjectFreeze,
            Tag::ObjectVFreeze(v) => TagView::ObjectVFreeze(v),
            Tag::Weaken => TagView::Weaken,
            Tag::Regexp => TagView::Regexp,
        }
    }
}

/// One token of the body.
#[derive(Debug, Clone, Copy, PartialEq, Eq)]
pub struct Token<'a> {
    /// The offset of the tag byte, counted from one: what a reference to this
    /// token is written as.
    pub pos: u64,
    /// Whether the tag has its track bit.
    pub track: bool,
    pub tag: Tag<'a>,
}

/// A [`Token`] as plain values.
pub struct TokenView {
    pub pos: u64,
    pub track: bool,
    pub tag: TagView,
}

impl<'a> View for Token<'a> {
    type V = TokenView;

    open spec fn view(&self) -> TokenView {
        TokenView { pos: self.pos, track: self.track, tag: self.tag@ }
    }
}

/// The `len` bytes of a string at `pos`, unless `len` is over the bound on
/// strings or does not fit the machine's offset type.
pub open spec fn spec_string(buf: Seq<u8>, cfg: ConfigView, pos: nat, len: u64) -> Result<
    (Seq<u8>, nat),
    Error,
> {
    if len > cfg.max_string_len || len > usize::MAX || pos + len > usize::MAX {
        Err(Error::StringTooLarge(len))
    } else if pos + len > buf.len() {
        Err(Error::UnexpectedEof)
    } else {
        Ok((buf.subrange(pos as int, pos + len), pos + len as nat))
    }
}

/// The varint at `pos` and the position after it.
pub open spec fn spec_number(buf: Seq<u8>, pos: nat) -> Result<(u64, nat), Error> {
    match reader::spec_read_varint(buf, pos) {
        Ok(found) => Ok(found),
        Err(e) => Err(of_varint_error(e)),
    }
}

/// The payload of a tag of type `tag` at `pos`, and the position after it.
pub open spec fn spec_payload(buf: Seq<u8>, cfg: ConfigView, pos: nat, tag: u8) -> Result<
    (TagView, nat),
    Error,
> {
    if tag <= POS_15 {
        Ok((TagView::Pos(tag), pos))
    } else if tag <= NEG_1 {
        Ok((TagView::Neg((tag - 32) as i8), pos))
    } else if tag == ZIGZAG {
        match spec_number(buf, pos) {
            Ok((v, end)) => Ok((TagView::Zigzag(crate::varint::zigzag_decode(v)), end)),
            Err(e) => Err(e),
        }
    } else if tag == FLOAT {
        match reader::spec_read_word(buf, pos, 4) {
            Ok((v, end)) => Ok((TagView::Float(v as u32), end)),
            Err(e) => Err(Error::UnexpectedEof),
        }
    } else if tag == DOUBLE {
        match reader::spec_read_word(buf, pos, 8) {
            Ok((v, end)) => Ok((TagView::Double(v), end)),
            Err(e) => Err(Error::UnexpectedEof),
        }
    } else if tag == UNDEF {
        Ok((TagView::Undef, pos))
    } else if tag == CANONICAL_UNDEF {
        Ok((TagView::CanonicalUndef, pos))
    } else if tag == TRUE {
        Ok((TagView::True, pos))
    } else if tag == FALSE {
        Ok((TagView::False, pos))
    } else if tag == REFN {
        Ok((TagView::Refn, pos))
    } else if tag == OBJECT {
        Ok((TagView::Object, pos))
    } else if tag == OBJECT_FREEZE {
        Ok((TagView::ObjectFreeze, pos))
    } else if tag == WEAKEN {
        Ok((TagView::Weaken, pos))
    } else if tag == REGEXP {
        Ok((TagView::Regexp, pos))
    } else if ARRAYREF_0 <= tag <= ARRAYREF_15 {
        Ok((TagView::ArrayRef((tag - ARRAYREF_0) as u8), pos))
    } else if HASHREF_0 <= tag <= HASHREF_15 {
        Ok((TagView::HashRef((tag - HASHREF_0) as u8), pos))
    } else if SHORT_BINARY_0 <= tag <= SHORT_BINARY_31 {
        match spec_string(buf, cfg, pos, (tag - SHORT_BINARY_0) as u64) {
            Ok((bytes, end)) => Ok((TagView::Bin(bytes), end)),
            Err(e) => Err(e),
        }
    } else if tag == BINARY || tag == STR_UTF8 {
        match spec_number(buf, pos) {
            Err(e) => Err(e),
            Ok((len, start)) => match spec_string(buf, cfg, start, len) {
                Ok((bytes, end)) => Ok(
                    (
                        if tag == BINARY {
                            TagView::Bin(bytes)
                        } else {
                            TagView::Str(bytes)
                        },
                        end,
                    ),
                ),
                Err(e) => Err(e),
            },
        }
    } else if tag == VARINT || tag == REFP || tag == ARRAY || tag == HASH || tag == OBJECTV || tag
        == ALIAS || tag == COPY || tag == OBJECTV_FREEZE {
        match spec_number(buf, pos) {
            Err(e) => Err(e),
            Ok((v, end)) => Ok(
                (
                    if tag == VARINT {
                        TagView::Varint(v)
                    } else if tag == REFP {
                        TagView::Refp(v)
                    } else if tag == ARRAY {
                        TagView::Array(v)
                    } else if tag == HASH {
                        TagView::Hash(v)
                    } else if tag == OBJECTV {
                        TagView::ObjectV(v)
                    } else if tag == ALIAS {
                        TagView::Alias(v)
                    } else if tag == COPY {
                        TagView::Copy(v)
                    } else {
                        TagView::ObjectVFreeze(v)
                    },
                    end,
                ),
            ),
        }
    } else {
        Err(Error::UnknownTag(tag))
    }
}

/// The token at `pos`, padding skipped, and the position after it.
pub open spec fn spec_lex(buf: Seq<u8>, cfg: ConfigView, pos: nat) -> Result<(TokenView, nat), Error> {
    match reader::spec_read_tag(buf, pos) {
        Err(e) => Err(Error::UnexpectedEof),
        Ok((byte, after)) => match spec_payload(buf, cfg, after, byte & TYPE_MASK) {
            Ok((tag, end)) => Ok(
                (TokenView { pos: after as u64, track: byte & TRACK_BIT == TRACK_BIT, tag }, end),
            ),
            Err(e) => Err(e),
        },
    }
}

proof fn lemma_tag_bits(byte: u8)
    by (bit_vector)
    ensures
        byte & TYPE_MASK < 0x80,
{
}

/// A reader of tokens.
pub struct Lexer<'a, 'b> {
    config: &'a Config,
    reader: Reader<'b>,
}

impl<'a, 'b> Lexer<'a, 'b> {
    /// The body that is read.
    pub closed spec fn input(&self) -> Seq<u8> {
        self.reader@.input
    }

    /// The bounds that are enforced.
    pub closed spec fn bounds(&self) -> ConfigView {
        self.config@
    }

    /// The read position.
    pub closed spec fn position(&self) -> nat {
        self.reader@.pos
    }

    /// A lexer at the start of `input`.
    pub fn new(config: &'a Config, input: &'b [u8]) -> (l: Lexer<'a, 'b>)
        ensures
            l.input() == input@,
            l.bounds() == config@,
            l.position() == 0,
    {
        Lexer { config: config, reader: Reader::new(input) }
    }

    /// What reading a payload owes: the lexer keeps its body and its bounds,
    /// and position and result are those of `spec_payload`.
    spec fn payload_post(before: &Self, after: &Self, r: Result<Tag<'b>, Error>, tag: u8) -> bool {
        &&& after.input() == before.input()
        &&& after.bounds() == before.bounds()
        &&& match spec_payload(before.input(), before.bounds(), before.position(), tag) {
            Ok((found, end)) => r is Ok && r->Ok_0@ == found && after.position() == end,
            Err(e) => r is Err && r->Err_0 == e,
        }
    }

    /// Reads the next token. On an error no more is said of where the lexer stands.
    pub fn next(&mut self) -> (r: Result<Token<'b>, Error>)
        ensures
            final(self).input() == old(self).input(),
            final(self).bounds() == old(self).bounds(),
            match spec_lex(old(self).input(), old(self).bounds(), old(self).position()) {
                Ok((token, end)) => r is Ok && r->Ok_0@ == token && final(self).position() == end,
                Err(e) => r is Err && r->Err_0 == e,
            },
    {
        let byte: u8 = match self.reader.read_tag() {
            Ok(byte) => byte,
            Err(_) => return Err(Error::UnexpectedEof),
        };
        let pos: u64 = self.reader.pos() as u64;
        let trk: bool = byte & TRACK_BIT == TRACK_BIT;
        let tag: u8 = byte & TYPE_MASK;
        proof {
            lemma_tag_bits(byte);
        }
        let value = if tag <= NEG_1 || tag == UNDEF || tag == CANONICAL_UNDEF || tag == TRUE || tag
            == FALSE || tag == REFN || tag == OBJECT || tag == OBJECT_FREEZE || tag == WEAKEN || tag
            == REGEXP || (ARRAYREF_0 <= tag && tag <= HASHREF_15) {
            self.bare(tag)?
        } else if tag == ZIGZAG || tag == FLOAT || tag == DOUBLE {
            self.fixed(tag)?
        } else if tag == BINARY || tag == STR_UTF8 || (SHORT_BINARY_0 <= tag && tag
            <= SHORT_BINARY_31) {
            self.string(tag)?
        } else if tag == VARINT || tag == REFP || tag == ARRAY || tag == HASH || tag == OBJECTV
            || tag == ALIAS || tag == COPY || tag == OBJECTV_FREEZE {
            self.counted(tag)?
        } else {
            return Err(Error::UnknownTag(tag));
        };
        Ok(Token { pos: pos, track: trk, tag: value })
    }

    /// A tag without a payload.
    fn bare(&mut self, tag: u8) -> (r: Result<Tag<'b>, Error>)
        requires
            tag <= NEG_1 || tag == UNDEF || tag == CANONICAL_UNDEF || tag == TRUE || tag == FALSE
                || tag == REFN || tag == OBJECT || tag == OBJECT_FREEZE || tag == WEAKEN || tag
                == REGEXP || ARRAYREF_0 <= tag <= HASHREF_15,
        ensures
            Self::payload_post(old(self), final(self), r, tag),
    {
        if tag <= POS_15 {
            Ok(Tag::Pos(tag))
        } else if tag <= NEG_1 {
            Ok(Tag::Neg(tag as i8 - 32))
        } else if tag == UNDEF {
            Ok(Tag::Undef)
        } else if tag == CANONICAL_UNDEF {
            Ok(Tag::CanonicalUndef)
        } else if tag == TRUE {
            Ok(Tag::True)
        } else if tag == FALSE {
            Ok(Tag::False)
        } else if tag == REFN {
            Ok(Tag::Refn)
        } else if tag == OBJECT {
            Ok(Tag::Object)
        } else if tag == OBJECT_FREEZE {
            Ok(Tag::ObjectFreeze)
        } else if tag == WEAKEN {
            Ok(Tag::Weaken)
        } else if tag == REGEXP {
            Ok(Tag::Regexp)
        } else if tag <= ARRAYREF_15 {
            Ok(Tag::ArrayRef(tag - ARRAYREF_0))
        } else {
            Ok(Tag::HashRef(tag - HASHREF_0))
        }
    }

    /// A signed varint or a float.
    fn fixed(&mut self, tag: u8) -> (r: Result<Tag<'b>, Error>)
        requires
            tag == ZIGZAG || tag == FLOAT || tag == DOUBLE,
        ensures
            Self::payload_post(old(self), final(self), r, tag),
    {
        if tag == ZIGZAG {
            match self.reader.read_zigzag() {
                Ok(v) => Ok(Tag::Zigzag(v)),
                Err(e) => Err(Self::varint_error(e)),
            }
        } else if tag == FLOAT {
            match self.reader.read_f32() {
                Ok(v) => Ok(Tag::Float(v)),
                Err(_) => Err(Error::UnexpectedEof),
            }
        } else {
            match self.reader.read_f64() {
                Ok(v) => Ok(Tag::Double(v)),
                Err(_) => Err(Error::UnexpectedEof),
            }
        }
    }

    /// A tag that is followed by a count or an offset.
    fn counted(&mut self, tag: u8) -> (r: Result<Tag<'b>, Error>)
        requires
            tag == VARINT || tag == REFP || tag == ARRAY || tag == HASH || tag == OBJECTV || tag
                == ALIAS || tag == COPY || tag == OBJECTV_FREEZE,
        ensures
            Self::payload_post(old(self), final(self), r, tag),
    {
        let v: u64 = match self.reader.read_varint() {
            Ok(v) => v,
            Err(e) => return Err(Self::varint_error(e)),
        };
        if tag == VARINT {
            Ok(Tag::Varint(v))
        } else if tag == REFP {
            Ok(Tag::Refp(v))
        } else if tag == ARRAY {
            Ok(Tag::Array(v))
        } else if tag == HASH {
            Ok(Tag::Hash(v))
        } else if tag == OBJECTV {
            Ok(Tag::ObjectV(v))
        } else if tag == ALIAS {
            Ok(Tag::Alias(v))
        } else if tag == COPY {
            Ok(Tag::Copy(v))
        } else {
            Ok(Tag::ObjectVFreeze(v))
        }
    }

    /// A byte string.
    fn string(&mut self, tag: u8) -> (r: Result<Tag<'b>, Error>)
        requires
            tag == BINARY || tag == STR_UTF8 || SHORT_BINARY_0 <= tag <= SHORT_BINARY_31,
        ensures
            Self::payload_post(old(self), final(self), r, tag),
    {
        let len: u64 = if tag == BINARY || tag == STR_UTF8 {
            match self.reader.read_varint() {
                Ok(len) => len,
                Err(e) => return Err(Self::varint_error(e)),
            }
        } else {
            (tag - SHORT_BINARY_0) as u64
        };
        let bytes: &'b [u8] = self.read_bytes(len)?;
        if tag == STR_UTF8 {
            Ok(Tag::Str(bytes))
        } else {
            Ok(Tag::Bin(bytes))
        }
    }

    fn varint_error(e: reader::Error) -> (r: Error)
        ensures
            r == of_varint_error(e),
    {
        match e {
            reader::Error::VarintOverflow => Error::VarintOverflow,
            _ => Error::UnexpectedEof,
        }
    }

    fn read_bytes(&mut self, len: u64) -> (r: Result<&'b [u8], Error>)
        ensures
            final(self).input() == old(self).input(),
            final(self).bounds() == old(self).bounds(),
            match spec_string(old(self).input(), old(self).bounds(), old(self).position(), len) {
                Ok((bytes, end)) => r is Ok && r->Ok_0@ == bytes && final(self).position() == end,
                Err(e) => r is Err && r->Err_0 == e && final(self).position() == old(self).position(),
            },
    {
        if len > self.config.max_string_len() {
            return Err(Error::StringTooLarge(len));
        }
        if len > usize::MAX as u64 {
            return Err(Error::StringTooLarge(len));
        }
        match self.reader.read_bytes(len as usize) {
            Ok(bytes) => Ok(bytes),
            Err(reader::Error::OffsetOverflow) => Err(Error::StringTooLarge(len)),
            Err(_) => Err(Error::UnexpectedEof),
        }
    }

    /// The offset, counted from one, of the byte at which the lexer stands.
    pub fn tell(&mut self) -> (r: Result<u64, Error>)
        ensures
            *final(self) == *old(self),
            r == if old(self).position() < u64::MAX {
                Ok::<u64, Error>((old(self).position() + 1) as u64)
            } else {
                Err::<u64, Error>(Error::UnexpectedEof)
            },
    {
        let pos: u64 = self.reader.pos() as u64;
        if pos < u64::MAX {
            Ok(pos + 1)
        } else {
            Err(Error::UnexpectedEof)
        }
    }

    /// Moves the lexer to the byte with the offset `pos`, counted from one. An
    /// offset of zero, or one past what this machine can address, is past every end.
    pub fn seek(&mut self, pos: u64) -> (r: Result<(), Error>)
        ensures
            final(self).input() == old(self).input(),
            final(self).bounds() == old(self).bounds(),
            r == if 1 <= pos && pos - 1 <= usize::MAX {
                Ok::<(), Error>(())
            } else {
                Err::<(), Error>(Error::UnexpectedEof)
            },
            r is Ok ==> final(self).position() == pos - 1,
            r is Err ==> final(self).position() == old(self).position(),
    {
        if pos == 0 || pos - 1 > usize::MAX as u64 {
            return Err(Error::UnexpectedEof);
        }
        self.reader.set_pos((pos - 1) as usize);
        Ok(())
    }
}

} // verus!
