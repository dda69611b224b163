//! The decisions of a visitor-driven decoder: what the next value of a body is,
//! told as an [`Event`] that the caller hands to its visitor.
//!
//! Nothing is built and nothing is tracked. A reference by offset is followed by
//! reading the value at that offset once more; the offsets that are being
//! followed are remembered, so that a reference into itself is refused.
use vstd::prelude::*;
use vstd::std_specs::convert::FromSpecImpl;
use std::collections::BTreeSet;
use crate::config::Config;
use crate::config::ConfigView;
use crate::constants::ARRAY;
use crate::constants::ARRAYREF_0;
use crate::constants::ARRAYREF_15;
use crate::constants::BINARY;
use crate::constants::CANONICAL_UNDEF;
use crate::constants::DOUBLE;
use crate::constants::FALSE;
use crate::constants::FLOAT;
use crate::constants::HASH;
use crate::constants::HASHREF_0;
use crate::constants::HASHREF_15;
use crate::constants::NEG_1;
use crate::constants::POS_15;
use crate::constants::REFN;
use crate::constants::REFP;
use crate::constants::SHORT_BINARY_0;
use crate::constants::SHORT_BINARY_31;
use crate::constants::STR_UTF8;
use crate::constants::TRUE;
use crate::constants::TYPE_MASK;
use crate::constants::UNDEF;
use crate::constants::VARINT;
use crate::constants::ZIGZAG;
use crate::reader;
use crate::reader::Reader;

verus! {

broadcast use {vstd::laws_cmp::group_laws_cmp, vstd::std_specs::btree::group_btree_axioms};

/// Why a value could not be handed to a visitor.
#[derive(Debug, PartialEq, Eq)]
pub enum Error {
    UnexpectedEof,
    OffsetOverflow,
    VarintOverflow,
    /// A reference to an offset that is being followed, or that does not lie
    /// before the reference.
    InvalidRef(usize),
    /// What a visitor reports.
    Custom(String),
    /// A tag that a visitor cannot be told of, without its track bit.
    UnknownTag(u8),
    ArrayTooLarge { count: u64, limit: u64 },
    HashTooLarge { count: u64, limit: u64 },
    StringTooLarge(u64),
}

impl Error {
    pub fn as_invalid_ref(&self) -> (p: Option<usize>)
        ensures
            p == match *self {
                Error::InvalidRef(p) => Some(p),
                _ => None,
            },
    {
        match self {
            Error::InvalidRef(p) => Some(*p),
            _ => None,
        }
    }
}

/// The decoder's error for a cursor's error.
pub open spec fn of_reader_error(e: reader::Error) -> Error {
    match e {
        reader::Error::UnexpectedEof => Error::UnexpectedEof,
        reader::Error::OffsetOverflow => Error::OffsetOverflow,
        reader::Error::VarintOverflow => Error::VarintOverflow,
    }
}

impl From<reader::Error> for Error {
    fn from(e: reader::Error) -> (r: Error) {
        match e {
            reader::Error::UnexpectedEof => Error::UnexpectedEof,
            reader::Error::OffsetOverflow => Error::OffsetOverflow,
            reader::Error::VarintOverflow => Error::VarintOverflow,
        }
    }
}

impl FromSpecImpl<reader::Error> for Error {
    open spec fn obeys_from_spec() -> bool {
        true
    }

    open spec fn from_spec(e: reader::Error) -> Error {
        of_reader_error(e)
    }
}

/// What the next value is. A visitor is told of it by the call that goes with the event.
#[derive(Debug, Clone, Copy, PartialEq, Eq)]
pub enum Event<'de> {
    U8(u8),
    I8(i8),
    U64(u64),
    I64(i64),
    /// The bits of a single-precision float.
    F32(u32),
    /// The bits of a double-precision float.
    F64(u64),
    Bool(bool),
    /// A byte string, borrowed from the body.
    Bytes(&'de [u8]),
    /// A sequence of this many values, which follow.
    Array(u64),
    /// A map of this many pairs of a key and a value, which follow.
    Hash(u64),
    /// No value.
    Null,
    /// A value that is there, and follows.
    Ref,
    /// A value that is there, and stands at the earlier offset `offset`: the
    /// cursor has moved to it. Once the value is visited,
    /// [`Deserializer::end_ref`] with these two numbers goes back.
    RefAt { offset: usize, resume: usize },
}

/// An [`Event`] as plain values.
pub enum EventView {
    U8(u8),
    I8(i8),
    U64(u64),
    I64(i64),
    F32(u32),
    F64(u64),
    Bool(bool),
    Bytes(Seq<u8>),
    Array(u64),
    Hash(u64),
    Null,
    Ref,
    RefAt { offset: usize, resume: usize },
}

impl<'de> View for Event<'de> {
    type V = EventView;

    open spec fn view(&self) -> EventView {
        match *self {
            Event::U8(v) => EventView::U8(v),
            Event::I8(v) => EventView::I8(v),
            Event::U64(v) => EventView::U64(v),
            Event::I64(v) => EventView::I64(v),
            Event::F32(v) => EventView::F32(v),
            Event::F64(v) => EventView::F64(v),
            Event::Bool(v) => EventView::Bool(v),
            Event::Bytes(s) => EventView::Bytes(s@),
            Event::Array(n) => EventView::Array(n),
            Event::Hash(n) => EventView::Hash(n),
            Event::Null => EventView::Null,
            Event::Ref => EventView::Ref,
            Event::RefAt { offset, resume } => EventView::RefAt { offset, resume },
        }
    }
}

/// Where a [`Deserializer`] stands.
pub struct DeState {
    /// The read position.
    pub pos: nat,
    /// The offsets of the references that are being followed.
    pub active: Set<usize>,
}

/// The bytes of a string of `len` bytes at `pos`, unless `len` is over the bound.
pub open spec fn spec_string(buf: Seq<u8>, cfg: ConfigView, pos: nat, len: usize) -> Result<
    (Seq<u8>, nat),
    Error,
> {
    if len > cfg.max_string_len {
        Err(Error::StringTooLarge(len as u64))
    } else {
        match reader::spec_read_bytes(buf, pos, len as nat) {
            Ok(found) => Ok(found),
            Err(e) => Err(of_reader_error(e)),
        }
    }
}

/// The state after the payload of a tag of type `tag` was read at `st.pos`, and
/// the event that tells of the value.
pub open spec fn spec_event(buf: Seq<u8>, cfg: ConfigView, st: DeState, tag: u8) -> Result<
    (DeState, EventView),
    Error,
> {
    if tag <= POS_15 {
        Ok((st, EventView::U8(tag)))
    } else if tag <= NEG_1 {
        Ok((st, EventView::I8((tag - 32) as i8)))
    } else if tag == VARINT {
        match reader::spec_read_varint(buf, st.pos) {
            Ok((v, end)) => Ok((DeState { pos: end, ..st }, EventView::U64(v))),
            Err(e) => Err(of_reader_error(e)),
        }
    } else if tag == ZIGZAG {
        match reader::spec_read_zigzag(buf, st.pos) {
            Ok((v, end)) => Ok((DeState { pos: end, ..st }, EventView::I64(v))),
            Err(e) => Err(of_reader_error(e)),
        }
    } else if tag == FLOAT {
        match reader::spec_read_word(buf, st.pos, 4) {
            Ok((v, end)) => Ok((DeState { pos: end, ..st }, EventView::F32(v as u32))),
            Err(e) => Err(of_reader_error(e)),
        }
    } else if tag == DOUBLE {
        match reader::spec_read_word(buf, st.pos, 8) {
            Ok((v, end)) => Ok((DeState { pos: end, ..st }, EventView::F64(v))),
            Err(e) => Err(of_reader_error(e)),
        }
    } else if tag == UNDEF || tag == CANONICAL_UNDEF {
        Ok((st, EventView::Null))
    } else if tag == TRUE {
        Ok((st, EventView::Bool(true)))
    } else if tag == FALSE {
        Ok((st, EventView::Bool(false)))
    } else if tag == BINARY || tag == STR_UTF8 {
        match reader::spec_read_varlen(buf, st.pos) {
            Err(e) => Err(of_reader_error(e)),
            Ok((len, start)) => match spec_string(buf, cfg, start, len) {
                Ok((bytes, end)) => Ok((DeState { pos: end, ..st }, EventView::Bytes(bytes))),
                Err(e) => Err(e),
            },
        }
    } else if SHORT_BINARY_0 <= tag <= SHORT_BINARY_31 {
        match spec_string(buf, cfg, st.pos, (tag - SHORT_BINARY_0) as usize) {
            Ok((bytes, end)) => Ok((DeState { pos: end, ..st }, EventView::Bytes(bytes))),
            Err(e) => Err(e),
        }
    } else if tag == ARRAY {
        match reader::spec_read_varint(buf, st.pos) {
            Err(e) => Err(of_reader_error(e)),
            Ok((count, end)) => if count > cfg.max_array_size {
                Err(Error::ArrayTooLarge { count, limit: cfg.max_array_size })
            } else {
                Ok((DeState { pos: end, ..st }, EventView::Array(count)))
            },
        }
    } else if ARRAYREF_0 <= tag <= ARRAYREF_15 {
        if tag - ARRAYREF_0 > cfg.max_array_size {
            Err(Error::ArrayTooLarge { count: (tag - ARRAYREF_0) as u64, limit: cfg.max_array_size })
        } else {
            Ok((st, EventView::Array((tag - ARRAYREF_0) as u64)))
        }
    } else if tag == HASH {
        match reader::spec_read_varint(buf, st.pos) {
            Err(e) => Err(of_reader_error(e)),
            Ok((count, end)) => if count > cfg.max_hash_size {
                Err(Error::HashTooLarge { count, limit: cfg.max_hash_size })
            } else {
                Ok((DeState { pos: end, ..st }, EventView::Hash(count)))
            },
        }
    } else if HASHREF_0 <= tag <= HASHREF_15 {
        if tag - HASHREF_0 > cfg.max_hash_size {
            Err(Error::HashTooLarge { count: (tag - HASHREF_0) as u64, limit: cfg.max_hash_size })
        } else {
            Ok((st, EventView::Hash((tag - HASHREF_0) as u64)))
        }
    } else if tag == REFN {
        Ok((st, EventView::Ref))
    } else if tag == REFP {
        match reader::spec_read_varlen(buf, st.pos) {
            Err(e) => Err(of_reader_error(e)),
            Ok((p, end)) => if p == 0 || st.active.contains(p) || p >= end {
                Err(Error::InvalidRef(p))
            } else {
                Ok(
                    (
                        DeState { pos: (p - 1) as nat, active: st.active.insert(p) },
                        EventView::RefAt { offset: p, resume: end as usize },
                    ),
                )
            },
        }
    } else {
        Err(Error::UnknownTag(tag))
    }
}

/// The state after the next value's tag and payload were read, and the event
/// that tells of the value. Padding is skipped and the track bit is not looked at.
pub open spec fn spec_next(buf: Seq<u8>, cfg: ConfigView, st: DeState) -> Result<
    (DeState, EventView),
    Error,
> {
    match reader::spec_read_tag(buf, st.pos) {
        Err(e) => Err(of_reader_error(e)),
        Ok((byte, pos)) => spec_event(buf, cfg, DeState { pos, ..st }, byte & TYPE_MASK),
    }
}

/// The state after a reference by offset was followed to its end.
pub open spec fn spec_end_ref(st: DeState, offset: usize, resume: usize) -> DeState {
    DeState { pos: resume as nat, active: st.active.remove(offset) }
}

proof fn lemma_tag_bits(byte: u8)
    by (bit_vector)
    ensures
        byte & TYPE_MASK < 0x80,
{
}

/// A decoder that tells a visitor of one value after the other.
pub struct Deserializer<'cfg, 'b> {
    config: &'cfg Config,
    reader: Reader<'b>,
    seen: BTreeSet<usize>,
}

impl<'cfg, 'b> Deserializer<'cfg, 'b> {
    /// The body that is read.
    pub closed spec fn input(&self) -> Seq<u8> {
        self.reader@.input
    }

    /// The bounds that are enforced.
    pub closed spec fn bounds(&self) -> ConfigView {
        self.config@
    }

    /// Where the decoder stands.
    pub closed spec fn state(&self) -> DeState {
        DeState { pos: self.reader@.pos, active: self.seen@ }
    }

    /// A decoder at the start of `input` that follows no reference.
    pub fn new(config: &'cfg Config, input: &'b [u8]) -> (d: Self)
        ensures
            d.input() == input@,
            d.bounds() == config@,
            d.state() == (DeState { pos: 0, active: Set::empty() }),
    {
        Deserializer { config: config, reader: Reader::new(input), seen: BTreeSet::new() }
    }

    /// The position of the cursor.
    pub fn pos(&self) -> (p: usize)
        ensures
            p == self.state().pos,
    {
        self.reader.pos()
    }

    fn read_string(&mut self, len: usize) -> (r: Result<&'b [u8], Error>)
        ensures
            final(self).input() == old(self).input(),
            final(self).bounds() == old(self).bounds(),
            final(self).state().active == old(self).state().active,
            match spec_string(old(self).input(), old(self).bounds(), old(self).state().pos, len) {
                Ok((bytes, end)) => r is Ok && r->Ok_0@ == bytes && final(self).state().pos == end,
                Err(e) => r is Err && r->Err_0 == e,
            },
    {
        if len as u64 > self.config.max_string_len() {
            return Err(Error::StringTooLarge(len as u64));
        }
        match self.reader.read_bytes(len) {
            Ok(bytes) => Ok(bytes),
            Err(e) => Err(Error::from(e)),
        }
    }

    /// What a step of the decoder owes: it keeps its body and its bounds, and
    /// state and result are those of `spec_event` for the tag type `tag`.
    spec fn event_post(before: &Self, after: &Self, r: Result<Event<'b>, Error>, tag: u8) -> bool {
        &&& after.input() == before.input()
        &&& after.bounds() == before.bounds()
        &&& match spec_event(before.input(), before.bounds(), before.state(), tag) {
            Ok((st, event)) => r is Ok && r->Ok_0@ == event && after.state() == st,
            Err(e) => r is Err && r->Err_0 == e,
        }
    }

    /// Reads the tag and the payload of the next value and says what it is.
    /// After `Array` and `Hash` the items follow, after `Ref` the value; after
    /// `RefAt` the value follows too, and then `end_ref` is due. On an error
    /// no more is said of where the decoder stands.
    pub fn next(&mut self) -> (r: Result<Event<'b>, Error>)
        ensures
            final(self).input() == old(self).input(),
            final(self).bounds() == old(self).bounds(),
            match spec_next(old(self).input(), old(self).bounds(), old(self).state()) {
                Ok((st, event)) => r is Ok && r->Ok_0@ == event && final(self).state() == st,
                Err(e) => r is Err && r->Err_0 == e,
            },
    {
        let byte: u8 = match self.reader.read_tag() {
            Ok(byte) => byte,
            Err(e) => return Err(Error::from(e)),
        };
        let tag: u8 = byte & TYPE_MASK;
        proof {
            lemma_tag_bits(byte);
        }
        if tag <= NEG_1 || tag == UNDEF || tag == CANONICAL_UNDEF || tag == TRUE || tag == FALSE
            || tag == REFN {
            self.plain(tag)
        } else if tag == VARINT || tag == ZIGZAG || tag == FLOAT || tag == DOUBLE {
            self.number(tag)
        } else if tag == BINARY || tag == STR_UTF8 || (SHORT_BINARY_0 <= tag && tag
            <= SHORT_BINARY_31) {
            self.string(tag)
        } else if tag == ARRAY || (ARRAYREF_0 <= tag && tag <= ARRAYREF_15) {
            self.array(tag)
        } else if tag == HASH || (HASHREF_0 <= tag && tag <= HASHREF_15) {
            self.hash(tag)
        } else if tag == REFP {
            self.follow(tag)
        } else {
            Err(Error::UnknownTag(tag))
        }
    }

    /// A value that is all in its tag.
    fn plain(&mut self, tag: u8) -> (r: Result<Event<'b>, Error>)
        requires
            tag <= NEG_1 || tag == UNDEF || tag == CANONICAL_UNDEF || tag == TRUE || tag == FALSE
                || tag == REFN,
        ensures
            Self::event_post(old(self), final(self), r, tag),
    {
        if tag <= POS_15 {
            Ok(Event::U8(tag))
        } else if tag <= NEG_1 {
            Ok(Event::I8(tag as i8 - 32))
        } else if tag == UNDEF || tag == CANONICAL_UNDEF {
            Ok(Event::Null)
        } else if tag == TRUE {
            Ok(Event::Bool(true))
        } else if tag == FALSE {
            Ok(Event::Bool(false))
        } else {
            Ok(Event::Ref)
        }
    }

    /// A number that follows its tag.
    fn number(&mut self, tag: u8) -> (r: Result<Event<'b>, Error>)
        requires
            tag == VARINT || tag == ZIGZAG || tag == FLOAT || tag == DOUBLE,
        ensures
            Self::event_post(old(self), final(self), r, tag),
    {
        if tag == VARINT {
            match self.reader.read_varint() {
                Ok(v) => Ok(Event::U64(v)),
                Err(e) => Err(Error::from(e)),
            }
        } else if tag == ZIGZAG {
            match self.reader.read_zigzag() {
                Ok(v) => Ok(Event::I64(v)),
                Err(e) => Err(Error::from(e)),
            }
        } else if tag == FLOAT {
            match self.reader.read_f32() {
                Ok(v) => Ok(Event::F32(v)),
                Err(e) => Err(Error::from(e)),
            }
        } else {
            match self.reader.read_f64() {
                Ok(v) => Ok(Event::F64(v)),
                Err(e) => Err(Error::from(e)),
            }
        }
    }

    /// A byte string.
    fn string(&mut self, tag: u8) -> (r: Result<Event<'b>, Error>)
        requires
            tag == BINARY || tag == STR_UTF8 || SHORT_BINARY_0 <= tag <= SHORT_BINARY_31,
        ensures
            Self::event_post(old(self), final(self), r, tag),
    {
        let len: usize = if tag == BINARY || tag == STR_UTF8 {
            match self.reader.read_varlen() {
                Ok(len) => len,
                Err(e) => return Err(Error::from(e)),
            }
        } else {
            (tag - SHORT_BINARY_0) as usize
        };
        match self.read_string(len) {
            Ok(bytes) => Ok(Event::Bytes(bytes)),
            Err(e) => Err(e),
        }
    }

    /// The start of an array.
    fn array(&mut self, tag: u8) -> (r: Result<Event<'b>, Error>)
        requires
            tag == ARRAY || ARRAYREF_0 <= tag <= ARRAYREF_15,
        ensures
            Self::event_post(old(self), final(self), r, tag),
    {
        let count: u64 = if tag == ARRAY {
            match self.reader.read_varint() {
                Ok(count) => count,
                Err(e) => return Err(Error::from(e)),
            }
        } else {
            (tag - ARRAYREF_0) as u64
        };
        if count > self.config.max_array_size() {
            return Err(Error::ArrayTooLarge { count: count, limit: self.config.max_array_size() });
        }
        Ok(Event::Array(count))
    }

    /// The start of a hash.
    fn hash(&mut self, tag: u8) -> (r: Result<Event<'b>, Error>)
        requires
            tag == HASH || HASHREF_0 <= tag <= HASHREF_15,
        ensures
            Self::event_post(old(self), final(self), r, tag),
    {
        let count: u64 = if tag == HASH {
            match self.reader.read_varint() {
                Ok(count) => count,
                Err(e) => return Err(Error::from(e)),
            }
        } else {
            (tag - HASHREF_0) as u64
        };
        if count > self.config.max_hash_size() {
            return Err(Error::HashTooLarge { count: count, limit: self.config.max_hash_size() });
        }
        Ok(Event::Hash(count))
    }

    /// A reference by offset: the cursor moves to the offset, which is
    /// remembered as being followed.
    fn follow(&mut self, tag: u8) -> (r: Result<Event<'b>, Error>)
        requires
            tag == REFP,
        ensures
            Self::event_post(old(self), final(self), r, tag),
    {
        let p: usize = match self.reader.read_varlen() {
            Ok(p) => p,
            Err(e) => return Err(Error::from(e)),
        };
        if p == 0 || self.seen.contains(&p) || p >= self.reader.pos() {
            return Err(Error::InvalidRef(p));
        }
        self.seen.insert(p);
        let prev: usize = self.reader.set_pos(p - 1);
        Ok(Event::RefAt { offset: p, resume: prev })
    }

    /// Ends the reference that `next` told of as `RefAt`: the cursor goes back
    /// to `resume`, and `offset` may be referred to again.
    pub fn end_ref(&mut self, offset: usize, resume: usize)
        ensures
            final(self).input() == old(self).input(),
            final(self).bounds() == old(self).bounds(),
            final(self).state() == spec_end_ref(old(self).state(), offset, resume),
    {
        self.reader.set_pos(resume);
        self.seen.remove(&offset);
    }
}

} // verus!
