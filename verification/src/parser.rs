//! The body parser: a recursive evaluator of the tag stream that hands the value
//! graph, cell by cell, to a [`Builder`].
//!
//! What the parser does is fixed by a model: [`spec_parse_inner`] maps the bytes
//! and a [`ParseState`] to the state after one value and the cell that holds it.
//! [`Parser::parse`] is proved to compute exactly that.
use vstd::prelude::*;
use vstd::std_specs::convert::FromSpecImpl;
use std::collections::HashMap;
use crate::config::Config;
use crate::config::ConfigView;
use crate::constants::ALIAS;
use crate::constants::ARRAY;
use crate::constants::ARRAYREF_0;
use crate::constants::ARRAYREF_15;
use crate::constants::BINARY;
use crate::constants::CANONICAL_UNDEF;
use crate::constants::COPY;
use crate::constants::DOUBLE;
use crate::constants::FALSE;
use crate::constants::FLOAT;
use crate::constants::HASH;
use crate::constants::HASHREF_0;
use crate::constants::HASHREF_15;
use crate::constants::NEG_1;
use crate::constants::OBJECT;
use crate::constants::OBJECTV;
use crate::constants::OBJECTV_FREEZE;
use crate::constants::OBJECT_FREEZE;
use crate::constants::POS_15;
use crate::constants::REFN;
use crate::constants::REFP;
use crate::constants::REGEXP;
use crate::constants::SHORT_BINARY_0;
use crate::constants::SHORT_BINARY_31;
use crate::constants::STR_UTF8;
use crate::constants::TRACK_BIT;
use crate::constants::TRUE;
use crate::constants::TYPE_MASK;
use crate::constants::UNDEF;
use crate::constants::VARINT;
use crate::constants::WEAKEN;
use crate::constants::ZIGZAG;
use crate::reader;
use crate::reader::Reader;

verus! {

broadcast use vstd::std_specs::hash::group_hash_axioms;

/// Why a body could not be parsed. Every error ends the parse.
#[derive(Debug, Clone, Copy, PartialEq, Eq, Structural)]
pub enum Error {
    /// A hash key, a class name or a part of a regular expression is no string.
    InvalidType,
    /// A reference to an offset at which no cell was tracked.
    InvalidRef(usize),
    /// A copy inside a copy, or a copy of offset zero.
    InvalidCopy,
    UnexpectedEof,
    OffsetOverflow,
    VarintOverflow,
    ArrayTooLarge { count: u64, limit: u64 },
    HashTooLarge { count: u64, limit: u64 },
    StringTooLarge(u64),
    /// A tag that this decoder does not support, without its track bit.
    UnknownTag(u8),
    /// Values are nested more deeply than the configuration allows.
    NestingTooDeep { limit: u64 },
}

impl Error {
    pub fn is_eof(&self) -> (b: bool)
        ensures
            b == (*self is UnexpectedEof),
    {
        match *self {
            Error::UnexpectedEof => true,
            _ => false,
        }
    }

    pub fn is_invalid_copy(&self) -> (b: bool)
        ensures
            b == (*self is InvalidCopy),
    {
        match *self {
            Error::InvalidCopy => true,
            _ => false,
        }
    }
}

/// The parser's error for a cursor's error.
pub open spec fn of_reader_error(e: reader::Error) -> Error {
    match e {
        reader::Error::UnexpectedEof => Error::UnexpectedEof,
        reader::Error::OffsetOverflow => Error::OffsetOverflow,
        reader::Error::VarintOverflow => Error::VarintOverflow,
    }
}

impl From<reader::Error> for Error {
    fn from(e: reader::Error) -> (r: Error) {
        match e {
            reader::Error::UnexpectedEof => Error::UnexpectedEof,
            reader::Error::OffsetOverflow => Error::OffsetOverflow,
            reader::Error::VarintOverflow => Error::VarintOverflow,
        }
    }
}

impl FromSpecImpl<reader::Error> for Error {
    open spec fn obeys_from_spec() -> bool {
        true
    }

    open spec fn from_spec(e: reader::Error) -> Error {
        of_reader_error(e)
    }
}

/// What a cell of the value graph holds. Cells are numbered in the order in which
/// they were made; a cell refers to another by its number.
pub enum Node {
    Undef,
    True,
    False,
    I64(i64),
    U64(u64),
    /// The bits of a single-precision float.
    F32(u32),
    /// The bits of a double-precision float.
    F64(u64),
    Ref(nat),
    WeakRef(nat),
    Array(Seq<nat>),
    Hash(Map<Seq<u8>, nat>),
    Binary(Seq<u8>),
    Str(Seq<u8>),
    Object { class: nat, value: nat },
    ObjectFreeze { class: nat, value: nat },
    Regexp { pattern: nat, flags: nat },
}

/// Whether cell `id` of `graph` holds a byte string.
pub open spec fn reads_as_string(graph: Seq<Node>, id: nat) -> bool {
    id < graph.len() && (graph[id as int] is Binary || graph[id as int] is Str)
}

/// A handle to a cell. Two handles with the same `id` denote the same cell.
pub trait Value<'buf>: Sized {
    /// What an array builder of this representation turns into.
    type Array;

    /// What a hash builder of this representation turns into.
    type Hash;

    /// The number of the cell that the handle denotes.
    spec fn id(&self) -> nat;

    /// The cells of an array, in order.
    spec fn array_items(a: &Self::Array) -> Seq<nat>;

    /// The cells of a hash by their keys.
    spec fn hash_entries(h: &Self::Hash) -> Map<Seq<u8>, nat>;

    /// A second handle to the same cell.
    fn clone_handle(&self) -> (h: Self)
        ensures
            h.id() == self.id(),
    ;

    /// Makes this handle denote the cell of `o`.
    fn set_alias(&mut self, o: Self)
        ensures
            final(self).id() == o.id(),
    ;
}

/// Gathers the items of one array.
pub trait ArrayBuilder<'buf, V: Value<'buf>>: Sized {
    /// The cells gathered so far.
    spec fn items(&self) -> Seq<nat>;

    fn insert(&mut self, value: V) -> (r: Result<(), Error>)
        ensures
            r is Ok,
            final(self).items() == old(self).items().push(value.id()),
    ;

    fn finalize(self) -> (a: V::Array)
        ensures
            V::array_items(&a) == self.items(),
    ;
}

/// Gathers the entries of one hash. A later entry replaces an earlier one with the same key.
pub trait HashBuilder<'buf, V: Value<'buf>>: Sized {
    /// Whether this representation takes `key` as a hash key.
    spec fn accepts(key: Seq<u8>) -> bool;

    /// The entries gathered so far.
    spec fn entries(&self) -> Map<Seq<u8>, nat>;

    /// Adds an entry, or fails with `InvalidType` on a key that is not accepted.
    fn insert(&mut self, key: &'buf [u8], value: V) -> (r: Result<(), Error>)
        ensures
            Self::accepts(key@) ==> r is Ok && final(self).entries() == old(self).entries().insert(
                key@,
                value.id(),
            ),
            !Self::accepts(key@) ==> r == Err::<(), Error>(Error::InvalidType),
    ;

    fn finalize(self) -> (h: V::Hash)
        ensures
            V::hash_entries(&h) == self.entries(),
    ;
}

/// The back end that owns the cells and gives them their contents.
///
/// `graph` is what has been built: cell `i` holds `graph()[i]`. A setter needs
/// the cell it sets to exist, changes that one cell and nothing else.
pub trait Builder<'buf>: Sized {
    type Value: Value<'buf>;

    type ArrayBuilder: ArrayBuilder<'buf, Self::Value>;

    type HashBuilder: HashBuilder<'buf, Self::Value>;

    spec fn graph(&self) -> Seq<Node>;

    /// Makes a cell, which holds `Undef`.
    fn new(&mut self) -> (v: Self::Value)
        ensures
            final(self).graph() == old(self).graph().push(Node::Undef),
            v.id() == old(self).graph().len(),
    ;

    fn build_array(&mut self, size: u64) -> (a: Self::ArrayBuilder)
        ensures
            final(self).graph() == old(self).graph(),
            a.items() == Seq::<nat>::empty(),
    ;

    fn build_hash(&mut self, size: u64) -> (h: Self::HashBuilder)
        ensures
            final(self).graph() == old(self).graph(),
            h.entries() == Map::<Seq<u8>, nat>::empty(),
    ;

    fn set_undef(&mut self, cell: &Self::Value)
        requires
            cell.id() < old(self).graph().len(),
        ensures
            final(self).graph() == old(self).graph().update(cell.id() as int, Node::Undef),
    ;

    fn set_true(&mut self, cell: &Self::Value)
        requires
            cell.id() < old(self).graph().len(),
        ensures
            final(self).graph() == old(self).graph().update(cell.id() as int, Node::True),
    ;

    fn set_false(&mut self, cell: &Self::Value)
        requires
            cell.id() < old(self).graph().len(),
        ensures
            final(self).graph() == old(self).graph().update(cell.id() as int, Node::False),
    ;

    fn set_i64(&mut self, cell: &Self::Value, v: i64)
        requires
            cell.id() < old(self).graph().len(),
        ensures
            final(self).graph() == old(self).graph().update(cell.id() as int, Node::I64(v)),
    ;

    fn set_u64(&mut self, cell: &Self::Value, v: u64)
        requires
            cell.id() < old(self).graph().len(),
        ensures
            final(self).graph() == old(self).graph().update(cell.id() as int, Node::U64(v)),
    ;

    /// Sets the cell to the single-precision float with the bits `bits`.
    fn set_f32(&mut self, cell: &Self::Value, bits: u32)
        requires
            cell.id() < old(self).graph().len(),
        ensures
            final(self).graph() == old(self).graph().update(cell.id() as int, Node::F32(bits)),
    ;

    /// Sets the cell to the double-precision float with the bits `bits`.
    fn set_f64(&mut self, cell: &Self::Value, bits: u64)
        requires
            cell.id() < old(self).graph().len(),
        ensures
            final(self).graph() == old(self).graph().update(cell.id() as int, Node::F64(bits)),
    ;

    /// Makes the cell a reference to the cell of `o`.
    fn set_ref(&mut self, cell: &Self::Value, o: Self::Value)
        requires
            cell.id() < old(self).graph().len(),
        ensures
            final(self).graph() == old(self).graph().update(cell.id() as int, Node::Ref(o.id())),
    ;

    /// Makes the cell a reference to the cell of `o` that does not keep it alive.
    fn set_weak_ref(&mut self, cell: &Self::Value, o: Self::Value)
        requires
            cell.id() < old(self).graph().len(),
        ensures
            final(self).graph() == old(self).graph().update(
                cell.id() as int,
                Node::WeakRef(o.id()),
            ),
    ;

    fn set_array(&mut self, cell: &Self::Value, a: <Self::Value as Value<'buf>>::Array)
        requires
            cell.id() < old(self).graph().len(),
        ensures
            final(self).graph() == old(self).graph().update(
                cell.id() as int,
                Node::Array(<Self::Value as Value<'buf>>::array_items(&a)),
            ),
    ;

    fn set_hash(&mut self, cell: &Self::Value, h: <Self::Value as Value<'buf>>::Hash)
        requires
            cell.id() < old(self).graph().len(),
        ensures
            final(self).graph() == old(self).graph().update(
                cell.id() as int,
                Node::Hash(<Self::Value as Value<'buf>>::hash_entries(&h)),
            ),
    ;

    fn set_binary(&mut self, cell: &Self::Value, s: &'buf [u8])
        requires
            cell.id() < old(self).graph().len(),
        ensures
            final(self).graph() == old(self).graph().update(cell.id() as int, Node::Binary(s@)),
    ;

    fn set_string(&mut self, cell: &Self::Value, s: &'buf [u8])
        requires
            cell.id() < old(self).graph().len(),
        ensures
            final(self).graph() == old(self).graph().update(cell.id() as int, Node::Str(s@)),
    ;

    /// Makes the cell an object of the class named by the cell of `class`, which
    /// has to hold a byte string: otherwise nothing changes and the error is `InvalidType`.
    fn set_object(&mut self, cell: &Self::Value, class: Self::Value, value: Self::Value) -> (r:
        Result<(), Error>)
        requires
            cell.id() < old(self).graph().len(),
        ensures
            r == spec_object_result(old(self).graph(), class.id()),
            final(self).graph() == spec_set_object(
                old(self).graph(),
                false,
                cell.id(),
                class.id(),
                value.id(),
            ),
    ;

    /// As `set_object`, for an object that its class thaws on demand.
    fn set_object_freeze(
        &mut self,
        cell: &Self::Value,
        class: Self::Value,
        value: Self::Value,
    ) -> (r: Result<(), Error>)
        requires
            cell.id() < old(self).graph().len(),
        ensures
            r == spec_object_result(old(self).graph(), class.id()),
            final(self).graph() == spec_set_object(
                old(self).graph(),
                true,
                cell.id(),
                class.id(),
                value.id(),
            ),
    ;

    /// Makes the cell a regular expression. Both parts have to hold byte strings:
    /// otherwise nothing changes and the error is `InvalidType`.
    fn set_regexp(&mut self, cell: &Self::Value, pattern: Self::Value, flags: Self::Value) -> (r:
        Result<(), Error>)
        requires
            cell.id() < old(self).graph().len(),
        ensures
            r == spec_regexp_result(old(self).graph(), pattern.id(), flags.id()),
            final(self).graph() == spec_set_regexp(
                old(self).graph(),
                cell.id(),
                pattern.id(),
                flags.id(),
            ),
    ;
}

/// What `set_object` and `set_object_freeze` return for a class cell.
pub open spec fn spec_object_result(graph: Seq<Node>, class: nat) -> Result<(), Error> {
    if reads_as_string(graph, class) {
        Ok(())
    } else {
        Err(Error::InvalidType)
    }
}

/// The graph after `set_object` (`frozen` false) or `set_object_freeze` on cell `id`.
pub open spec fn spec_set_object(
    graph: Seq<Node>,
    frozen: bool,
    id: nat,
    class: nat,
    value: nat,
) -> Seq<Node> {
    if !reads_as_string(graph, class) {
        graph
    } else if frozen {
        graph.update(id as int, Node::ObjectFreeze { class, value })
    } else {
        graph.update(id as int, Node::Object { class, value })
    }
}

/// What `set_regexp` returns for the cells of a pattern and of flags.
pub open spec fn spec_regexp_result(graph: Seq<Node>, pattern: nat, flags: nat) -> Result<
    (),
    Error,
> {
    if reads_as_string(graph, pattern) && reads_as_string(graph, flags) {
        Ok(())
    } else {
        Err(Error::InvalidType)
    }
}

/// The graph after `set_regexp` on cell `id`.
pub open spec fn spec_set_regexp(graph: Seq<Node>, id: nat, pattern: nat, flags: nat) -> Seq<
    Node,
> {
    if reads_as_string(graph, pattern) && reads_as_string(graph, flags) {
        graph.update(id as int, Node::Regexp { pattern, flags })
    } else {
        graph
    }
}

/// Whether `after` has every cell of `before`, each with what it held, but
/// for cell `except`.
pub open spec fn extends(before: Seq<Node>, after: Seq<Node>, except: int) -> bool {
    &&& before.len() <= after.len()
    &&& forall|i: int| 0 <= i < before.len() && i != except ==> #[trigger] after[i] == before[i]
}

/// What a parse is given and never changes: the bytes, the bounds and the rule
/// of the representation on hash keys.
pub struct ParseEnv {
    pub buf: Seq<u8>,
    pub cfg: ConfigView,
    pub key_ok: spec_fn(Seq<u8>) -> bool,
}

/// What a parse changes as it goes.
pub struct ParseState {
    /// The read position.
    pub pos: nat,
    /// Zero, or, inside a copy, the position at which reading goes on after it.
    pub copy_pos: nat,
    /// The cells that were tracked, by the position just after their tag byte.
    pub track: Map<usize, nat>,
    /// The cells built so far.
    pub graph: Seq<Node>,
}

/// `st` with the read position at `pos`.
pub open spec fn at(st: ParseState, pos: nat) -> ParseState {
    ParseState { pos, ..st }
}

/// `st` with cell `id` holding `node`.
pub open spec fn set_node(st: ParseState, id: nat, node: Node) -> ParseState {
    ParseState { graph: st.graph.update(id as int, node), ..st }
}

/// `st` with the copy cursor at `copy_pos`.
pub open spec fn with_copy_pos(st: ParseState, copy_pos: nat) -> ParseState {
    ParseState { copy_pos, ..st }
}

/// The `len` bytes of a string at `pos`, unless `len` is over the bound on strings.
pub open spec fn spec_read_string(env: ParseEnv, pos: nat, len: usize) -> Result<
    (Seq<u8>, nat),
    Error,
> {
    if len > env.cfg.max_string_len {
        Err(Error::StringTooLarge(len as u64))
    } else {
        match reader::spec_read_bytes(env.buf, pos, len as nat) {
            Ok(found) => Ok(found),
            Err(e) => Err(of_reader_error(e)),
        }
    }
}

/// A string at `pos` that is preceded by its length.
pub open spec fn spec_read_long_string(env: ParseEnv, pos: nat) -> Result<(Seq<u8>, nat), Error> {
    match reader::spec_read_varlen(env.buf, pos) {
        Ok((len, start)) => spec_read_string(env, start, len),
        Err(e) => Err(of_reader_error(e)),
    }
}

/// Whether a value with tag type `tag` is complete in itself: a number, a
/// constant or a string.
pub open spec fn is_leaf(tag: u8) -> bool {
    ||| tag <= NEG_1
    ||| tag == VARINT
    ||| tag == ZIGZAG
    ||| tag == FLOAT
    ||| tag == DOUBLE
    ||| tag == UNDEF
    ||| tag == CANONICAL_UNDEF
    ||| tag == TRUE
    ||| tag == FALSE
    ||| tag == BINARY
    ||| tag == STR_UTF8
    ||| SHORT_BINARY_0 <= tag <= SHORT_BINARY_31
}

/// The state after the payload of a leaf with tag type `tag` was read from
/// `st.pos` into cell `id`.
pub open spec fn spec_leaf(env: ParseEnv, st: ParseState, tag: u8, id: nat) -> Result<
    ParseState,
    Error,
> {
    if tag <= POS_15 {
        Ok(set_node(st, id, Node::U64(tag as u64)))
    } else if tag <= NEG_1 {
        Ok(set_node(st, id, Node::I64((tag - 32) as i64)))
    } else if tag == VARINT {
        match reader::spec_read_varint(env.buf, st.pos) {
            Ok((v, end)) => Ok(set_node(at(st, end), id, Node::U64(v))),
            Err(e) => Err(of_reader_error(e)),
        }
    } else if tag == ZIGZAG {
        match reader::spec_read_zigzag(env.buf, st.pos) {
            Ok((v, end)) => Ok(set_node(at(st, end), id, Node::I64(v))),
            Err(e) => Err(of_reader_error(e)),
        }
    } else if tag == FLOAT {
        match reader::spec_read_word(env.buf, st.pos, 4) {
            Ok((v, end)) => Ok(set_node(at(st, end), id, Node::F32(v as u32))),
            Err(e) => Err(of_reader_error(e)),
        }
    } else if tag == DOUBLE {
        match reader::spec_read_word(env.buf, st.pos, 8) {
            Ok((v, end)) => Ok(set_node(at(st, end), id, Node::F64(v))),
            Err(e) => Err(of_reader_error(e)),
        }
    } else if tag == UNDEF || tag == CANONICAL_UNDEF {
        Ok(set_node(st, id, Node::Undef))
    } else if tag == TRUE {
        Ok(set_node(st, id, Node::True))
    } else if tag == FALSE {
        Ok(set_node(st, id, Node::False))
    } else if tag == BINARY {
        match spec_read_long_string(env, st.pos) {
            Ok((bytes, end)) => Ok(set_node(at(st, end), id, Node::Binary(bytes))),
            Err(e) => Err(e),
        }
    } else if tag == STR_UTF8 {
        match spec_read_long_string(env, st.pos) {
            Ok((bytes, end)) => Ok(set_node(at(st, end), id, Node::Str(bytes))),
            Err(e) => Err(e),
        }
    } else {
        match spec_read_string(env, st.pos, (tag - SHORT_BINARY_0) as usize) {
            Ok((bytes, end)) => Ok(set_node(at(st, end), id, Node::Binary(bytes))),
            Err(e) => Err(e),
        }
    }
}

/// The offset at `st.pos` and the cell that was tracked there: what `REFP`,
/// `ALIAS` and the class of `OBJECTV` resolve to.
pub open spec fn spec_lookup(env: ParseEnv, st: ParseState) -> Result<(ParseState, nat), Error> {
    match reader::spec_read_varlen(env.buf, st.pos) {
        Ok((p, end)) => if st.track.contains_key(p) {
            Ok((at(st, end), st.track[p]))
        } else {
            Err(Error::InvalidRef(p))
        },
        Err(e) => Err(of_reader_error(e)),
    }
}

/// The state in which the target of the copy at `st.pos` is parsed: the offset
/// is read, the position after it goes to the copy cursor, and reading moves to
/// the byte before the offset, offsets counting from one. A copy inside a copy
/// and a copy of offset zero are `InvalidCopy`.
pub open spec fn spec_begin_copy(env: ParseEnv, st: ParseState) -> Result<ParseState, Error> {
    if st.copy_pos != 0 {
        Err(Error::InvalidCopy)
    } else {
        match reader::spec_read_varlen(env.buf, st.pos) {
            Ok((p, end)) => if p == 0 {
                Err(Error::InvalidCopy)
            } else {
                Ok(ParseState { pos: (p - 1) as nat, copy_pos: end, ..st })
            },
            Err(e) => Err(of_reader_error(e)),
        }
    }
}

/// The state after the target of a copy was parsed: reading goes on at the copy
/// cursor, which is cleared.
pub open spec fn spec_end_copy(st: ParseState) -> ParseState {
    ParseState { pos: st.copy_pos, copy_pos: 0, ..st }
}

/// A hash key at `st.pos`: a string, or, where `outer` holds, a copy of a string.
pub open spec fn spec_str(env: ParseEnv, st: ParseState, outer: bool) -> Result<
    (ParseState, Seq<u8>),
    Error,
>
    decreases outer as int,
{
    match reader::spec_read_tag(env.buf, st.pos) {
        Err(e) => Err(of_reader_error(e)),
        Ok((byte, pos)) => {
            let tag = byte & TYPE_MASK;
            if SHORT_BINARY_0 <= tag <= SHORT_BINARY_31 {
                match spec_read_string(env, pos, (tag - SHORT_BINARY_0) as usize) {
                    Ok((bytes, end)) => Ok((at(st, end), bytes)),
                    Err(e) => Err(e),
                }
            } else if tag == STR_UTF8 || tag == BINARY {
                match spec_read_long_string(env, pos) {
                    Ok((bytes, end)) => Ok((at(st, end), bytes)),
                    Err(e) => Err(e),
                }
            } else if tag == COPY {
                if !outer {
                    Err(Error::InvalidCopy)
                } else {
                    match spec_begin_copy(env, at(st, pos)) {
                        Err(e) => Err(e),
                        Ok(inside) => match spec_str(env, inside, false) {
                            Ok((done, bytes)) => Ok((spec_end_copy(done), bytes)),
                            Err(e) => Err(e),
                        },
                    }
                }
            } else {
                Err(Error::InvalidType)
            }
        },
    }
}

/// A hash key at `st.pos`: `SHORT_BINARY`, `BINARY`, `STR_UTF8`, or a `COPY` of
/// one of these. Keys are never tracked.
pub open spec fn spec_parse_str(env: ParseEnv, st: ParseState) -> Result<
    (ParseState, Seq<u8>),
    Error,
> {
    spec_str(env, st, true)
}

/// One value at `st.pos`: the state after it and the cell that holds it.
///
/// The tag is read, padding skipped. A cell is made. If the tag has its track
/// bit, or `force_track` holds, the cell is tracked under the position just
/// after the tag byte, before anything below it is parsed. Then the cell is
/// filled as the tag type says. For `ALIAS` and `COPY` the value is another
/// cell, and a tracked position then resolves to that cell.
///
/// `depth` is how many values may still be nested, this one counted.
pub open spec fn spec_parse_inner(
    env: ParseEnv,
    st: ParseState,
    force_track: bool,
    depth: nat,
) -> Result<(ParseState, nat), Error>
    decreases depth, 0nat, 0nat,
{
    if depth == 0 {
        Err(Error::NestingTooDeep { limit: env.cfg.max_depth })
    } else {
        match reader::spec_read_tag(env.buf, st.pos) {
            Err(e) => Err(of_reader_error(e)),
            Ok((byte, pos)) => {
                let tag = byte & TYPE_MASK;
                let kept = force_track || byte & TRACK_BIT != 0;
                let id = st.graph.len();
                let made = ParseState {
                    pos,
                    copy_pos: st.copy_pos,
                    track: if kept {
                        st.track.insert(pos as usize, id)
                    } else {
                        st.track
                    },
                    graph: st.graph.push(Node::Undef),
                };
                match spec_fill(env, made, tag, id, (depth - 1) as nat) {
                    Err(e) => Err(e),
                    Ok((filled, out)) => if kept && (tag == ALIAS || tag == COPY) {
                        Ok(
                            (
                                ParseState {
                                    track: filled.track.insert(pos as usize, out),
                                    ..filled
                                },
                                out,
                            ),
                        )
                    } else {
                        Ok((filled, out))
                    },
                }
            },
        }
    }
}

/// The state after cell `id`, just made for a tag of type `tag`, was filled from
/// `st.pos`, and the cell that is the value: `id`, but for `ALIAS` and `COPY`.
/// Values below this one are parsed with `depth`.
pub open spec fn spec_fill(env: ParseEnv, st: ParseState, tag: u8, id: nat, depth: nat) -> Result<
    (ParseState, nat),
    Error,
>
    decreases depth, 2nat, 0nat,
{
    if is_leaf(tag) {
        match spec_leaf(env, st, tag, id) {
            Ok(done) => Ok((done, id)),
            Err(e) => Err(e),
        }
    } else if tag == REFN || tag == WEAKEN {
        match spec_parse_inner(env, st, false, depth) {
            Ok((done, child)) => Ok(
                (
                    set_node(
                        done,
                        id,
                        if tag == REFN {
                            Node::Ref(child)
                        } else {
                            Node::WeakRef(child)
                        },
                    ),
                    id,
                ),
            ),
            Err(e) => Err(e),
        }
    } else if tag == REFP {
        match spec_lookup(env, st) {
            Ok((done, target)) => Ok((set_node(done, id, Node::Ref(target)), id)),
            Err(e) => Err(e),
        }
    } else if tag == ALIAS {
        spec_lookup(env, st)
    } else if tag == COPY {
        match spec_begin_copy(env, st) {
            Err(e) => Err(e),
            Ok(inside) => match spec_parse_inner(env, inside, false, depth) {
                Ok((done, out)) => Ok((spec_end_copy(done), out)),
                Err(e) => Err(e),
            },
        }
    } else if tag == ARRAY {
        match reader::spec_read_varint(env.buf, st.pos) {
            Err(e) => Err(of_reader_error(e)),
            Ok((count, start)) => match spec_parse_array(env, at(st, start), count, depth) {
                Ok((done, items)) => Ok((set_node(done, id, Node::Array(items)), id)),
                Err(e) => Err(e),
            },
        }
    } else if ARRAYREF_0 <= tag <= ARRAYREF_15 {
        match spec_parse_array(env, st, (tag - ARRAYREF_0) as u64, depth) {
            Ok((done, items)) => Ok(
                (
                    set_node(
                        ParseState { graph: done.graph.push(Node::Array(items)), ..done },
                        id,
                        Node::Ref(done.graph.len()),
                    ),
                    id,
                ),
            ),
            Err(e) => Err(e),
        }
    } else if tag == HASH {
        match reader::spec_read_varint(env.buf, st.pos) {
            Err(e) => Err(of_reader_error(e)),
            Ok((count, start)) => match spec_parse_hash(env, at(st, start), count, depth) {
                Ok((done, entries)) => Ok((set_node(done, id, Node::Hash(entries)), id)),
                Err(e) => Err(e),
            },
        }
    } else if HASHREF_0 <= tag <= HASHREF_15 {
        match spec_parse_hash(env, st, (tag - HASHREF_0) as u64, depth) {
            Ok((done, entries)) => Ok(
                (
                    set_node(
                        ParseState { graph: done.graph.push(Node::Hash(entries)), ..done },
                        id,
                        Node::Ref(done.graph.len()),
                    ),
                    id,
                ),
            ),
            Err(e) => Err(e),
        }
    } else if tag == OBJECT || tag == OBJECT_FREEZE {
        match spec_parse_inner(env, with_copy_pos(st, 0), true, depth) {
            Err(e) => Err(e),
            Ok((named, class)) => match spec_parse_inner(
                env,
                with_copy_pos(named, st.copy_pos),
                false,
                depth,
            ) {
                Err(e) => Err(e),
                Ok((done, value)) => spec_finish_object(done, tag == OBJECT_FREEZE, id, class, value),
            },
        }
    } else if tag == OBJECTV || tag == OBJECTV_FREEZE {
        match spec_lookup(env, st) {
            Err(e) => Err(e),
            Ok((named, class)) => match spec_parse_inner(env, named, false, depth) {
                Err(e) => Err(e),
                Ok((done, value)) => spec_finish_object(
                    done,
                    tag == OBJECTV_FREEZE,
                    id,
                    class,
                    value,
                ),
            },
        }
    } else if tag == REGEXP {
        match spec_parse_inner(env, st, false, depth) {
            Err(e) => Err(e),
            Ok((first, pattern)) => match spec_parse_inner(env, first, false, depth) {
                Err(e) => Err(e),
                Ok((done, flags)) => match spec_regexp_result(done.graph, pattern, flags) {
                    Ok(_) => Ok(
                        (
                            ParseState {
                                graph: spec_set_regexp(done.graph, id, pattern, flags),
                                ..done
                            },
                            id,
                        ),
                    ),
                    Err(e) => Err(e),
                },
            },
        }
    } else {
        Err(Error::UnknownTag(tag))
    }
}

/// The state after cell `id` was made an object of the class in cell `class`,
/// which has to hold a string.
pub open spec fn spec_finish_object(
    st: ParseState,
    frozen: bool,
    id: nat,
    class: nat,
    value: nat,
) -> Result<(ParseState, nat), Error> {
    match spec_object_result(st.graph, class) {
        Ok(_) => Ok(
            (ParseState { graph: spec_set_object(st.graph, frozen, id, class, value), ..st }, id),
        ),
        Err(e) => Err(e),
    }
}

/// The items of an array of `count` values at `st.pos`, in order. The count is
/// held against the bound on arrays before anything is parsed.
pub open spec fn spec_parse_array(env: ParseEnv, st: ParseState, count: u64, depth: nat) -> Result<
    (ParseState, Seq<nat>),
    Error,
>
    decreases depth, 1nat, count + 1,
{
    if count > env.cfg.max_array_size {
        Err(Error::ArrayTooLarge { count, limit: env.cfg.max_array_size })
    } else {
        spec_parse_items(env, st, count as nat, depth)
    }
}

/// The first `n` values at `st.pos`, in order.
pub open spec fn spec_parse_items(env: ParseEnv, st: ParseState, n: nat, depth: nat) -> Result<
    (ParseState, Seq<nat>),
    Error,
>
    decreases depth, 1nat, n,
{
    if n == 0 {
        Ok((st, Seq::empty()))
    } else {
        match spec_parse_items(env, st, (n - 1) as nat, depth) {
            Err(e) => Err(e),
            Ok((before, items)) => match spec_parse_inner(env, before, false, depth) {
                Ok((done, item)) => Ok((done, items.push(item))),
                Err(e) => Err(e),
            },
        }
    }
}

/// The entries of a hash of `count` pairs at `st.pos`. The count is held against
/// the bound on hashes before anything is parsed. The copy cursor is put aside
/// for the whole body, so that a key or a value inside a copy may itself be a copy.
pub open spec fn spec_parse_hash(env: ParseEnv, st: ParseState, count: u64, depth: nat) -> Result<
    (ParseState, Map<Seq<u8>, nat>),
    Error,
>
    decreases depth, 1nat, count + 1,
{
    if count > env.cfg.max_hash_size {
        Err(Error::HashTooLarge { count, limit: env.cfg.max_hash_size })
    } else {
        match spec_parse_entries(env, with_copy_pos(st, 0), count as nat, depth) {
            Ok((done, entries)) => Ok((with_copy_pos(done, st.copy_pos), entries)),
            Err(e) => Err(e),
        }
    }
}

/// The first `n` pairs of a key and a value at `st.pos`. A key that the
/// representation does not accept is `InvalidType`, once its value is parsed.
pub open spec fn spec_parse_entries(env: ParseEnv, st: ParseState, n: nat, depth: nat) -> Result<
    (ParseState, Map<Seq<u8>, nat>),
    Error,
>
    decreases depth, 1nat, n,
{
    if n == 0 {
        Ok((st, Map::empty()))
    } else {
        match spec_parse_entries(env, st, (n - 1) as nat, depth) {
            Err(e) => Err(e),
            Ok((before, entries)) => match spec_parse_str(env, before) {
                Err(e) => Err(e),
                Ok((keyed, key)) => match spec_parse_inner(env, keyed, false, depth) {
                    Err(e) => Err(e),
                    Ok((done, value)) => if (env.key_ok)(key) {
                        Ok((done, entries.insert(key, value)))
                    } else {
                        Err(Error::InvalidType)
                    },
                },
            },
        }
    }
}

/// Once an item fails, the array fails with it, whatever its length.
proof fn lemma_items_error(env: ParseEnv, st: ParseState, i: nat, n: nat, depth: nat)
    requires
        i <= n,
        spec_parse_items(env, st, i, depth) is Err,
    ensures
        spec_parse_items(env, st, n, depth) == spec_parse_items(env, st, i, depth),
    decreases n,
{
    if i < n {
        lemma_items_error(env, st, i, (n - 1) as nat, depth);
    }
}

/// Once an entry fails, the hash fails with it, whatever its length.
proof fn lemma_entries_error(env: ParseEnv, st: ParseState, i: nat, n: nat, depth: nat)
    requires
        i <= n,
        spec_parse_entries(env, st, i, depth) is Err,
    ensures
        spec_parse_entries(env, st, n, depth) == spec_parse_entries(env, st, i, depth),
    decreases n,
{
    if i < n {
        lemma_entries_error(env, st, i, (n - 1) as nat, depth);
    }
}

proof fn lemma_tag_bits(byte: u8)
    by (bit_vector)
    ensures
        byte & TYPE_MASK < 0x80,
{
}

/// The rule of the representation `B` on hash keys.
pub open spec fn key_rule<'buf, B: Builder<'buf>>() -> spec_fn(Seq<u8>) -> bool {
    |key: Seq<u8>| <B::HashBuilder as HashBuilder<'buf, B::Value>>::accepts(key)
}

/// Whether `r` is what the model `m` says: the same error, or a handle to the same cell.
pub open spec fn same_value<'buf, V: Value<'buf>>(r: Result<V, Error>, m: Result<nat, Error>) -> bool {
    match m {
        Ok(id) => r is Ok && r->Ok_0.id() == id,
        Err(e) => r is Err && r->Err_0 == e,
    }
}

fn is_leaf_tag(tag: u8) -> (b: bool)
    ensures
        b == is_leaf(tag),
{
    tag <= NEG_1 || tag == VARINT || tag == ZIGZAG || tag == FLOAT || tag == DOUBLE || tag == UNDEF
        || tag == CANONICAL_UNDEF || tag == TRUE || tag == FALSE || tag == BINARY || tag
        == STR_UTF8 || (SHORT_BINARY_0 <= tag && tag <= SHORT_BINARY_31)
}

/// A parser over one body, which it reads once from front to back, but for copies.
pub struct Parser<'a, 'buf, B: Builder<'buf>> {
    config: &'a Config,
    reader: Reader<'buf>,
    track: HashMap<usize, B::Value>,
    builder: B,
    copy_pos: usize,
}

impl<'a, 'buf, B: Builder<'buf>> Parser<'a, 'buf, B> {
    /// What this parser was made with.
    pub closed spec fn env(&self) -> ParseEnv {
        ParseEnv { buf: self.reader@.input, cfg: self.config@, key_ok: key_rule::<B>() }
    }

    /// Where this parser stands.
    pub closed spec fn state(&self) -> ParseState {
        ParseState {
            pos: self.reader@.pos,
            copy_pos: self.copy_pos as nat,
            track: self.track@.map_values(|v: B::Value| v.id()),
            graph: self.builder.graph(),
        }
    }

    /// A parser at the start of `input`, with nothing tracked, that builds on
    /// what `builder` holds.
    pub fn new(builder: B, config: &'a Config, input: &'buf [u8]) -> (p: Parser<'a, 'buf, B>)
        ensures
            p.env() == (ParseEnv { buf: input@, cfg: config@, key_ok: key_rule::<B>() }),
            p.state() == (ParseState {
                pos: 0,
                copy_pos: 0,
                track: Map::empty(),
                graph: builder.graph(),
            }),
    {
        let p = Parser {
            config: config,
            reader: Reader::new(input),
            track: HashMap::new(),
            builder: builder,
            copy_pos: 0,
        };
        assert(p.track@.map_values(|v: B::Value| v.id()) =~= Map::<usize, nat>::empty());
        p
    }

    /// The builder, with the cells that were built so far.
    pub fn builder(&self) -> (b: &B)
        ensures
            b.graph() == self.state().graph,
    {
        &self.builder
    }

    /// Gives the builder back, with the cells that were built.
    pub fn into_builder(self) -> (b: B)
        ensures
            b.graph() == self.state().graph,
    {
        self.builder
    }

    /// Parses one value: the state moves as `spec_parse_inner` says, and the
    /// handle returned denotes the cell it names. On an error the cells made so
    /// far stay with the builder, and no more is said of position and tracking.
    /// No cell that was there before is changed, whether the parse succeeds or not.
    pub fn parse(&mut self) -> (r: Result<B::Value, Error>)
        ensures
            final(self).env() == old(self).env(),
            extends(old(self).state().graph, final(self).state().graph, -1),
            match spec_parse_inner(
                old(self).env(),
                old(self).state(),
                false,
                old(self).env().cfg.max_depth as nat,
            ) {
                Ok((st, id)) => r is Ok && r->Ok_0.id() == id && final(self).state() == st,
                Err(e) => r is Err && r->Err_0 == e,
            },
    {
        let depth: u64 = self.config.max_depth();
        self.parse_inner(false, depth)
    }

    fn track_cell(&mut self, pos: usize, value: &B::Value)
        ensures
            final(self).env() == old(self).env(),
            final(self).state() == (ParseState {
                track: old(self).state().track.insert(pos, value.id()),
                ..old(self).state()
            }),
    {
        let h = value.clone_handle();
        self.track.insert(pos, h);
        assert(self.track@.map_values(|v: B::Value| v.id()) =~= old(self).track@.map_values(
            |v: B::Value| v.id(),
        ).insert(pos, value.id()));
    }

    fn get(&self, p: usize) -> (r: Result<B::Value, Error>)
        ensures
            same_value(
                r,
                if self.state().track.contains_key(p) {
                    Ok(self.state().track[p])
                } else {
                    Err(Error::InvalidRef(p))
                },
            ),
    {
        match self.track.get(&p) {
            Some(v) => Ok(v.clone_handle()),
            None => Err(Error::InvalidRef(p)),
        }
    }

    fn read_tag(&mut self) -> (r: Result<(u8, usize), Error>)
        ensures
            final(self).env() == old(self).env(),
            match reader::spec_read_tag(old(self).env().buf, old(self).state().pos) {
                Ok((byte, end)) => r == Ok::<(u8, usize), Error>((byte, end as usize)) && end
                    <= usize::MAX && final(self).state() == at(old(self).state(), end),
                Err(e) => r == Err::<(u8, usize), Error>(of_reader_error(e)) && final(self).state() == old(self).state(),
            },
    {
        match self.reader.read_tag() {
            Ok(byte) => Ok((byte, self.reader.pos())),
            Err(e) => Err(Error::from(e)),
        }
    }

    fn read_varint(&mut self) -> (r: Result<u64, Error>)
        ensures
            final(self).env() == old(self).env(),
            match reader::spec_read_varint(old(self).env().buf, old(self).state().pos) {
                Ok((v, end)) => r == Ok::<u64, Error>(v) && final(self).state() == at(
                    old(self).state(),
                    end,
                ),
                Err(e) => r == Err::<u64, Error>(of_reader_error(e)) && final(self).state()
                    == old(self).state(),
            },
    {
        match self.reader.read_varint() {
            Ok(v) => Ok(v),
            Err(e) => Err(Error::from(e)),
        }
    }

    fn read_varlen(&mut self) -> (r: Result<usize, Error>)
        ensures
            final(self).env() == old(self).env(),
            match reader::spec_read_varlen(old(self).env().buf, old(self).state().pos) {
                Ok((v, end)) => r == Ok::<usize, Error>(v) && final(self).state() == at(
                    old(self).state(),
                    end,
                ) && end <= usize::MAX && end > old(self).state().pos,
                Err(e) => r == Err::<usize, Error>(of_reader_error(e)) && final(self).state()
                    == old(self).state(),
            },
    {
        proof {
            crate::varint::lemma_varint_end(
                reader::remaining(self.reader@.input, self.reader@.pos),
            );
        }
        let r = self.reader.read_varlen();
        proof {
            self.reader.lemma_pos_fits();
        }
        match r {
            Ok(v) => Ok(v),
            Err(e) => Err(Error::from(e)),
        }
    }

    /// Reads a string of `len` bytes, held against the bound on strings first.
    fn read_string(&mut self, len: usize) -> (r: Result<&'buf [u8], Error>)
        ensures
            final(self).env() == old(self).env(),
            match spec_read_string(old(self).env(), old(self).state().pos, len) {
                Ok((bytes, end)) => r is Ok && r->Ok_0@ == bytes && final(self).state() == at(
                    old(self).state(),
                    end,
                ),
                Err(e) => r is Err && r->Err_0 == e && final(self).state() == old(self).state(),
            },
    {
        if len as u64 > self.config.max_string_len() {
            return Err(Error::StringTooLarge(len as u64));
        }
        match self.reader.read_bytes(len) {
            Ok(bytes) => Ok(bytes),
            Err(e) => Err(Error::from(e)),
        }
    }

    /// Reads a string that is preceded by its length.
    fn read_long_string(&mut self) -> (r: Result<&'buf [u8], Error>)
        ensures
            final(self).env() == old(self).env(),
            final(self).state().graph == old(self).state().graph,
            match spec_read_long_string(old(self).env(), old(self).state().pos) {
                Ok((bytes, end)) => r is Ok && r->Ok_0@ == bytes && final(self).state() == at(
                    old(self).state(),
                    end,
                ),
                Err(e) => r is Err && r->Err_0 == e,
            },
    {
        let len: usize = self.read_varlen()?;
        self.read_string(len)
    }

    /// Fills `value` from the payload of a leaf.
    fn parse_leaf(&mut self, tag: u8, value: &B::Value) -> (r: Result<(), Error>)
        requires
            is_leaf(tag),
            tag < 0x80,
            value.id() < old(self).state().graph.len(),
        ensures
            final(self).env() == old(self).env(),
            extends(old(self).state().graph, final(self).state().graph, value.id() as int),
            match spec_leaf(old(self).env(), old(self).state(), tag, value.id()) {
                Ok(st) => r is Ok && final(self).state() == st,
                Err(e) => r is Err && r->Err_0 == e,
            },
    {
        if tag <= POS_15 {
            self.builder.set_u64(value, tag as u64);
        } else if tag <= NEG_1 {
            self.builder.set_i64(value, tag as i64 - 32);
        } else if tag == VARINT {
            let v: u64 = self.read_varint()?;
            self.builder.set_u64(value, v);
        } else if tag == ZIGZAG {
            let v: i64 = match self.reader.read_zigzag() {
                Ok(v) => v,
                Err(e) => return Err(Error::from(e)),
            };
            self.builder.set_i64(value, v);
        } else if tag == FLOAT {
            let bits: u32 = match self.reader.read_f32() {
                Ok(v) => v,
                Err(e) => return Err(Error::from(e)),
            };
            self.builder.set_f32(value, bits);
        } else if tag == DOUBLE {
            let bits: u64 = match self.reader.read_f64() {
                Ok(v) => v,
                Err(e) => return Err(Error::from(e)),
            };
            self.builder.set_f64(value, bits);
        } else if tag == UNDEF || tag == CANONICAL_UNDEF {
            self.builder.set_undef(value);
        } else if tag == TRUE {
            self.builder.set_true(value);
        } else if tag == FALSE {
            self.builder.set_false(value);
        } else if tag == BINARY {
            let bytes: &'buf [u8] = self.read_long_string()?;
            self.builder.set_binary(value, bytes);
        } else if tag == STR_UTF8 {
            let bytes: &'buf [u8] = self.read_long_string()?;
            self.builder.set_string(value, bytes);
        } else {
            let bytes: &'buf [u8] = self.read_string((tag - SHORT_BINARY_0) as usize)?;
            self.builder.set_binary(value, bytes);
        }
        Ok(())
    }

    /// Reads an offset and finds the cell that was tracked there.
    fn lookup(&mut self) -> (r: Result<B::Value, Error>)
        ensures
            final(self).env() == old(self).env(),
            final(self).state().graph == old(self).state().graph,
            match spec_lookup(old(self).env(), old(self).state()) {
                Ok((st, id)) => r is Ok && r->Ok_0.id() == id && final(self).state() == st,
                Err(e) => r is Err && r->Err_0 == e,
            },
    {
        let p: usize = self.read_varlen()?;
        self.get(p)
    }

    /// Reads the offset of a copy and moves to its target.
    fn begin_copy(&mut self) -> (r: Result<(), Error>)
        ensures
            final(self).env() == old(self).env(),
            final(self).state().graph == old(self).state().graph,
            match spec_begin_copy(old(self).env(), old(self).state()) {
                Ok(st) => r is Ok && final(self).state() == st && st.copy_pos != 0,
                Err(e) => r is Err && r->Err_0 == e,
            },
    {
        if self.copy_pos != 0 {
            return Err(Error::InvalidCopy);
        }
        let p: usize = self.read_varlen()?;
        if p == 0 {
            return Err(Error::InvalidCopy);
        }
        self.copy_pos = self.reader.set_pos(p - 1);
        Ok(())
    }

    /// Goes back to where the copy stood and clears the copy cursor.
    fn end_copy(&mut self)
        ensures
            final(self).env() == old(self).env(),
            final(self).state() == spec_end_copy(old(self).state()),
    {
        self.reader.set_pos(self.copy_pos);
        self.copy_pos = 0;
    }

    /// Parses a hash key.
    fn parse_str(&mut self, outer: bool) -> (r: Result<&'buf [u8], Error>)
        requires
            !outer ==> old(self).state().copy_pos != 0,
        ensures
            final(self).env() == old(self).env(),
            final(self).state().graph == old(self).state().graph,
            match spec_str(old(self).env(), old(self).state(), outer) {
                Ok((st, bytes)) => r is Ok && r->Ok_0@ == bytes && final(self).state() == st,
                Err(e) => r is Err && r->Err_0 == e,
            },
        decreases outer as int,
    {
        let (byte, _pos) = self.read_tag()?;
        let tag: u8 = byte & TYPE_MASK;
        proof {
            lemma_tag_bits(byte);
        }
        if SHORT_BINARY_0 <= tag && tag <= SHORT_BINARY_31 {
            self.read_string((tag - SHORT_BINARY_0) as usize)
        } else if tag == STR_UTF8 || tag == BINARY {
            self.read_long_string()
        } else if tag == COPY {
            self.begin_copy()?;
            let r = self.parse_str(false);
            self.end_copy();
            r
        } else {
            Err(Error::InvalidType)
        }
    }

    /// Parses one value; with `force_track` its cell is tracked whatever its tag says.
    fn parse_inner(&mut self, force_track: bool, depth: u64) -> (r: Result<B::Value, Error>)
        ensures
            final(self).env() == old(self).env(),
            extends(old(self).state().graph, final(self).state().graph, -1),
            match spec_parse_inner(old(self).env(), old(self).state(), force_track, depth as nat) {
                Ok((st, id)) => r is Ok && r->Ok_0.id() == id && final(self).state() == st,
                Err(e) => r is Err && r->Err_0 == e,
            },
        decreases depth, 0nat, 0nat,
    {
        if depth == 0 {
            return Err(Error::NestingTooDeep { limit: self.config.max_depth() });
        }
        let (byte, pos) = self.read_tag()?;
        let kept: bool = force_track || byte & TRACK_BIT != 0;
        let tag: u8 = byte & TYPE_MASK;
        proof {
            lemma_tag_bits(byte);
        }
        let value = self.builder.new();
        if kept {
            self.track_cell(pos, &value);
        }
        let out = self.fill(tag, value, depth - 1)?;
        if kept && (tag == ALIAS || tag == COPY) {
            self.track_cell(pos, &out);
        }
        Ok(out)
    }

    /// What filling a cell owes: the parser was not rebound, no cell was lost, and
    /// state and result are those of `spec_fill`.
    spec fn fill_post(
        before: &Self,
        after: &Self,
        r: Result<B::Value, Error>,
        tag: u8,
        id: nat,
        depth: nat,
    ) -> bool {
        &&& after.env() == before.env()
        &&& extends(before.state().graph, after.state().graph, id as int)
        &&& match spec_fill(before.env(), before.state(), tag, id, depth) {
            Ok((st, out)) => r is Ok && r->Ok_0.id() == out && after.state() == st,
            Err(e) => r is Err && r->Err_0 == e,
        }
    }

    /// Fills the cell of `value`, just made for a tag of type `tag`, and returns
    /// the handle to the value, which an alias or a copy has moved to another cell.
    fn fill(&mut self, tag: u8, value: B::Value, depth: u64) -> (r: Result<B::Value, Error>)
        requires
            tag < 0x80,
            value.id() < old(self).state().graph.len(),
        ensures
            Self::fill_post(old(self), final(self), r, tag, value.id(), depth as nat),
        decreases depth, 3nat, 0nat,
    {
        if is_leaf_tag(tag) {
            match self.parse_leaf(tag, &value) {
                Ok(_) => Ok(value),
                Err(e) => Err(e),
            }
        } else if tag == REFN || tag == WEAKEN {
            self.fill_nested(tag, value, depth)
        } else if tag == REFP || tag == ALIAS {
            self.fill_backref(tag, value, depth)
        } else if tag == COPY {
            self.fill_copy(tag, value, depth)
        } else if tag == ARRAY {
            self.fill_array(tag, value, depth)
        } else if ARRAYREF_0 <= tag && tag <= ARRAYREF_15 {
            self.fill_arrayref(tag, value, depth)
        } else if tag == HASH {
            self.fill_hash(tag, value, depth)
        } else if HASHREF_0 <= tag && tag <= HASHREF_15 {
            self.fill_hashref(tag, value, depth)
        } else if tag == OBJECT || tag == OBJECT_FREEZE {
            self.fill_object(tag, value, depth)
        } else if tag == OBJECTV || tag == OBJECTV_FREEZE {
            self.fill_objectv(tag, value, depth)
        } else if tag == REGEXP {
            self.fill_regexp(tag, value, depth)
        } else {
            Err(Error::UnknownTag(tag))
        }
    }

    /// `REFN` and `WEAKEN`: a reference, strong or weak, to the value that follows.
    fn fill_nested(&mut self, tag: u8, value: B::Value, depth: u64) -> (r: Result<B::Value, Error>)
        requires
            tag == REFN || tag == WEAKEN,
            value.id() < old(self).state().graph.len(),
        ensures
            Self::fill_post(old(self), final(self), r, tag, value.id(), depth as nat),
        decreases depth, 2nat, 0nat,
    {
        let child = self.parse_inner(false, depth)?;
        if tag == REFN {
            self.builder.set_ref(&value, child);
        } else {
            self.builder.set_weak_ref(&value, child);
        }
        Ok(value)
    }

    /// `REFP` and `ALIAS`: a reference to a tracked cell, or that cell itself.
    fn fill_backref(&mut self, tag: u8, value: B::Value, depth: u64) -> (r: Result<
        B::Value,
        Error,
    >)
        requires
            tag == REFP || tag == ALIAS,
            value.id() < old(self).state().graph.len(),
        ensures
            Self::fill_post(old(self), final(self), r, tag, value.id(), depth as nat),
    {
        let mut value = value;
        let target = self.lookup()?;
        if tag == REFP {
            self.builder.set_ref(&value, target);
        } else {
            value.set_alias(target);
        }
        Ok(value)
    }

    /// `COPY`: the value parsed once more at an earlier offset.
    fn fill_copy(&mut self, tag: u8, value: B::Value, depth: u64) -> (r: Result<B::Value, Error>)
        requires
            tag == COPY,
            value.id() < old(self).state().graph.len(),
        ensures
            Self::fill_post(old(self), final(self), r, tag, value.id(), depth as nat),
        decreases depth, 2nat, 0nat,
    {
        let mut value = value;
        self.begin_copy()?;
        let copied = self.parse_inner(false, depth);
        self.end_copy();
        let out = copied?;
        value.set_alias(out);
        Ok(value)
    }

    /// `ARRAY`: an array of as many items as the count that precedes them says.
    fn fill_array(&mut self, tag: u8, value: B::Value, depth: u64) -> (r: Result<B::Value, Error>)
        requires
            tag == ARRAY,
            value.id() < old(self).state().graph.len(),
        ensures
            Self::fill_post(old(self), final(self), r, tag, value.id(), depth as nat),
        decreases depth, 2nat, 0nat,
    {
        let count: u64 = self.read_varint()?;
        let items = self.parse_array(count, depth)?;
        self.builder.set_array(&value, items);
        Ok(value)
    }

    /// `ARRAYREF`: a reference to an array, which gets a cell of its own, of as
    /// many items as the tag says.
    fn fill_arrayref(&mut self, tag: u8, value: B::Value, depth: u64) -> (r: Result<
        B::Value,
        Error,
    >)
        requires
            ARRAYREF_0 <= tag <= ARRAYREF_15,
            value.id() < old(self).state().graph.len(),
        ensures
            Self::fill_post(old(self), final(self), r, tag, value.id(), depth as nat),
        decreases depth, 2nat, 0nat,
    {
        let items = self.parse_array((tag - ARRAYREF_0) as u64, depth)?;
        let ghost done = self.state();
        let inner = self.builder.new();
        self.builder.set_array(&inner, items);
        assert(self.builder.graph() =~= done.graph.push(
            Node::Array(<B::Value as Value<'buf>>::array_items(&items)),
        ));
        self.builder.set_ref(&value, inner);
        Ok(value)
    }

    /// `HASH`: a hash of as many entries as the count that precedes them says.
    fn fill_hash(&mut self, tag: u8, value: B::Value, depth: u64) -> (r: Result<B::Value, Error>)
        requires
            tag == HASH,
            value.id() < old(self).state().graph.len(),
        ensures
            Self::fill_post(old(self), final(self), r, tag, value.id(), depth as nat),
        decreases depth, 2nat, 0nat,
    {
        let count: u64 = self.read_varint()?;
        let entries = self.parse_hash(count, depth)?;
        self.builder.set_hash(&value, entries);
        Ok(value)
    }

    /// `HASHREF`: a reference to a hash, which gets a cell of its own, of as many
    /// entries as the tag says.
    fn fill_hashref(&mut self, tag: u8, value: B::Value, depth: u64) -> (r: Result<
        B::Value,
        Error,
    >)
        requires
            HASHREF_0 <= tag <= HASHREF_15,
            value.id() < old(self).state().graph.len(),
        ensures
            Self::fill_post(old(self), final(self), r, tag, value.id(), depth as nat),
        decreases depth, 2nat, 0nat,
    {
        let entries = self.parse_hash((tag - HASHREF_0) as u64, depth)?;
        let ghost done = self.state();
        let inner = self.builder.new();
        self.builder.set_hash(&inner, entries);
        assert(self.builder.graph() =~= done.graph.push(
            Node::Hash(<B::Value as Value<'buf>>::hash_entries(&entries)),
        ));
        self.builder.set_ref(&value, inner);
        Ok(value)
    }

    /// `OBJECT` and `OBJECT_FREEZE`: a class name, which is tracked and parsed
    /// with the copy cursor put aside, and a value.
    fn fill_object(&mut self, tag: u8, value: B::Value, depth: u64) -> (r: Result<B::Value, Error>)
        requires
            tag == OBJECT || tag == OBJECT_FREEZE,
            value.id() < old(self).state().graph.len(),
        ensures
            Self::fill_post(old(self), final(self), r, tag, value.id(), depth as nat),
        decreases depth, 2nat, 0nat,
    {
        let saved: usize = self.copy_pos;
        self.copy_pos = 0;
        let class = self.parse_inner(true, depth)?;
        self.copy_pos = saved;
        let body = self.parse_inner(false, depth)?;
        self.finish_object(tag == OBJECT_FREEZE, value, class, body)
    }

    /// `OBJECTV` and `OBJECTV_FREEZE`: the offset of a tracked class name, and a value.
    fn fill_objectv(&mut self, tag: u8, value: B::Value, depth: u64) -> (r: Result<
        B::Value,
        Error,
    >)
        requires
            tag == OBJECTV || tag == OBJECTV_FREEZE,
            value.id() < old(self).state().graph.len(),
        ensures
            Self::fill_post(old(self), final(self), r, tag, value.id(), depth as nat),
        decreases depth, 2nat, 0nat,
    {
        let class = self.lookup()?;
        let body = self.parse_inner(false, depth)?;
        self.finish_object(tag == OBJECTV_FREEZE, value, class, body)
    }

    /// `REGEXP`: a pattern and flags.
    fn fill_regexp(&mut self, tag: u8, value: B::Value, depth: u64) -> (r: Result<B::Value, Error>)
        requires
            tag == REGEXP,
            value.id() < old(self).state().graph.len(),
        ensures
            Self::fill_post(old(self), final(self), r, tag, value.id(), depth as nat),
        decreases depth, 2nat, 0nat,
    {
        let pattern = self.parse_inner(false, depth)?;
        let flags = self.parse_inner(false, depth)?;
        match self.builder.set_regexp(&value, pattern, flags) {
            Ok(_) => Ok(value),
            Err(e) => Err(e),
        }
    }

    fn finish_object(&mut self, frozen: bool, value: B::Value, class: B::Value, body: B::Value) -> (r:
        Result<B::Value, Error>)
        requires
            value.id() < old(self).state().graph.len(),
        ensures
            final(self).env() == old(self).env(),
            extends(old(self).state().graph, final(self).state().graph, value.id() as int),
            match spec_finish_object(old(self).state(), frozen, value.id(), class.id(), body.id()) {
                Ok((st, id)) => r is Ok && r->Ok_0.id() == id && final(self).state() == st,
                Err(e) => r is Err && r->Err_0 == e,
            },
    {
        let set = if frozen {
            self.builder.set_object_freeze(&value, class, body)
        } else {
            self.builder.set_object(&value, class, body)
        };
        match set {
            Ok(_) => Ok(value),
            Err(e) => Err(e),
        }
    }

    /// Parses the `count` items of an array.
    fn parse_array(&mut self, count: u64, depth: u64) -> (r: Result<
        <B::Value as Value<'buf>>::Array,
        Error,
    >)
        ensures
            final(self).env() == old(self).env(),
            extends(old(self).state().graph, final(self).state().graph, -1),
            match spec_parse_array(old(self).env(), old(self).state(), count, depth as nat) {
                Ok((st, items)) => r is Ok && <B::Value as Value<'buf>>::array_items(&r->Ok_0)
                    == items && final(self).state() == st,
                Err(e) => r is Err && r->Err_0 == e,
            },
        decreases depth, 1nat, 0nat,
    {
        if count > self.config.max_array_size() {
            return Err(
                Error::ArrayTooLarge { count: count, limit: self.config.max_array_size() },
            );
        }
        let mut v = self.builder.build_array(count);
        let ghost env = self.env();
        let ghost start = self.state();
        let mut i: u64 = 0;
        while i < count
            invariant
                i <= count,
                count <= env.cfg.max_array_size,
                self.env() == env,
                env == old(self).env(),
                start == old(self).state(),
                extends(start.graph, self.state().graph, -1),
                spec_parse_items(env, start, i as nat, depth as nat) == Ok::<
                    (ParseState, Seq<nat>),
                    Error,
                >((self.state(), v.items())),
            decreases count - i,
        {
            let value = match self.parse_inner(false, depth) {
                Ok(value) => value,
                Err(e) => {
                    proof {
                        lemma_items_error(env, start, (i + 1) as nat, count as nat, depth as nat);
                    }
                    return Err(e);
                },
            };
            match v.insert(value) {
                Ok(_) => {},
                Err(e) => {
                    return Err(e);
                },
            }
            i += 1;
        }
        Ok(v.finalize())
    }

    /// Parses the `count` entries of a hash.
    fn parse_hash(&mut self, count: u64, depth: u64) -> (r: Result<
        <B::Value as Value<'buf>>::Hash,
        Error,
    >)
        ensures
            final(self).env() == old(self).env(),
            extends(old(self).state().graph, final(self).state().graph, -1),
            match spec_parse_hash(old(self).env(), old(self).state(), count, depth as nat) {
                Ok((st, entries)) => r is Ok && <B::Value as Value<'buf>>::hash_entries(&r->Ok_0)
                    == entries && final(self).state() == st,
                Err(e) => r is Err && r->Err_0 == e,
            },
        decreases depth, 1nat, 0nat,
    {
        if count > self.config.max_hash_size() {
            return Err(Error::HashTooLarge { count: count, limit: self.config.max_hash_size() });
        }
        let old_copy_pos: usize = self.copy_pos;
        self.copy_pos = 0;
        let mut m = self.builder.build_hash(count);
        let ghost env = self.env();
        let ghost start = self.state();
        let mut i: u64 = 0;
        while i < count
            invariant
                i <= count,
                count <= env.cfg.max_hash_size,
                self.env() == env,
                env == old(self).env(),
                start == with_copy_pos(old(self).state(), 0),
                env.key_ok == key_rule::<B>(),
                extends(start.graph, self.state().graph, -1),
                spec_parse_entries(env, start, i as nat, depth as nat) == Ok::<
                    (ParseState, Map<Seq<u8>, nat>),
                    Error,
                >((self.state(), m.entries())),
            decreases count - i,
        {
            let k: &'buf [u8] = match self.parse_str(true) {
                Ok(k) => k,
                Err(e) => {
                    proof {
                        lemma_entries_error(env, start, (i + 1) as nat, count as nat, depth as nat);
                    }
                    return Err(e);
                },
            };
            let value = match self.parse_inner(false, depth) {
                Ok(value) => value,
                Err(e) => {
                    proof {
                        lemma_entries_error(env, start, (i + 1) as nat, count as nat, depth as nat);
                    }
                    return Err(e);
                },
            };
            match m.insert(k, value) {
                Ok(_) => {},
                Err(e) => {
                    proof {
                        lemma_entries_error(env, start, (i + 1) as nat, count as nat, depth as nat);
                    }
                    return Err(e);
                },
            }
            i += 1;
        }
        self.copy_pos = old_copy_pos;
        Ok(m.finalize())
    }
}

/// Parses the one value at the start of `s` with the default bounds, and gives
/// the handle to it together with the builder that holds its cells.
pub fn parse<'buf, B: Builder<'buf>>(s: &'buf [u8], builder: B) -> (r: Result<(B::Value, B), Error>)
    ensures
        match spec_parse_inner(
            ParseEnv { buf: s@, cfg: crate::config::default_bounds(), key_ok: key_rule::<B>() },
            ParseState { pos: 0, copy_pos: 0, track: Map::empty(), graph: builder.graph() },
            false,
            crate::config::default_bounds().max_depth as nat,
        ) {
            Ok((st, id)) => r is Ok && r->Ok_0.0.id() == id && r->Ok_0.1.graph() == st.graph,
            Err(e) => r is Err && r->Err_0 == e,
        },
{
    let config = Config::default();
    let mut p = Parser::new(builder, &config, s);
    match p.parse() {
        Ok(value) => Ok((value, p.into_builder())),
        Err(e) => Err(e),
    }
}

} // verus!
