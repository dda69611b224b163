//! A builder that keeps the cells of a document in one place and hands out
//! indices into it. Strings and hash keys borrow from the document's bytes;
//! arrays and hashes live in an [`Arena`], which outlives the cells.
use vstd::prelude::*;
use crate::parser;
use crate::parser::Node;
pub use crate::parser::Error;

verus! {

/// A handle to a cell of an [`ArenaBuilder`]: its index.
#[derive(Copy, Clone, Debug, PartialEq, Eq)]
pub struct Value(pub usize);

/// What a cell holds.
#[derive(Copy, Clone, Debug, PartialEq)]
pub enum Inner<'a> {
    Undef,
    I64(i64),
    U64(u64),
    /// The bits of a single-precision float.
    F32(u32),
    /// The bits of a double-precision float.
    F64(u64),
    Binary(&'a [u8]),
    String(&'a [u8]),
    Ref(Value),
    WeakRef(Value),
    Array(&'a [Value]),
    /// The entries of a hash in the order of the document. Of two entries with
    /// one key the later one counts.
    Hash(&'a [(&'a [u8], Value)]),
    Object(Value, Value),
    ObjectFreeze(Value, Value),
    Bool(bool),
    Regexp(Value, Value),
}

/// The numbers of the cells that `items` denote.
pub open spec fn ids_of(items: Seq<Value>) -> Seq<nat> {
    items.map_values(|v: Value| v.0 as nat)
}

/// The hash that the pairs of `pairs` make up when they are entered in order.
pub open spec fn entries_of<'a>(pairs: Seq<(&'a [u8], Value)>) -> Map<Seq<u8>, nat>
    decreases pairs.len(),
{
    if pairs.len() == 0 {
        Map::empty()
    } else {
        entries_of(pairs.drop_last()).insert(pairs.last().0@, pairs.last().1.0 as nat)
    }
}

/// What a cell holds, in the parser's model of the graph.
pub open spec fn node_of<'a>(cell: Inner<'a>) -> Node {
    match cell {
        Inner::Undef => Node::Undef,
        Inner::I64(v) => Node::I64(v),
        Inner::U64(v) => Node::U64(v),
        Inner::F32(bits) => Node::F32(bits),
        Inner::F64(bits) => Node::F64(bits),
        Inner::Binary(s) => Node::Binary(s@),
        Inner::String(s) => Node::Str(s@),
        Inner::Ref(o) => Node::Ref(o.0 as nat),
        Inner::WeakRef(o) => Node::WeakRef(o.0 as nat),
        Inner::Array(items) => Node::Array(ids_of(items@)),
        Inner::Hash(pairs) => Node::Hash(entries_of(pairs@)),
        Inner::Object(class, value) => Node::Object { class: class.0 as nat, value: value.0 as nat },
        Inner::ObjectFreeze(class, value) => Node::ObjectFreeze {
            class: class.0 as nat,
            value: value.0 as nat,
        },
        Inner::Bool(b) => if b {
            Node::True
        } else {
            Node::False
        },
        Inner::Regexp(pattern, flags) => Node::Regexp {
            pattern: pattern.0 as nat,
            flags: flags.0 as nat,
        },
    }
}

/// The graph that the cells of `cells` make up.
pub open spec fn graph_of<'a>(cells: Seq<Inner<'a>>) -> Seq<Node> {
    cells.map_values(|cell: Inner<'a>| node_of(cell))
}

/// Where the arrays and the hashes of documents are kept: two arenas of the
/// crate `typed_arena`, of which nothing is known here but what [`Arena::new`]
/// and the two functions that allocate state.
#[verifier::external_body]
pub struct Arena<'a> {
    arrays: typed_arena::Arena<Vec<Value>>,
    hashes: typed_arena::Arena<Vec<(&'a [u8], Value)>>,
}

impl<'a> Arena<'a> {
    /// `typed_arena::Arena::new`, twice: two arenas that hold nothing yet.
    #[verifier::external_body]
    pub fn new() -> (arena: Self) {
        Arena { arrays: typed_arena::Arena::new(), hashes: typed_arena::Arena::new() }
    }

    /// `typed_arena::Arena::alloc`: moves `items` into the arena and gives a
    /// reference to them that lasts as long as the arena.
    #[verifier::external_body]
    fn keep_array(&'a self, items: Vec<Value>) -> (kept: &'a [Value])
        ensures
            kept@ == items@,
    {
        self.arrays.alloc(items)
    }

    /// `typed_arena::Arena::alloc`: moves `pairs` into the arena and gives a
    /// reference to them that lasts as long as the arena.
    #[verifier::external_body]
    fn keep_hash(&'a self, pairs: Vec<(&'a [u8], Value)>) -> (kept: &'a [(&'a [u8], Value)])
        ensures
            kept@ == pairs@,
    {
        self.hashes.alloc(pairs)
    }
}

impl<'a> parser::Value<'a> for Value {
    type Array = Vec<Value>;

    type Hash = Vec<(&'a [u8], Value)>;

    open spec fn id(&self) -> nat {
        self.0 as nat
    }

    open spec fn array_items(a: &Vec<Value>) -> Seq<nat> {
        ids_of(a@)
    }

    open spec fn hash_entries(h: &Vec<(&'a [u8], Value)>) -> Map<Seq<u8>, nat> {
        entries_of(h@)
    }

    fn clone_handle(&self) -> (h: Self) {
        Value(self.0)
    }

    fn set_alias(&mut self, o: Self) {
        self.0 = o.0;
    }
}

impl<'a> parser::ArrayBuilder<'a, Value> for Vec<Value> {
    open spec fn items(&self) -> Seq<nat> {
        ids_of(self@)
    }

    fn insert(&mut self, value: Value) -> (r: Result<(), Error>) {
        self.push(value);
        assert(ids_of(self@) =~= ids_of(old(self)@).push(value.0 as nat));
        Ok(())
    }

    fn finalize(self) -> (a: Vec<Value>) {
        self
    }
}

/// `core::str::from_utf8`, of which only success or failure is kept: it
/// succeeds exactly on the byte strings that are valid UTF-8.
#[verifier::external_body]
fn is_utf8(bytes: &[u8]) -> (b: bool)
    ensures
        b == vstd::utf8::valid_utf8(bytes@),
{
    std::str::from_utf8(bytes).is_ok()
}

impl<'a> parser::HashBuilder<'a, Value> for Vec<(&'a [u8], Value)> {
    /// The keys of an arena's hashes are text.
    open spec fn accepts(key: Seq<u8>) -> bool {
        vstd::utf8::valid_utf8(key)
    }

    open spec fn entries(&self) -> Map<Seq<u8>, nat> {
        entries_of(self@)
    }

    fn insert(&mut self, key: &'a [u8], value: Value) -> (r: Result<(), Error>) {
        if !is_utf8(key) {
            return Err(Error::InvalidType);
        }
        self.push((key, value));
        assert(self@.drop_last() =~= old(self)@);
        Ok(())
    }

    fn finalize(self) -> (h: Vec<(&'a [u8], Value)>) {
        self
    }
}

/// The builder of a graph of cells, which it owns. Handles to its cells are
/// good for as long as it lives.
pub struct ArenaBuilder<'a> {
    arena: &'a Arena<'a>,
    cells: Vec<Inner<'a>>,
}

impl<'a> View for ArenaBuilder<'a> {
    type V = Seq<Inner<'a>>;

    closed spec fn view(&self) -> Seq<Inner<'a>> {
        self.cells@
    }
}

impl<'a> ArenaBuilder<'a> {
    /// A builder without cells that keeps its arrays and hashes in `arena`.
    pub fn new(arena: &'a Arena<'a>) -> (b: ArenaBuilder<'a>)
        ensures
            b@ == Seq::<Inner<'a>>::empty(),
    {
        ArenaBuilder { arena: arena, cells: Vec::new() }
    }

    /// The number of cells.
    pub fn len(&self) -> (n: usize)
        ensures
            n == self@.len(),
    {
        self.cells.len()
    }

    /// What the cell of `value` holds, if this builder has that cell.
    pub fn get(&self, value: Value) -> (cell: Option<Inner<'a>>)
        ensures
            cell == if value.0 < self@.len() {
                Some(self@[value.0 as int])
            } else {
                None
            },
    {
        if value.0 < self.cells.len() {
            Some(self.cells[value.0])
        } else {
            None
        }
    }

    /// Whether the cell of `value` holds a byte string.
    fn is_string(&self, value: Value) -> (b: bool)
        ensures
            b == parser::reads_as_string(graph_of(self@), value.0 as nat),
    {
        if value.0 < self.cells.len() {
            match self.cells[value.0] {
                Inner::Binary(_) => true,
                Inner::String(_) => true,
                _ => false,
            }
        } else {
            false
        }
    }

    /// Puts `cell` into the cell of `value`.
    fn set(&mut self, value: &Value, cell: Inner<'a>)
        requires
            value.0 < old(self)@.len(),
        ensures
            final(self)@ == old(self)@.update(value.0 as int, cell),
            graph_of(final(self)@) == graph_of(old(self)@).update(value.0 as int, node_of(cell)),
    {
        self.cells[value.0] = cell;
        assert(graph_of(self@) =~= graph_of(old(self)@).update(value.0 as int, node_of(cell)));
    }
}

impl<'a> parser::Builder<'a> for ArenaBuilder<'a> {
    type Value = Value;

    type ArrayBuilder = Vec<Value>;

    type HashBuilder = Vec<(&'a [u8], Value)>;

    open spec fn graph(&self) -> Seq<Node> {
        graph_of(self@)
    }

    fn new(&mut self) -> (v: Value) {
        let id: usize = self.cells.len();
        self.cells.push(Inner::Undef);
        assert(graph_of(self@) =~= graph_of(old(self)@).push(Node::Undef));
        Value(id)
    }

    fn build_array(&mut self, size: u64) -> (a: Vec<Value>) {
        Vec::new()
    }

    fn build_hash(&mut self, size: u64) -> (h: Vec<(&'a [u8], Value)>) {
        Vec::new()
    }

    fn set_undef(&mut self, cell: &Value) {
        self.set(cell, Inner::Undef);
    }

    fn set_true(&mut self, cell: &Value) {
        self.set(cell, Inner::Bool(true));
    }

    fn set_false(&mut self, cell: &Value) {
        self.set(cell, Inner::Bool(false));
    }

    fn set_i64(&mut self, cell: &Value, v: i64) {
        self.set(cell, Inner::I64(v));
    }

    fn set_u64(&mut self, cell: &Value, v: u64) {
        self.set(cell, Inner::U64(v));
    }

    fn set_f32(&mut self, cell: &Value, bits: u32) {
        self.set(cell, Inner::F32(bits));
    }

    fn set_f64(&mut self, cell: &Value, bits: u64) {
        self.set(cell, Inner::F64(bits));
    }

    fn set_ref(&mut self, cell: &Value, o: Value) {
        self.set(cell, Inner::Ref(o));
    }

    fn set_weak_ref(&mut self, cell: &Value, o: Value) {
        self.set(cell, Inner::WeakRef(o));
    }

    fn set_array(&mut self, cell: &Value, a: Vec<Value>) {
        let arena: &'a Arena<'a> = self.arena;
        let kept: &'a [Value] = arena.keep_array(a);
        self.set(cell, Inner::Array(kept));
    }

    fn set_hash(&mut self, cell: &Value, h: Vec<(&'a [u8], Value)>) {
        let arena: &'a Arena<'a> = self.arena;
        let kept: &'a [(&'a [u8], Value)] = arena.keep_hash(h);
        self.set(cell, Inner::Hash(kept));
    }

    fn set_binary(&mut self, cell: &Value, s: &'a [u8]) {
        self.set(cell, Inner::Binary(s));
    }

    fn set_string(&mut self, cell: &Value, s: &'a [u8]) {
        self.set(cell, Inner::String(s));
    }

    fn set_object(&mut self, cell: &Value, class: Value, value: Value) -> (r: Result<(), Error>) {
        if !self.is_string(class) {
            return Err(Error::InvalidType);
        }
        self.set(cell, Inner::Object(class, value));
        Ok(())
    }

    fn set_object_freeze(&mut self, cell: &Value, class: Value, value: Value) -> (r: Result<
        (),
        Error,
    >) {
        if !self.is_string(class) {
            return Err(Error::InvalidType);
        }
        self.set(cell, Inner::ObjectFreeze(class, value));
        Ok(())
    }

    fn set_regexp(&mut self, cell: &Value, pattern: Value, flags: Value) -> (r: Result<(), Error>) {
        if !self.is_string(pattern) || !self.is_string(flags) {
            return Err(Error::InvalidType);
        }
        self.set(cell, Inner::Regexp(pattern, flags));
        Ok(())
    }
}

/// Parses the one value at the start of `s` with the default bounds, and gives
/// the handle to it together with the builder that holds its cells. Arrays
/// and hashes are kept in `arena`.
pub fn parse<'a>(s: &'a [u8], arena: &'a Arena<'a>) -> (r: Result<(Value, ArenaBuilder<'a>), Error>)
    ensures
        match parser::spec_parse_inner(
            parser::ParseEnv {
                buf: s@,
                cfg: crate::config::default_bounds(),
                key_ok: |key: Seq<u8>| vstd::utf8::valid_utf8(key),
            },
            parser::ParseState {
                pos: 0,
                copy_pos: 0,
                track: Map::empty(),
                graph: Seq::empty(),
            },
            false,
            crate::config::default_bounds().max_depth as nat,
        ) {
            Ok((st, id)) => r is Ok && r->Ok_0.0.0 == id && graph_of(r->Ok_0.1@) == st.graph,
            Err(e) => r is Err && r->Err_0 == e,
        },
{
    let builder = ArenaBuilder::new(arena);
    assert(parser::key_rule::<ArenaBuilder<'a>>() == (|key: Seq<u8>| vstd::utf8::valid_utf8(key)));
    assert(graph_of(builder@) =~= Seq::<Node>::empty());
    parser::parse(s, builder)
}

} // verus!
