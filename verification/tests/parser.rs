use std::collections::BTreeMap;

use sereal_decoder::arena::parse;
use sereal_decoder::arena::Arena;
use sereal_decoder::arena::ArenaBuilder;
use sereal_decoder::arena::Inner;
use sereal_decoder::arena::Value;
use sereal_decoder::config::Config;
use sereal_decoder::parser::Error;
use sereal_decoder::parser::Parser;

/// A cell with all that it refers to, for comparisons. A cell that is met
/// again below itself shows as `Loop`.
#[derive(Debug, PartialEq, Clone)]
enum Tree {
    Undef,
    I64(i64),
    U64(u64),
    F32(f32),
    F64(f64),
    Binary(Vec<u8>),
    Str(Vec<u8>),
    Ref(Box<Tree>),
    WeakRef(Box<Tree>),
    Array(Vec<Tree>),
    Hash(BTreeMap<Vec<u8>, Tree>),
    Object(Box<Tree>, Box<Tree>),
    ObjectFreeze(Box<Tree>, Box<Tree>),
    Bool(bool),
    Regexp(Box<Tree>, Box<Tree>),
    Loop,
}

fn tree_at(arena: &ArenaBuilder, v: Value, open: &mut Vec<usize>) -> Tree {
    if open.contains(&v.0) {
        return Tree::Loop;
    }
    open.push(v.0);
    let t = match arena.get(v).expect("a handle without a cell") {
        Inner::Undef => Tree::Undef,
        Inner::I64(x) => Tree::I64(x),
        Inner::U64(x) => Tree::U64(x),
        Inner::F32(bits) => Tree::F32(f32::from_bits(bits)),
        Inner::F64(bits) => Tree::F64(f64::from_bits(bits)),
        Inner::Binary(s) => Tree::Binary(s.to_vec()),
        Inner::String(s) => Tree::Str(s.to_vec()),
        Inner::Ref(o) => Tree::Ref(Box::new(tree_at(arena, o, open))),
        Inner::WeakRef(o) => Tree::WeakRef(Box::new(tree_at(arena, o, open))),
        Inner::Array(items) => Tree::Array(items.iter().map(|i| tree_at(arena, *i, open)).collect()),
        Inner::Hash(pairs) => {
            let mut m = BTreeMap::new();
            for (k, i) in pairs.iter() {
                m.insert(k.to_vec(), tree_at(arena, *i, open));
            }
            Tree::Hash(m)
        }
        Inner::Object(c, o) => Tree::Object(
            Box::new(tree_at(arena, c, open)),
            Box::new(tree_at(arena, o, open)),
        ),
        Inner::ObjectFreeze(c, o) => Tree::ObjectFreeze(
            Box::new(tree_at(arena, c, open)),
            Box::new(tree_at(arena, o, open)),
        ),
        Inner::Bool(b) => Tree::Bool(b),
        Inner::Regexp(p, f) => Tree::Regexp(
            Box::new(tree_at(arena, p, open)),
            Box::new(tree_at(arena, f, open)),
        ),
    };
    open.pop();
    t
}

fn p(s: &[u8]) -> Tree {
    let arena = Arena::new();
    let (v, cells) = parse(s, &arena).unwrap();
    tree_at(&cells, v, &mut Vec::new())
}

fn e(s: &[u8]) -> Error {
    let arena = Arena::new();
    match parse(s, &arena) {
        Ok((v, _)) => panic!("parsed as {:?}", v),
        Err(e) => e,
    }
}

fn with(config: &Config, s: &[u8]) -> Result<Tree, Error> {
    let arena = Arena::new();
    let mut parser = Parser::new(ArenaBuilder::new(&arena), config, s);
    let v = parser.parse()?;
    let cells = parser.into_builder();
    Ok(tree_at(&cells, v, &mut Vec::new()))
}

/// The items of the array that the cell of `v` refers to.
fn items_behind(cells: &ArenaBuilder, v: Value) -> Vec<Value> {
    match cells.get(v) {
        Some(Inner::Ref(inner)) => match cells.get(inner) {
            Some(Inner::Array(items)) => items.to_vec(),
            other => panic!("unexpected {:?}", other),
        },
        other => panic!("unexpected {:?}", other),
    }
}

fn bin(s: &[u8]) -> Tree {
    Tree::Binary(s.to_vec())
}

fn r(t: Tree) -> Tree {
    Tree::Ref(Box::new(t))
}

fn hash(pairs: &[(&[u8], Tree)]) -> Tree {
    let mut m = BTreeMap::new();
    for (k, v) in pairs.iter() {
        m.insert(k.to_vec(), v.clone());
    }
    Tree::Hash(m)
}

#[test]
fn arena_test_self_ref() {
    let store = Arena::new();
    let (a, arena) = parse(b"\xa9\x01", &store).unwrap();
    let a_id = a.0;
    let b_id = match arena.get(a) {
        Some(Inner::Ref(Value(b))) => b,
        _ => panic!("expecting reference"),
    };
    assert_eq!(a_id, b_id);
}

#[test]
fn empty_buffer_is_eof() {
    assert_eq!(e(b""), Error::UnexpectedEof);
    assert_eq!(e(b"\x3f\x3f"), Error::UnexpectedEof);
}

#[test]
fn small_integers() {
    assert_eq!(p(b"\x00"), Tree::U64(0));
    assert_eq!(p(b"\x0f"), Tree::U64(15));
    assert_eq!(p(b"\x10"), Tree::I64(-16));
    assert_eq!(p(b"\x11"), Tree::I64(-15));
    assert_eq!(p(b"\x1f"), Tree::I64(-1));
    // the track bit does not change the value
    assert_eq!(p(b"\x8f"), Tree::U64(15));
    assert_eq!(p(b"\x90"), Tree::I64(-16));
}

#[test]
fn varints_and_zigzags() {
    assert_eq!(p(b"\x20\xac\x02"), Tree::U64(300));
    assert_eq!(p(b"\x20\xff\xff\xff\xff\xff\xff\xff\xff\xff\x01"), Tree::U64(u64::MAX));
    assert_eq!(p(b"\x21\x03"), Tree::I64(-2));
    assert_eq!(p(b"\x21\xff\xff\xff\xff\xff\xff\xff\xff\xff\x01"), Tree::I64(i64::MIN));
    assert_eq!(e(b"\x20"), Error::UnexpectedEof);
    assert_eq!(e(b"\x20\x80"), Error::UnexpectedEof);
    assert_eq!(e(b"\x20\x80\x80\x80\x80\x80\x80\x80\x80\x80\x80"), Error::VarintOverflow);
    assert_eq!(e(b"\x21\x80\x80\x80\x80\x80\x80\x80\x80\x80\x80"), Error::VarintOverflow);
}

#[test]
fn floats() {
    assert_eq!(p(b"\x22\x00\x00\x80\x3f"), Tree::F32(1.0));
    assert_eq!(p(b"\x22\x00\x00\x20\xc0"), Tree::F32(-2.5));
    assert_eq!(p(b"\x23\x00\x00\x00\x00\x00\x00\xf0\x3f"), Tree::F64(1.0));
    assert_eq!(p(b"\x23\x00\x00\x00\x00\x00\x00\x04\xc0"), Tree::F64(-2.5));
    assert_eq!(e(b"\x22\x00\x00\x80"), Error::UnexpectedEof);
    assert_eq!(e(b"\x23\x00\x00\x00\x00\x00\x00\xf0"), Error::UnexpectedEof);
}

#[test]
fn constants() {
    assert_eq!(p(b"\x25"), Tree::Undef);
    assert_eq!(p(b"\x39"), Tree::Undef);
    assert_eq!(p(b"\x3a"), Tree::Bool(false));
    assert_eq!(p(b"\x3b"), Tree::Bool(true));
}

#[test]
fn strings() {
    assert_eq!(p(b"\x26\x03abc"), bin(b"abc"));
    assert_eq!(p(b"\x26\x00"), bin(b""));
    assert_eq!(p(b"\x27\x03abc"), Tree::Str(b"abc".to_vec()));
    // no check of the encoding
    assert_eq!(p(b"\x27\x02\xff\xfe"), Tree::Str(vec![0xff, 0xfe]));
    assert_eq!(p(b"\x63abc"), bin(b"abc"));
    let mut long = vec![0x7f];
    long.extend_from_slice(&[b'x'; 31]);
    assert_eq!(p(&long), bin(&[b'x'; 31]));
    assert_eq!(e(b"\x26\x03ab"), Error::UnexpectedEof);
    assert_eq!(e(b"\x63ab"), Error::UnexpectedEof);
    assert_eq!(e(b"\x26"), Error::UnexpectedEof);
}

#[test]
fn strings_over_the_bound_are_refused() {
    let config = Config::default().with_max_string_len(2);
    assert_eq!(with(&config, b"\x26\x02ab"), Ok(bin(b"ab")));
    assert_eq!(with(&config, b"\x26\x03abc"), Err(Error::StringTooLarge(3)));
    assert_eq!(with(&config, b"\x27\x03abc"), Err(Error::StringTooLarge(3)));
    assert_eq!(with(&config, b"\x63abc"), Err(Error::StringTooLarge(3)));
    assert_eq!(with(&config, b"\x2a\x01\x63abc\x00"), Err(Error::StringTooLarge(3)));
    // the bound comes before the bytes are looked for
    assert_eq!(with(&config, b"\x26\x03"), Err(Error::StringTooLarge(3)));
    // 1_000_001 bytes announced
    assert_eq!(e(b"\x26\xc1\x84\x3d"), Error::StringTooLarge(1_000_001));
    assert_eq!(e(b"\x26\xc0\x84\x3d"), Error::UnexpectedEof);
}

#[test]
fn references() {
    assert_eq!(p(b"\x28\x01"), r(Tree::U64(1)));
    assert_eq!(p(b"\x28\x28\x25"), r(r(Tree::Undef)));
    assert_eq!(p(b"\x30\x28\x01"), Tree::WeakRef(Box::new(r(Tree::U64(1)))));
    assert_eq!(e(b"\x28"), Error::UnexpectedEof);
}

#[test]
fn reference_by_offset() {
    // an array of a tracked string and a reference to it
    let t = p(b"\x42\xe1a\x29\x02");
    assert_eq!(t, r(Tree::Array(vec![bin(b"a"), r(bin(b"a"))])));
    let store = Arena::new();
    let (v, arena) = parse(b"\x42\xe1a\x29\x02", &store).unwrap();
    let items = items_behind(&arena, v);
    assert_eq!(arena.get(items[1]), Some(Inner::Ref(items[0])));
}

#[test]
fn references_to_one_offset_share_the_cell() {
    // [tracked "a", REFP 2, REFP 2, ALIAS 2, ALIAS 2]
    let store = Arena::new();
    let (v, arena) = parse(b"\x45\xe1a\x29\x02\x29\x02\x2e\x02\x2e\x02", &store).unwrap();
    let items = items_behind(&arena, v);
    assert_eq!(items.len(), 5);
    assert_eq!(arena.get(items[1]), Some(Inner::Ref(items[0])));
    assert_eq!(arena.get(items[2]), Some(Inner::Ref(items[0])));
    assert_ne!(items[1], items[2]);
    assert_eq!(items[3], items[0]);
    assert_eq!(items[4], items[0]);
}

#[test]
fn copies_are_equal_and_not_shared() {
    let store = Arena::new();
    let (v, arena) = parse(b"\x43\x41\x01\x2f\x02\x2f\x02", &store).unwrap();
    let items = items_behind(&arena, v);
    assert_ne!(items[0], items[1]);
    assert_ne!(items[1], items[2]);
    assert_eq!(
        tree_at(&arena, items[0], &mut Vec::new()),
        tree_at(&arena, items[1], &mut Vec::new())
    );
}

#[test]
fn untracked_offsets_are_invalid_references() {
    assert_eq!(e(b"\x29\x01"), Error::InvalidRef(1));
    assert_eq!(e(b"\x2e\x01"), Error::InvalidRef(1));
    assert_eq!(e(b"\x42\x01\x29\x02"), Error::InvalidRef(2));
    assert_eq!(e(b"\x42\x81\x29\x00"), Error::InvalidRef(0));
    assert_eq!(e(b"\x2d\x05\x01"), Error::InvalidRef(5));
    assert_eq!(e(b"\x33\x05\x01"), Error::InvalidRef(5));
    assert_eq!(e(b"\x29"), Error::UnexpectedEof);
}

#[test]
fn a_tracked_alias_resolves_to_its_target() {
    // [tracked 1, tracked ALIAS 2, REFP 3]: offset 3 is the alias, which is cell of the 1
    let store = Arena::new();
    let (v, arena) = parse(b"\x43\x81\xae\x02\x29\x03", &store).unwrap();
    let items = items_behind(&arena, v);
    assert_eq!(items[1], items[0]);
    assert_eq!(arena.get(items[2]), Some(Inner::Ref(items[0])));
}

#[test]
fn copy_of_offset_zero_is_invalid() {
    assert_eq!(e(b"\x2f\x00"), Error::InvalidCopy);
    assert_eq!(e(b"\x2a\x01\x2f\x00\x01"), Error::InvalidCopy);
}

#[test]
fn copy_past_the_end_is_eof() {
    assert_eq!(e(b"\x2f\x09"), Error::UnexpectedEof);
    assert_eq!(e(b"\x2f"), Error::UnexpectedEof);
}

#[test]
fn reading_goes_on_after_a_copy() {
    assert_eq!(
        p(b"\x43\x01\x2f\x02\x02"),
        r(Tree::Array(vec![Tree::U64(1), Tree::U64(1), Tree::U64(2)]))
    );
}

#[test]
fn arrays_over_the_bound_are_refused() {
    let config = Config::default().with_max_array_size(2);
    assert_eq!(
        with(&config, b"\x2b\x02\x00\x00"),
        Ok(Tree::Array(vec![Tree::U64(0), Tree::U64(0)]))
    );
    assert_eq!(
        with(&config, b"\x2b\x03\x00\x00\x00"),
        Err(Error::ArrayTooLarge { count: 3, limit: 2 })
    );
    assert_eq!(
        with(&config, b"\x43\x00\x00\x00"),
        Err(Error::ArrayTooLarge { count: 3, limit: 2 })
    );
    // max_array_size + 1 with the default bounds
    assert_eq!(
        e(b"\x2b\xc1\x84\x3d"),
        Error::ArrayTooLarge { count: 1_000_001, limit: 1_000_000 }
    );
    assert_eq!(e(b"\x2b\xc0\x84\x3d"), Error::UnexpectedEof);
}

#[test]
fn hashes_over_the_bound_are_refused() {
    let config = Config::default().with_max_hash_size(1);
    assert_eq!(with(&config, b"\x2a\x01\x61a\x00"), Ok(hash(&[(b"a", Tree::U64(0))])));
    assert_eq!(
        with(&config, b"\x2a\x02\x61a\x00\x61b\x00"),
        Err(Error::HashTooLarge { count: 2, limit: 1 })
    );
    assert_eq!(
        with(&config, b"\x52\x61a\x00\x61b\x00"),
        Err(Error::HashTooLarge { count: 2, limit: 1 })
    );
    assert_eq!(
        e(b"\x2a\xc1\x84\x3d"),
        Error::HashTooLarge { count: 1_000_001, limit: 1_000_000 }
    );
}

#[test]
fn array_references() {
    assert_eq!(p(b"\x40"), r(Tree::Array(vec![])));
    assert_eq!(p(b"\x42\x01\x02"), r(Tree::Array(vec![Tree::U64(1), Tree::U64(2)])));
    assert_eq!(p(b"\x50"), r(hash(&[])));
    assert_eq!(p(b"\x51\x61a\x01"), r(hash(&[(b"a", Tree::U64(1))])));
}

#[test]
fn hash_keys() {
    assert_eq!(p(b"\x2a\x01\x26\x01k\x01"), hash(&[(b"k", Tree::U64(1))]));
    assert_eq!(p(b"\x2a\x01\x27\x01k\x01"), hash(&[(b"k", Tree::U64(1))]));
    // a key is not tracked: the offset of its tag resolves to nothing
    assert_eq!(e(b"\x2a\x01\xe1k\x29\x02"), Error::InvalidRef(2));
    // the later of two entries with one key counts
    assert_eq!(p(b"\x2a\x02\x61k\x01\x61k\x02"), hash(&[(b"k", Tree::U64(2))]));
    // padding before a key is skipped
    assert_eq!(p(b"\x2a\x01\x3f\x61k\x01"), hash(&[(b"k", Tree::U64(1))]));
    assert_eq!(e(b"\x2a\x01\x28\x61k\x01"), Error::InvalidType);
    assert_eq!(e(b"\x2a\x01"), Error::UnexpectedEof);
    assert_eq!(e(b"\x2a\x01\x61k"), Error::UnexpectedEof);
}

#[test]
fn hash_keys_of_an_arena_are_text() {
    assert_eq!(e(b"\x2a\x01\x61\xff\x01"), Error::InvalidType);
    assert_eq!(
        p(b"\x2a\x01\x62\xc3\xa9\x01"),
        hash(&[("\u{e9}".as_bytes(), Tree::U64(1))])
    );
    // the value is parsed before the key is refused
    assert_eq!(e(b"\x2a\x01\x61\xff"), Error::UnexpectedEof);
}

#[test]
fn objects() {
    assert_eq!(
        p(b"\x2c\x63Foo\x01"),
        Tree::Object(Box::new(bin(b"Foo")), Box::new(Tree::U64(1)))
    );
    assert_eq!(
        p(b"\x32\x63Foo\x01"),
        Tree::ObjectFreeze(Box::new(bin(b"Foo")), Box::new(Tree::U64(1)))
    );
    assert_eq!(
        p(b"\x42\x2c\x27\x03Foo\x01\x33\x03\x02"),
        r(Tree::Array(vec![
            Tree::Object(Box::new(Tree::Str(b"Foo".to_vec())), Box::new(Tree::U64(1))),
            Tree::ObjectFreeze(Box::new(Tree::Str(b"Foo".to_vec())), Box::new(Tree::U64(2))),
        ]))
    );
    // a class name that is no string
    assert_eq!(e(b"\x2c\x01\x01"), Error::InvalidType);
    assert_eq!(e(b"\x32\x28\x61a\x01"), Error::InvalidType);
    assert_eq!(e(b"\x42\x81\x2d\x02\x01"), Error::InvalidType);
    assert_eq!(e(b"\x2c\x63Foo"), Error::UnexpectedEof);
}

#[test]
fn a_class_name_may_be_copied_inside_a_copy() {
    // ["Foo", object(COPY 2, 1), COPY 6]: the copy parses the object again,
    // and the class name inside it is a copy too
    let object = Tree::Object(Box::new(bin(b"Foo")), Box::new(Tree::U64(1)));
    assert_eq!(
        p(b"\x43\x63Foo\x2c\x2f\x02\x01\x2f\x06"),
        r(Tree::Array(vec![bin(b"Foo"), object.clone(), object]))
    );
}

#[test]
fn regular_expressions() {
    assert_eq!(
        p(b"\x31\x63a.b\x61i"),
        Tree::Regexp(Box::new(bin(b"a.b")), Box::new(bin(b"i")))
    );
    assert_eq!(e(b"\x31\x01\x61i"), Error::InvalidType);
    assert_eq!(e(b"\x31\x61a\x01"), Error::InvalidType);
    assert_eq!(e(b"\x31\x61a"), Error::UnexpectedEof);
}

#[test]
fn unsupported_tags() {
    for tag in [0x24u8, 0x34, 0x35, 0x36, 0x37, 0x38, 0x3c, 0x3d, 0x3e] {
        assert_eq!(e(&[tag]), Error::UnknownTag(tag));
        assert_eq!(e(&[tag | 0x80, 0x01]), Error::UnknownTag(tag));
    }
}

#[test]
fn padding_before_a_value_is_skipped() {
    assert_eq!(p(b"\x3f\x01"), p(b"\x01"));
    assert_eq!(p(b"\xbf\x3f\x2b\x02\x3f\x00\x3f\x3f\x00"), p(b"\x2b\x02\x00\x00"));
    assert_eq!(p(b"\x28\x3f\x01"), p(b"\x28\x01"));
    // a copy that lands on padding finds the value after it
    assert_eq!(
        p(b"\x42\x3f\x01\x2f\x02"),
        r(Tree::Array(vec![Tree::U64(1), Tree::U64(1)]))
    );
}

#[test]
fn trailing_bytes_are_left_alone() {
    let config = Config::default();
    let store = Arena::new();
    let mut parser = Parser::new(ArenaBuilder::new(&store), &config, b"\x01\x02\x3f");
    let first = parser.parse().unwrap();
    let second = parser.parse().unwrap();
    assert_eq!(parser.parse().unwrap_err(), Error::UnexpectedEof);
    let arena = parser.into_builder();
    assert_eq!(arena.get(first), Some(Inner::U64(1)));
    assert_eq!(arena.get(second), Some(Inner::U64(2)));
}

#[test]
fn nesting_over_the_bound_is_refused() {
    let config = Config::default().with_max_depth(3);
    assert_eq!(with(&config, b"\x28\x28\x01"), Ok(r(r(Tree::U64(1)))));
    assert_eq!(with(&config, b"\x28\x28\x28\x01"), Err(Error::NestingTooDeep { limit: 3 }));
    assert_eq!(
        with(&config, b"\x41\x41\x01"),
        Ok(r(Tree::Array(vec![r(Tree::Array(vec![Tree::U64(1)]))])))
    );
    assert_eq!(with(&config, b"\x41\x41\x41\x01"), Err(Error::NestingTooDeep { limit: 3 }));
    let none = Config::default().with_max_depth(0);
    assert_eq!(with(&none, b"\x01"), Err(Error::NestingTooDeep { limit: 0 }));
}

#[test]
fn default_depth_is_reached_without_harm() {
    let mut deep = vec![0x28u8; 999];
    deep.push(0x01);
    let store = Arena::new();
    assert!(parse(&deep, &store).is_ok());
    let mut deeper = vec![0x28u8; 1000];
    deeper.push(0x01);
    assert_eq!(e(&deeper), Error::NestingTooDeep { limit: 1000 });
}

#[test]
fn a_copy_that_contains_itself_ends() {
    // a hash whose value copies the hash: every round is one level deeper
    assert_eq!(e(b"\x51\x61a\x2f\x01"), Error::NestingTooDeep { limit: 1000 });
}

#[test]
fn a_parser_builds_on_what_the_builder_holds() {
    let config = Config::default();
    let store = Arena::new();
    let mut parser = Parser::new(ArenaBuilder::new(&store), &config, b"\x01");
    let first = parser.parse().unwrap();
    let cells = parser.into_builder();
    assert_eq!(cells.len(), 1);
    let mut parser = Parser::new(cells, &config, b"\x28\x02");
    let second = parser.parse().unwrap();
    let cells = parser.into_builder();
    assert_eq!(cells.len(), 3);
    assert_eq!(cells.get(first), Some(Inner::U64(1)));
    assert_eq!(tree_at(&cells, second, &mut Vec::new()), r(Tree::U64(2)));
    assert_eq!(cells.get(Value(3)), None);
}

#[test]
fn a_string_past_the_offset_type_overflows() {
    let config = Config::default().with_max_string_len(u64::MAX);
    if usize::MAX as u64 == u64::MAX {
        assert_eq!(
            with(&config, b"\x26\xff\xff\xff\xff\xff\xff\xff\xff\xff\x01"),
            Err(Error::OffsetOverflow)
        );
    } else {
        assert_eq!(
            with(&config, b"\x26\xff\xff\xff\xff\xff\xff\xff\xff\xff\x01"),
            Err(Error::OffsetOverflow)
        );
        assert_eq!(with(&config, b"\x29\xff\xff\xff\xff\x1f"), Err(Error::OffsetOverflow));
    }
}

fn refers_within(cells: &ArenaBuilder, v: Value) -> bool {
    v.0 < cells.len()
}

#[test]
fn no_cell_refers_outside_the_graph() {
    let inputs: [&[u8]; 6] = [
        b"\xa9\x01",
        b"\x42\x2c\x63foo\x28\x2a\x00\x2d\x03\x28\x2a\x00",
        b"\x43\x61a\x51\x2f\x02\x01\x2f\x04",
        b"\x45\xe1a\x29\x02\x29\x02\x2e\x02\x2e\x02",
        b"\x31\x63a.b\x61i",
        b"\x30\x28\x32\x63Foo\x2a\x01\x61k\x40",
    ];
    for input in inputs.iter() {
        let store = Arena::new();
        let (root, cells) = parse(input, &store).unwrap();
        assert!(refers_within(&cells, root));
        for i in 0..cells.len() {
            let ok = match cells.get(Value(i)).unwrap() {
                Inner::Ref(o) | Inner::WeakRef(o) => refers_within(&cells, o),
                Inner::Array(items) => items.iter().all(|o| refers_within(&cells, *o)),
                Inner::Hash(pairs) => pairs.iter().all(|(_, o)| refers_within(&cells, *o)),
                Inner::Object(c, o) | Inner::ObjectFreeze(c, o) | Inner::Regexp(c, o) => {
                    refers_within(&cells, c) && refers_within(&cells, o)
                }
                _ => true,
            };
            assert!(ok);
        }
    }
}

#[test]
fn a_failed_parse_leaves_earlier_cells_alone() {
    let config = Config::default();
    let store = Arena::new();
    let mut parser = Parser::new(ArenaBuilder::new(&store), &config, b"\x41\x01\x42\x02\x29\x09");
    let first = parser.parse().unwrap();
    let before = tree_at(parser.builder(), first, &mut Vec::new());
    assert_eq!(parser.parse().unwrap_err(), Error::InvalidRef(9));
    let cells = parser.into_builder();
    assert_eq!(tree_at(&cells, first, &mut Vec::new()), before);
    assert_eq!(before, r(Tree::Array(vec![Tree::U64(1)])));
    // the cells of the value that failed are there, partly filled
    assert_eq!(cells.len(), 6);
}

fn padded_at(s: &[u8], q: usize, k: usize) -> Vec<u8> {
    let mut out = s[..q].to_vec();
    for i in 0..k {
        out.push(if i % 2 == 0 { 0x3f } else { 0xbf });
    }
    out.extend_from_slice(&s[q..]);
    out
}

#[test]
fn padding_put_in_between_tags_changes_nothing() {
    // (body, places between tags behind which nothing is tracked or copied)
    let cases: [(&[u8], &[usize]); 5] = [
        (b"\x2b\x02\x00\x00", &[0, 2, 3, 4]),
        (b"\x42\xe1a\x29\x02", &[3, 5]),
        (b"\x2a\x02\x63foo\x63bar\x64ook\x00\x64eek\x00", &[0, 2, 6, 10, 15, 20]),
        (b"\x43\x41\x01\x2f\x02\x2f\x02", &[3, 5, 7]),
        (b"\x42\x2c\x63foo\x28\x2a\x00\x2d\x03\x28\x2a\x00", &[6, 7, 9, 11, 12, 14]),
    ];
    for (body, places) in cases.iter() {
        let plain = p(body);
        for &q in places.iter() {
            for k in 1..4 {
                assert_eq!(p(&padded_at(body, q, k)), plain);
            }
        }
    }
}

#[test]
fn padding_behind_which_a_copy_reaches_changes_the_value() {
    // [1, 2, COPY 3]: the copy is of the 2; with padding before the 1 it is of the 1
    let body = b"\x43\x01\x02\x2f\x03";
    assert_eq!(p(body), r(Tree::Array(vec![Tree::U64(1), Tree::U64(2), Tree::U64(2)])));
    assert_eq!(
        p(&padded_at(body, 1, 1)),
        r(Tree::Array(vec![Tree::U64(1), Tree::U64(2), Tree::U64(1)]))
    );
}

#[test]
fn a_copy_is_alike_its_target_written_out() {
    // [X, COPY of X, X once more] with X a reference to an array of a hash
    let x: &[u8] = b"\x41\x51\x61k\x0f";
    let mut body = vec![0x43];
    body.extend_from_slice(x);
    body.extend_from_slice(b"\x2f\x02");
    body.extend_from_slice(x);
    let store = Arena::new();
    let (v, cells) = parse(&body, &store).unwrap();
    let items = items_behind(&cells, v);
    let first = tree_at(&cells, items[0], &mut Vec::new());
    assert_eq!(first, r(Tree::Array(vec![r(hash(&[(b"k", Tree::U64(15))]))])));
    assert_eq!(tree_at(&cells, items[1], &mut Vec::new()), first);
    assert_eq!(tree_at(&cells, items[2], &mut Vec::new()), first);
    // the three are made of cells of their own, five each, one after the
    // other; before those of the copy lies the cell made for its tag
    assert_eq!(items[1].0 - items[0].0, 6);
    assert_eq!(items[2].0 - items[1].0, 5);
    assert_eq!(cells.get(Value(items[1].0 - 1)), Some(Inner::Undef));
}
