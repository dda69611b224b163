use std::collections::BTreeMap;

use sereal_decoder::arc::parse;
use sereal_decoder::arc::ArcBuilder;
use sereal_decoder::arc::Inner;
use sereal_decoder::arc::Value;
use sereal_decoder::config::Config;
use sereal_decoder::parser::Error;
use sereal_decoder::parser::Parser;

/// A cell with all that it refers to, for comparisons. A cell that is met
/// again below itself shows as `Loop`.
#[derive(Debug, PartialEq, Clone)]
enum Owned {
    Undef,
    I64(i64),
    U64(u64),
    F32(f32),
    F64(f64),
    Binary(Vec<u8>),
    Str(Vec<u8>),
    Ref(Box<Owned>),
    WeakRef(Box<Owned>),
    Array(Vec<Owned>),
    Hash(BTreeMap<Vec<u8>, Owned>),
    Object(Box<Owned>, Box<Owned>),
    ObjectFreeze(Box<Owned>, Box<Owned>),
    Bool(bool),
    Regexp(Box<Owned>, Box<Owned>),
    Loop,
}

fn read(cells: &ArcBuilder, v: Value, open: &mut Vec<usize>) -> Owned {
    if open.contains(&v.0) {
        return Owned::Loop;
    }
    open.push(v.0);
    let t = match cells.get(v).expect("a handle without a cell") {
        Inner::Undef => Owned::Undef,
        Inner::I64(x) => Owned::I64(*x),
        Inner::U64(x) => Owned::U64(*x),
        Inner::F32(bits) => Owned::F32(f32::from_bits(*bits)),
        Inner::F64(bits) => Owned::F64(f64::from_bits(*bits)),
        Inner::Binary(s) => Owned::Binary(s.clone()),
        Inner::String(s) => Owned::Str(s.clone()),
        Inner::Ref(o) => Owned::Ref(Box::new(read(cells, *o, open))),
        Inner::WeakRef(o) => Owned::WeakRef(Box::new(read(cells, *o, open))),
        Inner::Array(items) => Owned::Array(items.iter().map(|i| read(cells, *i, open)).collect()),
        Inner::Hash(pairs) => {
            let mut m = BTreeMap::new();
            for (k, i) in pairs.iter() {
                m.insert(k.clone(), read(cells, *i, open));
            }
            Owned::Hash(m)
        }
        Inner::Object(c, o) => {
            Owned::Object(Box::new(read(cells, *c, open)), Box::new(read(cells, *o, open)))
        }
        Inner::ObjectFreeze(c, o) => {
            Owned::ObjectFreeze(Box::new(read(cells, *c, open)), Box::new(read(cells, *o, open)))
        }
        Inner::Bool(b) => Owned::Bool(*b),
        Inner::Regexp(p, f) => {
            Owned::Regexp(Box::new(read(cells, *p, open)), Box::new(read(cells, *f, open)))
        }
    };
    open.pop();
    t
}

fn p(s: &[u8]) -> Owned {
    let (v, cells) = parse(s).unwrap();
    read(&cells, v, &mut Vec::new())
}

fn e(s: &[u8]) -> Error {
    parse(s).unwrap_err()
}

fn bin(s: &[u8]) -> Owned {
    Owned::Binary(s.to_vec())
}

fn r(t: Owned) -> Owned {
    Owned::Ref(Box::new(t))
}

fn hash(pairs: &[(&[u8], Owned)]) -> Owned {
    let mut m = BTreeMap::new();
    for (k, v) in pairs.iter() {
        m.insert(k.to_vec(), v.clone());
    }
    Owned::Hash(m)
}

#[test]
fn test_simple() {
    assert_eq!(p(b"\x01"), Owned::U64(1));
    assert_eq!(p(b"\x60"), bin(b""));
    assert_eq!(p(b"\x61\x00"), bin(&[0]));
}

#[test]
fn test_array() {
    assert_eq!(p(b"\x2b\x01\x00"), Owned::Array(vec![Owned::U64(0)]));
    assert_eq!(p(b"\x2b\x02\x00\x00"), Owned::Array(vec![Owned::U64(0), Owned::U64(0)]));
    assert!(e(b"\x2b\x02\x00").is_eof());
}

#[test]
fn test_hash() {
    let r = p(b"\x2a\x02\x63foo\x63bar\x64ook\x00\x64eek\x00");
    assert_eq!(r, hash(&[(b"foo", bin(b"bar")), (b"ook\0", bin(b"eek\0"))]));
}

#[test]
fn test_hash_nested() {
    let r = p(b"\x2a\x01\x63foo\x2a\x00");
    assert_eq!(r, hash(&[(b"foo", hash(&[]))]));
}

#[test]
fn arc_test_self_ref() {
    let (a, cells) = parse(b"\xa9\x01").unwrap();
    match cells.get(a) {
        Some(Inner::Ref(b)) => assert_eq!(a, *b),
        _ => panic!("unexpected value"),
    }
}

#[test]
fn test_mutual_ref() {
    let a = parse(b"\x28\xab\x01\x28\x2b\x01\x29\x02");
    let b = parse(b"\xc1\x41\x2e\x01");
    println!("{:?}", a);
    println!("{:?}", b);
    assert!(a.is_ok());
    assert!(b.is_ok());
}

#[test]
fn test_hash_errors() {
    // eof in nested hash
    let r = parse(b"\x2a\x01\x63foo\x2a\x01\x63bar");
    assert!(r.unwrap_err().is_eof());

    // non string key
    let r = parse(b"\x2a\x01\x00\x63foo");
    match r.unwrap_err() {
        Error::InvalidType => (),
        _ => assert!(false),
    }
}

#[test]
fn test_objects() {
    let parsed = p(b"\x42\x2c\x63foo\x28\x2a\x00\x2d\x03\x28\x2a\x00");
    let object = Owned::Object(Box::new(bin(b"foo")), Box::new(r(hash(&[]))));
    assert_eq!(parsed, r(Owned::Array(vec![object.clone(), object])));
}

#[test]
fn test_copy() {
    let parsed = parse(b"\x2f\x01");
    assert!(parsed.unwrap_err().is_invalid_copy());

    let parsed = parse(b"\x42\x01\x2f\x01");
    assert!(parsed.unwrap_err().is_invalid_copy());

    let parsed = parse(b"\x43\x61b\x2f\x02\x51\x2f\x04\x01");
    assert!(parsed.unwrap_err().is_invalid_copy());
}

#[test]
fn test_copy_complex_value() {
    let one = r(Owned::Array(vec![Owned::U64(1)]));
    assert_eq!(
        p(b"\x43\x41\x01\x2f\x02\x2f\x02"),
        r(Owned::Array(vec![one.clone(), one.clone(), one]))
    );
}

#[test]
fn test_copy_hash_key() {
    let map = hash(&[(b"a", Owned::U64(1))]);
    assert_eq!(
        p(b"\x43\x61a\x51\x2f\x02\x01\x2f\x04"),
        r(Owned::Array(vec![bin(b"a"), r(map.clone()), r(map)]))
    );
}

#[test]
fn cells_outlive_the_bytes_they_were_parsed_from() {
    let (v, cells) = {
        let body = b"\x42\x63abc\x27\x02hi".to_vec();
        parse(&body).unwrap()
    };
    assert_eq!(
        read(&cells, v, &mut Vec::new()),
        r(Owned::Array(vec![bin(b"abc"), Owned::Str(b"hi".to_vec())]))
    );
}

#[test]
fn any_bytes_are_a_key() {
    assert_eq!(p(b"\x2a\x01\x61\xff\x01"), hash(&[(&[0xff], Owned::U64(1))]));
}

#[test]
fn scalars_of_every_kind() {
    assert_eq!(p(b"\x1f"), Owned::I64(-1));
    assert_eq!(p(b"\x22\x00\x00\x80\x3f"), Owned::F32(1.0));
    assert_eq!(p(b"\x23\x00\x00\x00\x00\x00\x00\xf0\x3f"), Owned::F64(1.0));
    assert_eq!(p(b"\x25"), Owned::Undef);
    assert_eq!(p(b"\x3a"), Owned::Bool(false));
    assert_eq!(p(b"\x3b"), Owned::Bool(true));
    assert_eq!(p(b"\x30\x28\x01"), Owned::WeakRef(Box::new(r(Owned::U64(1)))));
    assert_eq!(
        p(b"\x32\x63Foo\x01"),
        Owned::ObjectFreeze(Box::new(bin(b"Foo")), Box::new(Owned::U64(1)))
    );
    assert_eq!(
        p(b"\x31\x63a.b\x61i"),
        Owned::Regexp(Box::new(bin(b"a.b")), Box::new(bin(b"i")))
    );
    assert_eq!(e(b"\x2c\x01\x01"), Error::InvalidType);
    assert_eq!(e(b"\x31\x61a\x01"), Error::InvalidType);
}

#[test]
fn a_builder_is_built_on() {
    let config = Config::default();
    let mut parser = Parser::new(ArcBuilder::new(), &config, b"\x01\x02");
    let first = parser.parse().unwrap();
    let second = parser.parse().unwrap();
    let cells = parser.into_builder();
    assert_eq!(cells.len(), 2);
    assert_eq!(cells.get(first), Some(&Inner::U64(1)));
    assert_eq!(cells.get(second), Some(&Inner::U64(2)));
    assert_eq!(cells.get(Value(2)), None);
}
