use sereal_decoder::config::Config;
use sereal_decoder::de::Deserializer;
use sereal_decoder::de::Error;
use sereal_decoder::de::Event;

/// What a visitor that keeps everything would build.
#[derive(Debug, PartialEq, Clone)]
enum Val {
    U(u64),
    I(i64),
    F32(f32),
    F64(f64),
    Bool(bool),
    Bytes(Vec<u8>),
    List(Vec<Val>),
    Pairs(Vec<(Val, Val)>),
    Absent,
    Present(Box<Val>),
}

fn visit(de: &mut Deserializer) -> Result<Val, Error> {
    Ok(match de.next()? {
        Event::U8(v) => Val::U(v as u64),
        Event::I8(v) => Val::I(v as i64),
        Event::U64(v) => Val::U(v),
        Event::I64(v) => Val::I(v),
        Event::F32(bits) => Val::F32(f32::from_bits(bits)),
        Event::F64(bits) => Val::F64(f64::from_bits(bits)),
        Event::Bool(b) => Val::Bool(b),
        Event::Bytes(s) => Val::Bytes(s.to_vec()),
        Event::Array(n) => {
            let mut items = Vec::new();
            for _ in 0..n {
                items.push(visit(de)?);
            }
            Val::List(items)
        }
        Event::Hash(n) => {
            let mut pairs = Vec::new();
            for _ in 0..n {
                let k = visit(de)?;
                let v = visit(de)?;
                pairs.push((k, v));
            }
            Val::Pairs(pairs)
        }
        Event::Null => Val::Absent,
        Event::Ref => Val::Present(Box::new(visit(de)?)),
        Event::RefAt { offset, resume } => {
            let res = visit(de);
            de.end_ref(offset, resume);
            Val::Present(Box::new(res?))
        }
    })
}

fn de(s: &[u8]) -> Val {
    let config = Config::default();
    let mut d = Deserializer::new(&config, s);
    visit(&mut d).unwrap()
}

fn err(s: &[u8]) -> Error {
    let config = Config::default();
    let mut d = Deserializer::new(&config, s);
    visit(&mut d).unwrap_err()
}

fn u(v: u64) -> Val {
    Val::U(v)
}

fn b(s: &[u8]) -> Val {
    Val::Bytes(s.to_vec())
}

fn some(v: Val) -> Val {
    Val::Present(Box::new(v))
}

#[test]
fn ints() {
    assert_eq!(de(b"\x01"), u(1));
}

#[test]
fn vecs() {
    assert_eq!(de(b"\x43\x01\x02\x03"), Val::List(vec![u(1), u(2), u(3)]));
    assert_eq!(de(b"\x28\x2b\x03\x01\x02\x03"), some(Val::List(vec![u(1), u(2), u(3)])));
}

#[test]
fn hashmaps() {
    assert_eq!(
        de(b"\x52\x01\x02\x03\x04\x05"),
        Val::Pairs(vec![(u(1), u(2)), (u(3), u(4))])
    );
}

#[test]
fn tuples() {
    assert_eq!(
        de(b"\x43\x01\x02\x43\x03\x04\x05"),
        Val::List(vec![u(1), u(2), Val::List(vec![u(3), u(4), u(5)])])
    );
}

#[test]
fn structs() {
    assert_eq!(
        de(b"\x53\x63foo\x01\x63bar\x42\x02\x03\x63baz\x62ok"),
        Val::Pairs(vec![
            (b(b"foo"), u(1)),
            (b(b"bar"), Val::List(vec![u(2), u(3)])),
            (b(b"baz"), b(b"ok")),
        ])
    );
}

#[test]
fn refs() {
    let empty = Val::Pairs(vec![]);
    assert_eq!(de(b"\x50"), empty);
    assert_eq!(
        de(b"\x42\x28\x50\x25"),
        Val::List(vec![some(empty.clone()), Val::Absent])
    );
    assert_eq!(
        de(b"\x42\x28\xd0\x29\x03"),
        Val::List(vec![some(empty.clone()), some(empty.clone())])
    );
    assert_eq!(err(b"\x42\x29\x01\x28\x50").as_invalid_ref(), Some(1));
    assert_eq!(err(b"\x42\x28\x50\x29\x01").as_invalid_ref(), Some(1));
}

#[test]
fn borrow_str() {
    let d = b"\x43\x63foo\x63bar\x63baz".to_vec();
    let config = Config::default();
    let mut de = Deserializer::new(&config, &d);
    assert_eq!(de.next(), Ok(Event::Array(3)));
    let a = match de.next() {
        Ok(Event::Bytes(s)) => s,
        other => panic!("unexpected {:?}", other),
    };
    let b = match de.next() {
        Ok(Event::Bytes(s)) => s,
        other => panic!("unexpected {:?}", other),
    };
    let c = match de.next() {
        Ok(Event::Bytes(s)) => s,
        other => panic!("unexpected {:?}", other),
    };
    drop(de);
    assert_eq!((a, b, c), (&b"foo"[..], &b"bar"[..], &b"baz"[..]));
    // the strings are the bytes of the body themselves
    assert_eq!(a.as_ptr(), d[2..].as_ptr());
}

#[test]
fn every_scalar_has_its_event() {
    assert_eq!(de(b"\x0f"), u(15));
    assert_eq!(de(b"\x10"), Val::I(-16));
    assert_eq!(de(b"\x1f"), Val::I(-1));
    assert_eq!(de(b"\x20\xac\x02"), u(300));
    assert_eq!(de(b"\x21\x03"), Val::I(-2));
    assert_eq!(de(b"\x22\x00\x00\x80\x3f"), Val::F32(1.0));
    assert_eq!(de(b"\x23\x00\x00\x00\x00\x00\x00\xf0\x3f"), Val::F64(1.0));
    assert_eq!(de(b"\x25"), Val::Absent);
    assert_eq!(de(b"\x39"), Val::Absent);
    assert_eq!(de(b"\x3a"), Val::Bool(false));
    assert_eq!(de(b"\x3b"), Val::Bool(true));
    assert_eq!(de(b"\x26\x02ab"), b(b"ab"));
    assert_eq!(de(b"\x27\x02ab"), b(b"ab"));
    assert_eq!(de(b"\x60"), b(b""));
    assert_eq!(de(b"\x2a\x01\x61k\x01"), Val::Pairs(vec![(b(b"k"), u(1))]));
    // padding and track bits are not seen
    assert_eq!(de(b"\x3f\x81"), u(1));
}

#[test]
fn small_integers_are_told_as_one_byte() {
    let config = Config::default();
    let mut d = Deserializer::new(&config, b"\x0f\x10\x1f");
    assert_eq!(d.next(), Ok(Event::U8(15)));
    assert_eq!(d.next(), Ok(Event::I8(-16)));
    assert_eq!(d.next(), Ok(Event::I8(-1)));
    assert_eq!(d.next(), Err(Error::UnexpectedEof));
}

#[test]
fn a_reference_moves_the_cursor_and_back() {
    let config = Config::default();
    let mut d = Deserializer::new(&config, b"\x42\x01\x29\x02\x02");
    assert_eq!(d.next(), Ok(Event::Array(2)));
    assert_eq!(d.next(), Ok(Event::U8(1)));
    assert_eq!(d.next(), Ok(Event::RefAt { offset: 2, resume: 4 }));
    assert_eq!(d.pos(), 1);
    assert_eq!(d.next(), Ok(Event::U8(1)));
    d.end_ref(2, 4);
    assert_eq!(d.pos(), 4);
    assert_eq!(d.next(), Ok(Event::U8(2)));
}

#[test]
fn an_offset_may_be_followed_again_once_it_is_done() {
    assert_eq!(
        de(b"\x43\x01\x29\x02\x29\x02"),
        Val::List(vec![u(1), some(u(1)), some(u(1))])
    );
}

#[test]
fn references_forward_or_to_nothing_are_invalid() {
    assert_eq!(err(b"\x29\x00"), Error::InvalidRef(0));
    // to the position after the reference
    assert_eq!(err(b"\x29\x02\x01"), Error::InvalidRef(2));
    assert_eq!(err(b"\x29\x03\x01"), Error::InvalidRef(3));
    // into itself
    assert_eq!(err(b"\x29\x01"), Error::InvalidRef(1));
    assert_eq!(err(b"\x29"), Error::UnexpectedEof);
}

#[test]
fn tags_without_an_event_are_unknown() {
    for tag in [0x24u8, 0x2c, 0x2d, 0x2e, 0x2f, 0x30, 0x31, 0x32, 0x33, 0x34, 0x38, 0x3c, 0x3d, 0x3e] {
        assert_eq!(err(&[tag, 0x01, 0x01]), Error::UnknownTag(tag));
    }
}

#[test]
fn errors_of_the_cursor_keep_their_kind() {
    assert_eq!(err(b""), Error::UnexpectedEof);
    assert_eq!(err(b"\x26\x03ab"), Error::UnexpectedEof);
    assert_eq!(err(b"\x20\x80\x80\x80\x80\x80\x80\x80\x80\x80\x80"), Error::VarintOverflow);
}

#[test]
fn bounds_hold_for_a_visitor_too() {
    let config = Config::default()
        .with_max_array_size(2)
        .with_max_hash_size(1)
        .with_max_string_len(3);
    let first = |s: &[u8]| Deserializer::new(&config, s).next().map(|_| ());
    assert_eq!(first(b"\x2b\x02"), Ok(()));
    assert_eq!(first(b"\x2b\x03"), Err(Error::ArrayTooLarge { count: 3, limit: 2 }));
    assert_eq!(first(b"\x43"), Err(Error::ArrayTooLarge { count: 3, limit: 2 }));
    assert_eq!(first(b"\x2a\x01"), Ok(()));
    assert_eq!(first(b"\x2a\x02"), Err(Error::HashTooLarge { count: 2, limit: 1 }));
    assert_eq!(first(b"\x52"), Err(Error::HashTooLarge { count: 2, limit: 1 }));
    assert_eq!(first(b"\x63abc"), Ok(()));
    assert_eq!(first(b"\x64abcd"), Err(Error::StringTooLarge(4)));
    assert_eq!(first(b"\x26\x04abcd"), Err(Error::StringTooLarge(4)));
}

#[test]
fn a_string_that_no_machine_holds_overflows() {
    let config = Config::default().with_max_string_len(u64::MAX);
    let mut d = Deserializer::new(&config, b"\x26\xff\xff\xff\xff\xff\xff\xff\xff\xff\x01");
    assert_eq!(d.next(), Err(Error::OffsetOverflow));
}

#[test]
fn what_a_visitor_reports_is_an_error_of_its_own() {
    let e = Error::Custom("expected a map".to_string());
    assert_eq!(e.as_invalid_ref(), None);
    assert_ne!(e, Error::Custom("expected a list".to_string()));
    assert_eq!(Error::InvalidRef(7).as_invalid_ref(), Some(7));
}
