use sereal_decoder::config::Config;
use sereal_decoder::lexer::Error;
use sereal_decoder::lexer::Lexer;
use sereal_decoder::lexer::Tag;
use sereal_decoder::lexer::Token;

fn tokens(s: &[u8]) -> Result<Vec<Tag>, Error> {
    let config = Config::default();
    let mut lexer = Lexer::new(&config, s);
    let mut out = Vec::new();
    loop {
        match lexer.next() {
            Ok(token) => out.push(token.tag),
            Err(Error::UnexpectedEof) if lexer.tell() == Ok(s.len() as u64 + 1) => return Ok(out),
            Err(e) => return Err(e),
        }
    }
}

fn first(s: &[u8]) -> Result<Tag, Error> {
    let config = Config::default();
    let mut lexer = Lexer::new(&config, s);
    lexer.next().map(|t| t.tag)
}

#[test]
fn every_tag_has_its_token() {
    assert_eq!(first(b"\x00"), Ok(Tag::Pos(0)));
    assert_eq!(first(b"\x0f"), Ok(Tag::Pos(15)));
    assert_eq!(first(b"\x10"), Ok(Tag::Neg(-16)));
    assert_eq!(first(b"\x1f"), Ok(Tag::Neg(-1)));
    assert_eq!(first(b"\x20\xac\x02"), Ok(Tag::Varint(300)));
    assert_eq!(first(b"\x21\x03"), Ok(Tag::Zigzag(-2)));
    assert_eq!(first(b"\x22\x00\x00\x80\x3f"), Ok(Tag::Float(1.0f32.to_bits())));
    assert_eq!(
        first(b"\x23\x00\x00\x00\x00\x00\x00\xf0\x3f"),
        Ok(Tag::Double(1.0f64.to_bits()))
    );
    assert_eq!(first(b"\x25"), Ok(Tag::Undef));
    assert_eq!(first(b"\x26\x02ab"), Ok(Tag::Bin(b"ab")));
    assert_eq!(first(b"\x27\x02ab"), Ok(Tag::Str(b"ab")));
    assert_eq!(first(b"\x28"), Ok(Tag::Refn));
    assert_eq!(first(b"\x29\x05"), Ok(Tag::Refp(5)));
    assert_eq!(first(b"\x2a\x05"), Ok(Tag::Hash(5)));
    assert_eq!(first(b"\x2b\x05"), Ok(Tag::Array(5)));
    assert_eq!(first(b"\x2c"), Ok(Tag::Object));
    assert_eq!(first(b"\x2d\x05"), Ok(Tag::ObjectV(5)));
    assert_eq!(first(b"\x2e\x05"), Ok(Tag::Alias(5)));
    assert_eq!(first(b"\x2f\x05"), Ok(Tag::Copy(5)));
    assert_eq!(first(b"\x30"), Ok(Tag::Weaken));
    assert_eq!(first(b"\x31"), Ok(Tag::Regexp));
    assert_eq!(first(b"\x32"), Ok(Tag::ObjectFreeze));
    assert_eq!(first(b"\x33\x05"), Ok(Tag::ObjectVFreeze(5)));
    assert_eq!(first(b"\x39"), Ok(Tag::CanonicalUndef));
    assert_eq!(first(b"\x3a"), Ok(Tag::False));
    assert_eq!(first(b"\x3b"), Ok(Tag::True));
    assert_eq!(first(b"\x40"), Ok(Tag::ArrayRef(0)));
    assert_eq!(first(b"\x4f"), Ok(Tag::ArrayRef(15)));
    assert_eq!(first(b"\x50"), Ok(Tag::HashRef(0)));
    assert_eq!(first(b"\x5f"), Ok(Tag::HashRef(15)));
    assert_eq!(first(b"\x60"), Ok(Tag::Bin(b"")));
    assert_eq!(first(b"\x63abc"), Ok(Tag::Bin(b"abc")));
}

#[test]
fn tokens_of_unsupported_tags_are_errors() {
    for tag in [0x24u8, 0x34, 0x35, 0x36, 0x37, 0x38, 0x3c, 0x3d, 0x3e] {
        let e = first(&[tag]).unwrap_err();
        assert!(e.is_unknown_tag());
        assert_eq!(e.as_unknown_tag(), Some(tag));
        assert_eq!(first(&[tag | 0x80]), Err(Error::UnknownTag(tag)));
    }
    assert_eq!(Error::UnexpectedEof.as_unknown_tag(), None);
    assert!(!Error::VarintOverflow.is_unknown_tag());
}

#[test]
fn tokens_carry_offset_and_track_bit() {
    let config = Config::default();
    let mut lexer = Lexer::new(&config, b"\x3f\xa8\x01\x3f\x3f\xe1a");
    assert_eq!(lexer.next(), Ok(Token { pos: 2, track: true, tag: Tag::Refn }));
    assert_eq!(lexer.next(), Ok(Token { pos: 3, track: false, tag: Tag::Pos(1) }));
    assert_eq!(lexer.next(), Ok(Token { pos: 6, track: true, tag: Tag::Bin(b"a") }));
    assert!(lexer.next().unwrap_err().is_eof());
}

#[test]
fn a_body_is_a_sequence_of_tokens() {
    assert_eq!(
        tokens(b"\x42\x2c\x63foo\x28\x2a\x00\x2d\x03\x28\x2a\x00"),
        Ok(vec![
            Tag::ArrayRef(2),
            Tag::Object,
            Tag::Bin(b"foo"),
            Tag::Refn,
            Tag::Hash(0),
            Tag::ObjectV(3),
            Tag::Refn,
            Tag::Hash(0),
        ])
    );
}

#[test]
fn truncated_payloads_are_eof() {
    assert!(first(b"").unwrap_err().is_eof());
    assert!(first(b"\x20").unwrap_err().is_eof());
    assert!(first(b"\x20\x80").unwrap_err().is_eof());
    assert!(first(b"\x22\x00\x00\x80").unwrap_err().is_eof());
    assert!(first(b"\x23\x00").unwrap_err().is_eof());
    assert!(first(b"\x26\x03ab").unwrap_err().is_eof());
    assert!(first(b"\x63ab").unwrap_err().is_eof());
    assert!(first(b"\x29").unwrap_err().is_eof());
}

#[test]
fn long_varints_overflow() {
    let e = first(b"\x20\x80\x80\x80\x80\x80\x80\x80\x80\x80\x80").unwrap_err();
    assert!(e.is_varint_overflow());
    assert!(!e.is_eof());
    assert!(first(b"\x26\x80\x80\x80\x80\x80\x80\x80\x80\x80\x80")
        .unwrap_err()
        .is_varint_overflow());
}

#[test]
fn tokens_of_strings_over_the_bound_are_refused() {
    let config = Config::default().with_max_string_len(2);
    let lex = |s: &[u8]| Lexer::new(&config, s).next().map(|_| ());
    assert_eq!(lex(b"\x62ab"), Ok(()));
    assert_eq!(lex(b"\x63abc"), Err(Error::StringTooLarge(3)));
    assert_eq!(lex(b"\x26\x03abc"), Err(Error::StringTooLarge(3)));
    assert_eq!(lex(b"\x27\x03"), Err(Error::StringTooLarge(3)));
    assert_eq!(first(b"\x26\xc1\x84\x3d"), Err(Error::StringTooLarge(1_000_001)));
    assert_eq!(
        first(b"\x26\xff\xff\xff\xff\xff\xff\xff\xff\xff\x01"),
        Err(Error::StringTooLarge(u64::MAX))
    );
}

#[test]
fn tell_and_seek_count_from_one() {
    let config = Config::default();
    let mut lexer = Lexer::new(&config, b"\x01\x02\x03");
    assert_eq!(lexer.tell(), Ok(1));
    assert_eq!(lexer.next().map(|t| t.tag), Ok(Tag::Pos(1)));
    assert_eq!(lexer.tell(), Ok(2));
    assert_eq!(lexer.seek(3), Ok(()));
    assert_eq!(lexer.tell(), Ok(3));
    assert_eq!(lexer.next(), Ok(Token { pos: 3, track: false, tag: Tag::Pos(3) }));
    assert_eq!(lexer.seek(1), Ok(()));
    assert_eq!(lexer.next().map(|t| t.tag), Ok(Tag::Pos(1)));
    assert_eq!(lexer.seek(0), Err(Error::UnexpectedEof));
    assert_eq!(lexer.tell(), Ok(2));
    assert_eq!(lexer.seek(9), Ok(()));
    assert!(lexer.next().unwrap_err().is_eof());
}

#[test]
fn a_string_past_every_address_is_too_large() {
    let config = Config::default().with_max_string_len(u64::MAX);
    let mut lexer = Lexer::new(&config, b"\x26\xff\xff\xff\xff\xff\xff\xff\xff\xff\x01");
    assert_eq!(lexer.next(), Err(Error::StringTooLarge(u64::MAX)));
}
