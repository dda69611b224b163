//! Unsigned varints (little-endian base 128 with a continuation bit) and zig-zag
//! signed varints, as functions on bytes.
use vstd::prelude::*;

verus! {

/// Why a varint could not be read.
#[derive(Debug, Clone, Copy, PartialEq, Eq, Structural)]
pub enum Error {
    /// Ten bytes were read and the tenth still asks for more.
    Overflow,
    /// The bytes end before the varint does.
    UnexpectedEof,
}

impl Error {
    pub fn is_overflow(&self) -> (b: bool)
        ensures
            b == (*self is Overflow),
    {
        match self {
            Error::Overflow => true,
            _ => false,
        }
    }

    pub fn is_eof(&self) -> (b: bool)
        ensures
            b == (*self is UnexpectedEof),
    {
        match self {
            Error::UnexpectedEof => true,
            _ => false,
        }
    }
}

/// `128` to the power `k`: the weight of the byte at index `k` of a varint.
pub open spec fn pow128(k: nat) -> nat
    decreases k,
{
    if k == 0 {
        1
    } else {
        128 * pow128((k - 1) as nat)
    }
}

/// The number that the bytes of `buf` from index `k` on denote, read as
/// the digits `k`, `k + 1`, ... of a varint, and the index after its last byte.
///
/// A byte below `0x80` is the last digit. A varint has at most ten bytes: one that
/// would go on after index 9 is an `Overflow`, whatever follows.
pub open spec fn varint_tail(buf: Seq<u8>, k: nat) -> Result<(nat, nat), Error>
    decreases 10 - k,
{
    if k >= 10 {
        Err(Error::Overflow)
    } else if k >= buf.len() {
        Err(Error::UnexpectedEof)
    } else if buf[k as int] < 0x80 {
        Ok((buf[k as int] as nat, k + 1))
    } else {
        match varint_tail(buf, k + 1) {
            Ok((v, end)) => Ok(((buf[k as int] - 0x80 + 128 * v) as nat, end)),
            Err(e) => Err(e),
        }
    }
}

/// The value of the varint at the start of `buf` and the number of bytes it takes.
/// The value is kept to 64 bits: of a tenth byte only the lowest bit counts.
pub open spec fn spec_parse_varint(buf: Seq<u8>) -> Result<(u64, usize), Error> {
    match varint_tail(buf, 0) {
        Ok((v, end)) => Ok(((v % 0x1_0000_0000_0000_0000) as u64, end as usize)),
        Err(e) => Err(e),
    }
}

/// The signed number that the zig-zag code `v` stands for:
/// `0, 1, 2, 3, 4, ...` stand for `0, -1, 1, -2, 2, ...`.
pub open spec fn zigzag_decode(v: u64) -> i64 {
    if v % 2 == 0 {
        (v / 2) as i64
    } else {
        (-(v / 2) - 1) as i64
    }
}

/// The zig-zag code of `x`.
pub open spec fn zigzag_encode(x: i64) -> u64 {
    if x >= 0 {
        (2 * x) as u64
    } else {
        (-2 * x - 1) as u64
    }
}

/// The value of the zig-zag varint at the start of `buf` and the number of bytes it takes.
pub open spec fn spec_parse_zigzag(buf: Seq<u8>) -> Result<(i64, usize), Error> {
    match spec_parse_varint(buf) {
        Ok((v, len)) => Ok((zigzag_decode(v), len)),
        Err(e) => Err(e),
    }
}

/// The shortest varint that denotes `x`.
pub open spec fn varint_encode(x: u64) -> Seq<u8>
    decreases x,
{
    if x < 0x80 {
        seq![x as u8]
    } else {
        seq![(x % 128 + 128) as u8] + varint_encode(x / 128)
    }
}

/// `varint_tail` of digits `k..` after `acc` has been gathered from the digits before.
spec fn lift(acc: nat, k: nat, r: Result<(nat, nat), Error>) -> Result<(nat, nat), Error> {
    match r {
        Ok((v, end)) => Ok((acc + pow128(k) * v, end)),
        Err(e) => Err(e),
    }
}

proof fn lemma_pow128_values()
    ensures
        pow128(0) == 1,
        pow128(1) == 0x80,
        pow128(2) == 0x4000,
        pow128(3) == 0x20_0000,
        pow128(4) == 0x1000_0000,
        pow128(5) == 0x8_0000_0000,
        pow128(6) == 0x400_0000_0000,
        pow128(7) == 0x2_0000_0000_0000,
        pow128(8) == 0x100_0000_0000_0000,
        pow128(9) == 0x8000_0000_0000_0000,
        pow128(10) == 0x40_0000_0000_0000_0000,
{
    reveal_with_fuel(pow128, 12);
}

proof fn lemma_shift_values(k: u64)
    by (bit_vector)
    requires
        k <= 9,
    ensures
        k == 0 ==> 1u64 << (k * 7) == 1,
        k == 1 ==> 1u64 << (k * 7) == 0x80,
        k == 2 ==> 1u64 << (k * 7) == 0x4000,
        k == 3 ==> 1u64 << (k * 7) == 0x20_0000,
        k == 4 ==> 1u64 << (k * 7) == 0x1000_0000,
        k == 5 ==> 1u64 << (k * 7) == 0x8_0000_0000,
        k == 6 ==> 1u64 << (k * 7) == 0x400_0000_0000,
        k == 7 ==> 1u64 << (k * 7) == 0x2_0000_0000_0000,
        k == 8 ==> 1u64 << (k * 7) == 0x100_0000_0000_0000,
        k == 9 ==> 1u64 << (k * 7) == 0x8000_0000_0000_0000,
{
}

proof fn lemma_shift_is_pow128(k: u64)
    requires
        k <= 9,
    ensures
        (1u64 << (k * 7)) == pow128(k as nat),
{
    lemma_pow128_values();
    lemma_shift_values(k);
}

/// Below the tenth byte a digit lands on bits that are still clear, so that
/// `|` adds it.
proof fn lemma_or_digit(a: u64, p: u64, s: u64)
    by (bit_vector)
    requires
        s <= 56,
        p < 0x80,
        a < (1u64 << s),
    ensures
        (a | (p << s)) == a + p * (1u64 << s),
        (a | (p << s)) < (1u64 << (s + 7)),
{
}

/// Of the tenth digit only the lowest bit stays inside 64 bits.
proof fn lemma_or_last_digit(a: u64, p: u64)
    by (bit_vector)
    requires
        p < 0x80,
        a < 0x8000_0000_0000_0000,
    ensures
        (a | (p << 63)) == (a + p * 0x8000_0000_0000_0000) % 0x1_0000_0000_0000_0000,
{
}

proof fn lemma_mask(b: u8)
    by (bit_vector)
    ensures
        (b & 0x80 == 0) <==> b < 0x80,
        b < 0x80 ==> b & 0x7f == b,
        b >= 0x80 ==> b & 0x7f == b - 0x80,
        b & 0x7f < 0x80,
{
}

/// Reads the varint at the start of `buf`: its value and the number of bytes it takes.
pub fn parse_varint(buf: &[u8]) -> (r: Result<(u64, usize), Error>)
    ensures
        r == spec_parse_varint(buf@),
{
    let mut a: u64 = 0;
    let mut o: usize = 0;
    proof {
        lemma_pow128_values();
    }
    while o < buf.len()
        invariant
            o <= buf.len(),
            o <= 9,
            a < pow128(o as nat),
            varint_tail(buf@, 0) == lift(a as nat, o as nat, varint_tail(buf@, o as nat)),
        decreases buf.len() - o,
    {
        let i: u8 = buf[o];
        let p: u64 = (i & 0x7f) as u64;
        let s: u64 = (o as u64) * 7;
        let ghost a0 = a;
        let ghost k = o as nat;
        proof {
            lemma_mask(i);
            lemma_pow128_values();
            lemma_shift_is_pow128(o as u64);
            if o < 9 {
                lemma_or_digit(a, p, s);
                lemma_shift_is_pow128((o + 1) as u64);
            } else {
                lemma_or_last_digit(a, p);
            }
        }
        a = a | (p << s);
        o += 1;
        if i & 0x80 == 0 {
            proof {
                assert(varint_tail(buf@, k) == Ok::<(nat, nat), Error>((i as nat, k + 1)));
                if k < 9 {
                    assert(a == a0 + i * pow128(k));
                    assert(i * pow128(k) == pow128(k) * i) by (nonlinear_arith);
                    assert(a0 + pow128(k) * i < pow128(k + 1)) by (nonlinear_arith)
                        requires
                            a0 < pow128(k),
                            i < 0x80,
                            pow128(k + 1) == 128 * pow128(k),
                    ;
                } else {
                    assert(pow128(k) * i == i * 0x8000_0000_0000_0000) by (nonlinear_arith)
                        requires
                            pow128(k) == 0x8000_0000_0000_0000,
                    ;
                }
            }
            return Ok((a, o));
        }
        if o >= 10 {
            proof {
                assert(varint_tail(buf@, 10) == Err::<(nat, nat), Error>(Error::Overflow));
                assert(varint_tail(buf@, 9) == Err::<(nat, nat), Error>(Error::Overflow));
            }
            return Err(Error::Overflow);
        }
        proof {
            let r = varint_tail(buf@, k + 1);
            assert(varint_tail(buf@, k) == match r {
                Ok((v, end)) => Ok(((i - 0x80 + 128 * v) as nat, end)),
                Err(e) => Err(e),
            });
            assert(a == a0 + (i - 0x80) * pow128(k));
            if let Ok((v, end)) = r {
                assert(a0 + pow128(k) * ((i - 0x80 + 128 * v) as nat) == a + pow128(k + 1) * v)
                    by (nonlinear_arith)
                    requires
                        a == a0 + (i - 0x80) * pow128(k),
                        pow128(k + 1) == 128 * pow128(k),
                        i >= 0x80,
                        v >= 0,
                ;
            }
        }
    }
    Err(Error::UnexpectedEof)
}

/// A varint ends inside the bytes it was read from, after at least one of them
/// and at most ten.
pub proof fn lemma_varint_end(buf: Seq<u8>)
    ensures
        spec_parse_varint(buf) matches Ok((v, len)) ==> 1 <= len <= 10 && len <= buf.len(),
{
    lemma_tail_end(buf, 0);
}

/// The digits of a varint from index `k` on end inside the bytes, after at
/// least one of them and at index ten at the latest.
pub proof fn lemma_varint_end_from(buf: Seq<u8>, k: nat)
    ensures
        varint_tail(buf, k) matches Ok((v, end)) ==> k < end <= 10 && end <= buf.len(),
{
    lemma_tail_end(buf, k);
}

proof fn lemma_tail_end(buf: Seq<u8>, k: nat)
    ensures
        varint_tail(buf, k) matches Ok((v, end)) ==> k < end <= 10 && end <= buf.len(),
    decreases 10 - k,
{
    if k < 10 && k < buf.len() && buf[k as int] >= 0x80 {
        lemma_tail_end(buf, k + 1);
    }
}

/// Maps the zig-zag code `v` to the signed number it stands for.
pub fn straighten(v: u64) -> (x: i64)
    ensures
        x == zigzag_decode(v),
{
    let half: u64 = v >> 1;
    let odd: u64 = v & 1;
    assert(half == v / 2 && odd == v % 2 && half <= 0x7fff_ffff_ffff_ffff) by (bit_vector)
        requires
            half == v >> 1,
            odd == v & 1,
    ;
    if odd == 0 {
        half as i64
    } else {
        -(half as i64) - 1
    }
}

/// Reads the zig-zag varint at the start of `buf`: its value and the number of bytes it takes.
pub fn parse_zigzag(buf: &[u8]) -> (r: Result<(i64, usize), Error>)
    ensures
        r == spec_parse_zigzag(buf@),
{
    match parse_varint(buf) {
        Ok((val, len)) => Ok((straighten(val), len)),
        Err(e) => Err(e),
    }
}

/// An encoding of a number below `128^j`, `j` at least one, has at most `j` bytes; read as the digits
/// `k..` of a varint that is still short enough, it gives the number back and ends
/// where the encoding ends.
proof fn lemma_tail_of_encoding(buf: Seq<u8>, k: nat, x: u64, j: nat)
    requires
        j >= 1,
        x < pow128(j),
        k + j <= 10,
        k + varint_encode(x).len() <= buf.len(),
        buf.subrange(k as int, (k + varint_encode(x).len()) as int) == varint_encode(x),
    ensures
        varint_encode(x).len() <= j,
        varint_tail(buf, k) == Ok::<(nat, nat), Error>((x as nat, k + varint_encode(x).len())),
    decreases x,
{
    let enc = varint_encode(x);
    assert(buf[k as int] == enc[0]);
    if x < 0x80 {
    } else {
        let rest = varint_encode(x / 128);
        assert(j >= 2) by {
            reveal_with_fuel(pow128, 3);
        }
        assert(x / 128 < pow128((j - 1) as nat));
        assert(enc == seq![(x % 128 + 128) as u8] + rest);
        assert(buf.subrange((k + 1) as int, (k + 1 + rest.len()) as int) == rest) by {
            assert forall|i: int| 0 <= i < rest.len() implies buf[k + 1 + i] == rest[i] by {
                assert(buf.subrange(k as int, (k + enc.len()) as int)[i + 1] == enc[i + 1]);
            }
        }
        lemma_tail_of_encoding(buf, k + 1, (x / 128) as u64, (j - 1) as nat);
    }
}

/// Decoding undoes encoding: the bytes that encode `x`, whatever follows them,
/// are read back as `x`, and exactly those bytes are taken.
pub proof fn lemma_varint_roundtrip(x: u64, rest: Seq<u8>)
    ensures
        1 <= varint_encode(x).len() <= 10,
        spec_parse_varint(varint_encode(x) + rest) == Ok::<(u64, usize), Error>(
            (x, varint_encode(x).len() as usize),
        ),
{
    let enc = varint_encode(x);
    let buf = enc + rest;
    lemma_pow128_values();
    assert(buf.subrange(0, enc.len() as int) == enc);
    lemma_tail_of_encoding(buf, 0, x, 10);
}

/// The zig-zag code of a signed number stands for that number.
pub proof fn lemma_zigzag_roundtrip(x: i64)
    ensures
        zigzag_decode(zigzag_encode(x)) == x,
{
}

/// Decoding undoes encoding for signed numbers: the varint of the zig-zag code of
/// `x`, whatever follows it, is read back as `x`.
pub proof fn lemma_zigzag_varint_roundtrip(x: i64, rest: Seq<u8>)
    ensures
        spec_parse_zigzag(varint_encode(zigzag_encode(x)) + rest) == Ok::<(i64, usize), Error>(
            (x, varint_encode(zigzag_encode(x)).len() as usize),
        ),
{
    lemma_varint_roundtrip(zigzag_encode(x), rest);
    lemma_zigzag_roundtrip(x);
}

/// Reading varints off the front of a source of bytes.
pub trait VarintReaderExt {
    /// The bytes that are still to be read.
    spec fn unread(&self) -> Seq<u8>;

    /// Reads one varint and leaves what follows it. On an error nothing is taken.
    fn read_varint(&mut self) -> (r: Result<u64, Error>)
        ensures
            match spec_parse_varint(old(self).unread()) {
                Ok((v, len)) => r == Ok::<u64, Error>(v) && final(self).unread() == old(self).unread().skip(len as int),
                Err(e) => r == Err::<u64, Error>(e) && final(self).unread() == old(self).unread(),
            },
    ;

    /// Reads one zig-zag varint and leaves what follows it. On an error nothing is taken.
    fn read_zigzag(&mut self) -> (r: Result<i64, Error>)
        ensures
            match spec_parse_zigzag(old(self).unread()) {
                Ok((v, len)) => r == Ok::<i64, Error>(v) && final(self).unread() == old(self).unread().skip(len as int),
                Err(e) => r == Err::<i64, Error>(e) && final(self).unread() == old(self).unread(),
            },
    {
        match self.read_varint() {
            Ok(v) => Ok(straighten(v)),
            Err(e) => Err(e),
        }
    }
}

impl<'a> VarintReaderExt for &'a [u8] {
    open spec fn unread(&self) -> Seq<u8> {
        (*self)@
    }

    fn read_varint(&mut self) -> (r: Result<u64, Error>) {
        let bytes: &'a [u8] = *self;
        match parse_varint(bytes) {
            Ok((v, len)) => {
                proof {
                    lemma_varint_end(bytes@);
                }
                *self = vstd::slice::slice_subrange(bytes, len, bytes.len());
                Ok(v)
            },
            Err(e) => Err(e),
        }
    }
}

} // verus!
