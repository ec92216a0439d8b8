//! The mathematical model of the raw byte stream that sits under the base85
//! armor: LEB128 varints and little-endian fixed-width fields.
//!
//! For each field kind there is a serializer (`..._bytes`, value to byte
//! sequence) and a parser (`parse_...`, byte sequence to value and consumed
//! count, or a decode error). The executable codec is specified against these
//! functions, and the round-trip laws are proved about them.

use vstd::prelude::*;
use vstd::arithmetic::div_mod::lemma_fundamental_div_mod;

use crate::decode::DecodeError;

verus! {

/// The LEB128 encoding of `v`: 7 bits per byte, least significant first, the
/// high bit set on every byte but the last.
pub open spec fn varint_bytes(v: u64) -> Seq<u8>
    decreases v,
{
    if v < 128 {
        seq![v as u8]
    } else {
        seq![(v % 128 + 128) as u8] + varint_bytes(v / 128)
    }
}

/// Folds one continuation byte onto an already-parsed tail value, truncating
/// to 64 bits as the accumulating decoder does.
pub open spec fn varint_combine(b: u8, v: u64) -> u64 {
    (((b as int) % 128 + 128 * (v as int)) % 0x1_0000_0000_0000_0000) as u64
}

/// Parses a LEB128 varint from the front of `s`: the value (truncated to 64
/// bits) and the number of bytes consumed, or `UnexpectedEof` when no byte
/// with a clear high bit arrives before the stream ends.
pub open spec fn parse_varint(s: Seq<u8>) -> Result<(u64, int), DecodeError>
    decreases s.len(),
{
    if s.len() == 0 {
        Err(DecodeError::UnexpectedEof)
    } else if s[0] < 128 {
        Ok((s[0] as u64, 1))
    } else {
        match parse_varint(s.skip(1)) {
            Ok((v, n)) => Ok((varint_combine(s[0], v), n + 1)),
            Err(e) => Err(e),
        }
    }
}

/// Every varint byte but the last carries a set continuation bit, and the
/// last byte has it clear.
pub proof fn lemma_varint_bytes_shape(v: u64)
    ensures
        forall|i: int|
            0 <= i < varint_bytes(v).len() - 1 ==> #[trigger] varint_bytes(v)[i] >= 128,
        varint_bytes(v)[varint_bytes(v).len() - 1] < 128,
    decreases v,
{
    if v >= 128 {
        lemma_varint_bytes_shape(v / 128);
    }
}

/// A successful varint parse consumes at least one byte and no more than the
/// stream holds.
pub proof fn lemma_parse_varint_consumed(s: Seq<u8>)
    ensures
        parse_varint(s) matches Ok((v, n)) ==> 1 <= n <= s.len(),
    decreases s.len(),
{
    if s.len() > 0 && s[0] >= 128 {
        lemma_parse_varint_consumed(s.skip(1));
    }
}

/// A stream of nothing but continuation bytes never yields a varint.
pub proof fn lemma_parse_varint_all_continuation(s: Seq<u8>)
    requires
        forall|j: int| 0 <= j < s.len() ==> s[j] >= 128,
    ensures
        parse_varint(s) == Err::<(u64, int), DecodeError>(DecodeError::UnexpectedEof),
    decreases s.len(),
{
    if s.len() > 0 {
        lemma_parse_varint_all_continuation(s.skip(1));
    }
}

/// Round trip: parsing a serialized varint, with anything after it, yields
/// the original value and consumes exactly the serialized bytes.
pub proof fn lemma_varint_round_trip(v: u64, rest: Seq<u8>)
    ensures
        parse_varint(varint_bytes(v) + rest) == Ok::<(u64, int), DecodeError>(
            (v, varint_bytes(v).len() as int),
        ),
    decreases v,
{
    let s = varint_bytes(v) + rest;
    if v < 128 {
        assert(s[0] == v as u8);
    } else {
        let b = (v % 128 + 128) as u8;
        assert(s[0] == b);
        assert(s.skip(1) =~= varint_bytes(v / 128) + rest);
        lemma_varint_round_trip(v / 128, rest);
        assert(varint_combine(b, v / 128) == v) by {
            lemma_fundamental_div_mod(v as int, 128);
        }
    }
}

/// The signature prefix of a note stream: the ASCII bytes of
/// `ArrowVortex:notes:`.
pub open spec fn notes_signature() -> Seq<u8> {
    seq![
        65u8, 114u8, 114u8, 111u8, 119u8, 86u8, 111u8, 114u8, 116u8, 101u8, 120u8, 58u8, 110u8,
        111u8, 116u8, 101u8, 115u8, 58u8,
    ]
}

/// The signature prefix of a tempo stream: the ASCII bytes of
/// `ArrowVortex:tempo:`.
pub open spec fn tempo_signature() -> Seq<u8> {
    seq![
        65u8, 114u8, 114u8, 111u8, 119u8, 86u8, 111u8, 114u8, 116u8, 101u8, 120u8, 58u8, 116u8,
        101u8, 109u8, 112u8, 111u8, 58u8,
    ]
}

/// The little-endian `u32` formed from the first four bytes of `s`.
pub open spec fn u32_le_value(s: Seq<u8>) -> u32 {
    (s[0] + s[1] * 0x100 + s[2] * 0x1_0000 + s[3] * 0x100_0000) as u32
}

/// The four little-endian bytes of `v`.
pub open spec fn u32_le_bytes(v: u32) -> Seq<u8> {
    seq![
        (v % 0x100) as u8,
        ((v / 0x100) % 0x100) as u8,
        ((v / 0x1_0000) % 0x100) as u8,
        ((v / 0x100_0000) % 0x100) as u8,
    ]
}

/// Parses a little-endian `u32` from the front of `s`.
pub open spec fn parse_u32(s: Seq<u8>) -> Result<(u32, int), DecodeError> {
    if s.len() < 4 {
        Err(DecodeError::UnexpectedEof)
    } else {
        Ok((u32_le_value(s), 4))
    }
}

/// Round trip: the four little-endian bytes of `v` read back as `v`.
pub proof fn lemma_u32_le_round_trip(v: u32)
    ensures
        u32_le_value(u32_le_bytes(v)) == v,
{
    assert(v % 0x100 + ((v / 0x100) % 0x100) * 0x100 + ((v / 0x1_0000) % 0x100) * 0x1_0000 + ((v
        / 0x100_0000) % 0x100) * 0x100_0000 == v) by (bit_vector);
}

/// Round trip: parsing serialized little-endian `u32` bytes, with anything
/// after them, yields the value and consumes four bytes.
pub proof fn lemma_parse_u32_round_trip(v: u32, rest: Seq<u8>)
    ensures
        parse_u32(u32_le_bytes(v) + rest) == Ok::<(u32, int), DecodeError>((v, 4)),
{
    let w = u32_le_bytes(v);
    let s = w + rest;
    assert(s[0] == w[0] && s[1] == w[1] && s[2] == w[2] && s[3] == w[3]);
    assert(u32_le_value(s) == u32_le_value(w));
    lemma_u32_le_round_trip(v);
}

/// The little-endian `u64` formed from the first eight bytes of `s`.
pub open spec fn u64_le_value(s: Seq<u8>) -> u64 {
    (s[0] + s[1] * 0x100 + s[2] * 0x1_0000 + s[3] * 0x100_0000 + s[4] * 0x1_0000_0000 + s[5]
        * 0x100_0000_0000 + s[6] * 0x1_0000_0000_0000 + s[7] * 0x100_0000_0000_0000) as u64
}

/// The eight little-endian bytes of `v`.
pub open spec fn u64_le_bytes(v: u64) -> Seq<u8> {
    seq![
        (v % 0x100) as u8,
        ((v / 0x100) % 0x100) as u8,
        ((v / 0x1_0000) % 0x100) as u8,
        ((v / 0x100_0000) % 0x100) as u8,
        ((v / 0x1_0000_0000) % 0x100) as u8,
        ((v / 0x100_0000_0000) % 0x100) as u8,
        ((v / 0x1_0000_0000_0000) % 0x100) as u8,
        ((v / 0x100_0000_0000_0000) % 0x100) as u8,
    ]
}

/// The eight little-endian bytes of a `u64` are the four of its low half
/// followed by the four of its high half.
pub proof fn lemma_u64_le_bytes_split(b: u64)
    ensures
        u64_le_bytes(b) == u32_le_bytes((b % 0x1_0000_0000) as u32) + u32_le_bytes(
            (b / 0x1_0000_0000) as u32,
        ),
{
    assert((b % 0x1_0000_0000) % 0x100 == b % 0x100 && ((b % 0x1_0000_0000) / 0x100) % 0x100 == (b
        / 0x100) % 0x100 && ((b % 0x1_0000_0000) / 0x1_0000) % 0x100 == (b / 0x1_0000) % 0x100 && ((
    b % 0x1_0000_0000) / 0x100_0000) % 0x100 == (b / 0x100_0000) % 0x100 && (b / 0x1_0000_0000)
        % 0x100 == (b / 0x1_0000_0000) % 0x100 && ((b / 0x1_0000_0000) / 0x100) % 0x100 == (b
        / 0x100_0000_0000) % 0x100 && ((b / 0x1_0000_0000) / 0x1_0000) % 0x100 == (b
        / 0x1_0000_0000_0000) % 0x100 && ((b / 0x1_0000_0000) / 0x100_0000) % 0x100 == (b
        / 0x100_0000_0000_0000) % 0x100) by (bit_vector);
    assert(u64_le_bytes(b) =~= u32_le_bytes((b % 0x1_0000_0000) as u32) + u32_le_bytes(
        (b / 0x1_0000_0000) as u32,
    ));
}

/// Parses a little-endian `u64` (an IEEE 754 bit pattern on the wire) from
/// the front of `s`.
pub open spec fn parse_u64(s: Seq<u8>) -> Result<(u64, int), DecodeError> {
    if s.len() < 8 {
        Err(DecodeError::UnexpectedEof)
    } else {
        Ok((u64_le_value(s), 8))
    }
}

/// Round trip: the eight little-endian bytes of `v` read back as `v`.
pub proof fn lemma_u64_le_round_trip(v: u64)
    ensures
        u64_le_value(u64_le_bytes(v)) == v,
{
    assert(v % 0x100 + ((v / 0x100) % 0x100) * 0x100 + ((v / 0x1_0000) % 0x100) * 0x1_0000 + ((v
        / 0x100_0000) % 0x100) * 0x100_0000 + ((v / 0x1_0000_0000) % 0x100) * 0x1_0000_0000 + ((v
        / 0x100_0000_0000) % 0x100) * 0x100_0000_0000 + ((v / 0x1_0000_0000_0000) % 0x100)
        * 0x1_0000_0000_0000 + ((v / 0x100_0000_0000_0000) % 0x100) * 0x100_0000_0000_0000 == v)
        by (bit_vector);
}

/// Round trip: parsing serialized little-endian `u64` bytes, with anything
/// after them, yields the value and consumes eight bytes.
pub proof fn lemma_parse_u64_round_trip(v: u64, rest: Seq<u8>)
    ensures
        parse_u64(u64_le_bytes(v) + rest) == Ok::<(u64, int), DecodeError>((v, 8)),
{
    let w = u64_le_bytes(v);
    let s = w + rest;
    assert(s[0] == w[0] && s[1] == w[1] && s[2] == w[2] && s[3] == w[3] && s[4] == w[4] && s[5]
        == w[5] && s[6] == w[6] && s[7] == w[7]);
    assert(u64_le_value(s) == u64_le_value(w));
    lemma_u64_le_round_trip(v);
}

} // verus!
