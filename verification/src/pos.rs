//! The two position domains a note stream can use: row indices, stored as
//! varints, and time offsets, stored as 64-bit IEEE 754 bit patterns.
//!
//! [`Position`] gathers what the note codec needs of a position: its wire
//! form (a serializer, a parser, and their round-trip laws, which every
//! implementation must prove) and the comparison the sortedness rule uses.

use vstd::prelude::*;

use crate::decode::decode_f64_bits;
use crate::decode::decode_varint;
use crate::decode::DecodeError;
use crate::encode::encode_f64_bits;
use crate::encode::encode_varint;
use crate::encode::Base85Encoder;
use crate::order::f64_eq;
use crate::order::f64_lt;
use crate::order::F64Bits;
use crate::wire::lemma_parse_varint_consumed;
use crate::wire::lemma_varint_round_trip;
use crate::wire::parse_u64;
use crate::wire::parse_varint;
use crate::wire::u64_le_bytes;
use crate::wire::u64_le_value;
use crate::wire::lemma_u64_le_round_trip;
use crate::wire::varint_bytes;

verus! {

/// A note position as the wire format sees it: serialized form, parser, and
/// the order the sortedness rule compares by.
pub trait Position: Sized + Copy {
    /// The bytes this position occupies on the (pre-armor) wire.
    spec fn wire_bytes(self) -> Seq<u8>;

    /// Parses a position from the front of `s`: the value and the bytes
    /// consumed, or a decode error.
    spec fn parse_pos(s: Seq<u8>) -> Result<(Self, int), DecodeError>;

    /// The strict order the sortedness rule uses.
    spec fn lt_spec(self, other: Self) -> bool;

    /// The equality the sortedness rule uses.
    spec fn eq_spec(self, other: Self) -> bool;

    /// A successful parse consumes at least one byte and no more than the
    /// stream holds.
    proof fn lemma_parse_consumed(s: Seq<u8>)
        ensures
            Self::parse_pos(s) matches Ok((p, n)) ==> 1 <= n <= s.len(),
    ;

    /// Round trip: parsing a serialized position, with anything after it,
    /// yields the position back and consumes exactly its bytes.
    proof fn lemma_parse_wire(self, rest: Seq<u8>)
        ensures
            Self::parse_pos(self.wire_bytes() + rest) == Ok::<(Self, int), DecodeError>(
                (self, self.wire_bytes().len() as int),
            ),
    ;

    /// Reads a position at `*pos`, advancing `*pos`; the outcome is exactly
    /// what [`Position::parse_pos`] gives on the stream from `*pos`.
    fn read_pos(data: &[u8], pos: &mut usize) -> (r: Result<Self, DecodeError>)
        requires
            *old(pos) <= data@.len(),
        ensures
            *final(pos) <= data@.len(),
            match Self::parse_pos(data@.skip(*old(pos) as int)) {
                Ok((p, n)) => r == Ok::<Self, DecodeError>(p) && *final(pos) == *old(pos) + n,
                Err(e) => r == Err::<Self, DecodeError>(e),
            },
    ;

    /// Feeds this position's wire bytes to the armorer.
    fn write_pos(self, writer: &mut Base85Encoder)
        requires
            old(writer).wf(),
        ensures
            final(writer).wf(),
            final(writer).flushed() == old(writer).flushed(),
            final(writer).unflushed() == old(writer).unflushed() + self.wire_bytes(),
    ;

    /// Whether `self` sorts strictly before `other`.
    fn lt(self, other: Self) -> (r: bool)
        ensures
            r == self.lt_spec(other),
    ;

    /// Whether `self` and `other` sort as equal.
    fn eq_pos(self, other: Self) -> (r: bool)
        ensures
            r == self.eq_spec(other),
    ;
}

impl Position for u64 {
    /// A row index travels as a varint.
    open spec fn wire_bytes(self) -> Seq<u8> {
        varint_bytes(self)
    }

    open spec fn parse_pos(s: Seq<u8>) -> Result<(u64, int), DecodeError> {
        parse_varint(s)
    }

    open spec fn lt_spec(self, other: u64) -> bool {
        self < other
    }

    open spec fn eq_spec(self, other: u64) -> bool {
        self == other
    }

    proof fn lemma_parse_consumed(s: Seq<u8>) {
        lemma_parse_varint_consumed(s);
    }

    proof fn lemma_parse_wire(self, rest: Seq<u8>) {
        lemma_varint_round_trip(self, rest);
    }

    fn read_pos(data: &[u8], pos: &mut usize) -> (r: Result<u64, DecodeError>) {
        decode_varint(data, pos)
    }

    fn write_pos(self, writer: &mut Base85Encoder) {
        encode_varint(writer, self);
    }

    fn lt(self, other: u64) -> (r: bool) {
        self < other
    }

    fn eq_pos(self, other: u64) -> (r: bool) {
        self == other
    }
}

impl Position for F64Bits {
    /// A time offset travels as its eight little-endian IEEE 754 bytes.
    open spec fn wire_bytes(self) -> Seq<u8> {
        u64_le_bytes(self.bits)
    }

    open spec fn parse_pos(s: Seq<u8>) -> Result<(F64Bits, int), DecodeError> {
        match parse_u64(s) {
            Ok((v, n)) => Ok((F64Bits { bits: v }, n)),
            Err(e) => Err(e),
        }
    }

    open spec fn lt_spec(self, other: F64Bits) -> bool {
        f64_lt(self.bits, other.bits)
    }

    open spec fn eq_spec(self, other: F64Bits) -> bool {
        f64_eq(self.bits, other.bits)
    }

    proof fn lemma_parse_consumed(s: Seq<u8>) {
    }

    proof fn lemma_parse_wire(self, rest: Seq<u8>) {
        let w = u64_le_bytes(self.bits);
        let s = w + rest;
        assert(w.len() == 8);
        assert(s[0] == w[0] && s[1] == w[1] && s[2] == w[2] && s[3] == w[3] && s[4] == w[4] && s[5]
            == w[5] && s[6] == w[6] && s[7] == w[7]);
        assert(u64_le_value(s) == u64_le_value(w));
        lemma_u64_le_round_trip(self.bits);
    }

    fn read_pos(data: &[u8], pos: &mut usize) -> (r: Result<F64Bits, DecodeError>) {
        decode_f64_bits(data, pos)
    }

    fn write_pos(self, writer: &mut Base85Encoder) {
        encode_f64_bits(writer, self);
    }

    fn lt(self, other: F64Bits) -> (r: bool) {
        self.ieee_lt(other)
    }

    fn eq_pos(self, other: F64Bits) -> (r: bool) {
        self.ieee_eq(other)
    }
}

} // verus!
