//! The mathematical model of the base85 armor.
//!
//! The armor works on 4-byte words: each word is read big-endian into a
//! 32-bit value and written as five base85 digits (most significant first),
//! each digit stored as an ASCII character in `[33, 117]`. A word of four
//! zero bytes is abbreviated to the single character `z` (122). A trailing
//! word of `n < 4` bytes is zero-padded, and only the first `n + 1` of its
//! five characters are written; the decoder treats the missing characters as
//! the digit value 85, which makes the written prefix decode back to the
//! original bytes.
//!
//! Decoding is total: a character below 33 contributes the digit its byte
//! value takes modulo 256 after subtracting 33, and a word value beyond 32
//! bits wraps, as a 32-bit accumulator would. On armor that an encoder
//! produced, neither case arises.

use vstd::prelude::*;
use vstd::arithmetic::div_mod::lemma_breakdown;
use vstd::arithmetic::div_mod::lemma_div_denominator;
use vstd::arithmetic::div_mod::lemma_fundamental_div_mod;
use vstd::arithmetic::div_mod::lemma_fundamental_div_mod_converse;
use vstd::arithmetic::div_mod::lemma_multiply_divide_lt;
use vstd::arithmetic::div_mod::lemma_small_mod;

verus! {

/// The armor character for an all-zero word.
pub const ZERO_WORD_CHAR: u8 = 122;

/// The digit value of an armor character: `c - 33`, wrapping below zero as
/// the reference byte arithmetic does.
pub open spec fn b85_digit(c: u8) -> int {
    if c >= 33 {
        c - 33
    } else {
        c + 223
    }
}

/// The digit at position `i` of a (possibly short) character group; missing
/// positions count as the padding digit 85.
pub open spec fn b85_digit_at(s: Seq<u8>, i: int) -> int {
    if 0 <= i < s.len() {
        b85_digit(s[i])
    } else {
        85
    }
}

/// The value of a character group, most significant digit first.
pub open spec fn b85_group_value(s: Seq<u8>) -> int {
    b85_digit_at(s, 0) * 52200625 + b85_digit_at(s, 1) * 614125 + b85_digit_at(s, 2) * 7225
        + b85_digit_at(s, 3) * 85 + b85_digit_at(s, 4)
}

/// The 32-bit word a character group denotes: its value, wrapped to 32 bits.
pub open spec fn b85_group_dword(s: Seq<u8>) -> u32 {
    (b85_group_value(s) % 0x1_0000_0000) as u32
}

/// The five armor characters of a 32-bit word.
pub open spec fn b85_group_chars(v: u32) -> Seq<u8> {
    seq![
        (33 + (v / 52200625) % 85) as u8,
        (33 + (v / 614125) % 85) as u8,
        (33 + (v / 7225) % 85) as u8,
        (33 + (v / 85) % 85) as u8,
        (33 + v % 85) as u8,
    ]
}

/// The big-endian 32-bit value of the first four bytes of `s`, zero-padded
/// when `s` is shorter.
pub open spec fn u32_be_value_padded(s: Seq<u8>) -> int {
    byte_or_zero(s, 0) * 0x100_0000 + byte_or_zero(s, 1) * 0x1_0000 + byte_or_zero(s, 2) * 0x100
        + byte_or_zero(s, 3)
}

/// The byte at `i`, or zero past the end.
pub open spec fn byte_or_zero(s: Seq<u8>, i: int) -> int {
    if 0 <= i < s.len() {
        s[i] as int
    } else {
        0
    }
}

/// The four big-endian bytes of a 32-bit word.
pub open spec fn u32_be_bytes(v: u32) -> Seq<u8> {
    seq![
        (v / 0x100_0000) as u8,
        ((v / 0x1_0000) % 0x100) as u8,
        ((v / 0x100) % 0x100) as u8,
        (v % 0x100) as u8,
    ]
}

/// Removes the base85 armor from `s`, one character group at a time. Each
/// group yields four bytes; a short trailing group is padded with the digit
/// 85 and still yields four bytes, of which only the leading ones are
/// meaningful to the layer above.
pub open spec fn b85_decode(s: Seq<u8>) -> Seq<u8>
    decreases s.len(),
{
    if s.len() == 0 {
        Seq::empty()
    } else if s[0] == ZERO_WORD_CHAR {
        seq![0u8, 0u8, 0u8, 0u8] + b85_decode(s.skip(1))
    } else if s.len() < 5 {
        u32_be_bytes(b85_group_dword(s))
    } else {
        u32_be_bytes(b85_group_dword(s.take(5))) + b85_decode(s.skip(5))
    }
}

/// Puts the base85 armor on `s`, one 4-byte word at a time: `z` for a full
/// zero word, five characters for any other full word, and `n + 1`
/// characters for a trailing word of `n < 4` bytes.
#[verifier::opaque]
pub open spec fn b85_encode(s: Seq<u8>) -> Seq<u8>
    decreases s.len(),
{
    if s.len() == 0 {
        Seq::empty()
    } else if s.len() >= 4 {
        let v = u32_be_value_padded(s) as u32;
        (if v == 0 {
            seq![ZERO_WORD_CHAR]
        } else {
            b85_group_chars(v)
        }) + b85_encode(s.skip(4))
    } else {
        b85_group_chars(u32_be_value_padded(s) as u32).take(s.len() as int + 1)
    }
}

/// The padded big-endian value of any byte sequence fits in 32 bits.
pub proof fn lemma_u32_be_value_padded_bound(s: Seq<u8>)
    ensures
        0 <= u32_be_value_padded(s) < 0x1_0000_0000,
{
}

/// Armor characters of a word stay in the printable digit range.
pub proof fn lemma_b85_group_chars_range(v: u32)
    ensures
        b85_group_chars(v).len() == 5,
        forall|i: int| 0 <= i < 5 ==> 33 <= #[trigger] b85_group_chars(v)[i] <= 117,
{
    assert forall|i: int| 0 <= i < 5 implies 33 <= #[trigger] b85_group_chars(v)[i] <= 117 by {
        assert((v / 52200625) % 85 < 85);
        assert((v / 614125) % 85 < 85);
        assert((v / 7225) % 85 < 85);
        assert((v / 85) % 85 < 85);
        assert(v % 85 < 85);
    }
}

/// Radix-85 digit decomposition of a 32-bit word: the five digits the
/// encoder derives recombine to the word.
pub proof fn lemma_b85_digit_decomposition(v: u32)
    ensures
        v == ((v / 52200625) % 85) * 52200625 + ((v / 614125) % 85) * 614125 + ((v / 7225) % 85)
            * 7225 + ((v / 85) % 85) * 85 + v % 85,
{
    let x = v as int;
    assert(x < 52200625 * 85);
    lemma_multiply_divide_lt(x, 52200625, 85);
    lemma_small_mod((x / 52200625) as nat, 85);
    lemma_fundamental_div_mod(x, 52200625);
    assert(x % 52200625 == 614125 * ((x / 614125) % 85) + x % 614125) by {
        lemma_breakdown(x, 614125, 85);
    }
    assert(x % 614125 == 7225 * ((x / 7225) % 85) + x % 7225) by {
        lemma_breakdown(x, 7225, 85);
    }
    assert(x % 7225 == 85 * ((x / 85) % 85) + x % 85) by {
        lemma_breakdown(x, 85, 85);
    }
}

/// A full word's five characters decode back to the word.
pub proof fn lemma_b85_group_chars_value(v: u32)
    ensures
        b85_group_value(b85_group_chars(v)) == v,
        b85_group_dword(b85_group_chars(v)) == v,
{
    let c = b85_group_chars(v);
    lemma_b85_group_chars_range(v);
    assert(b85_digit_at(c, 0) == (v / 52200625) % 85);
    assert(b85_digit_at(c, 1) == (v / 614125) % 85);
    assert(b85_digit_at(c, 2) == (v / 7225) % 85);
    assert(b85_digit_at(c, 3) == (v / 85) % 85);
    assert(b85_digit_at(c, 4) == v % 85);
    lemma_b85_digit_decomposition(v);
    lemma_small_mod(v as nat, 0x1_0000_0000);
}

/// Four bytes survive the trip through their big-endian 32-bit word.
pub proof fn lemma_u32_be_bytes_of_value(s: Seq<u8>)
    requires
        s.len() == 4,
    ensures
        u32_be_bytes(u32_be_value_padded(s) as u32) == s,
{
    let b0 = s[0];
    let b1 = s[1];
    let b2 = s[2];
    let b3 = s[3];
    let v = (u32_be_value_padded(s)) as u32;
    assert(v == b0 * 0x100_0000 + b1 * 0x1_0000 + b2 * 0x100 + b3);
    assert((b0 * 0x100_0000 + b1 * 0x1_0000 + b2 * 0x100 + b3) / 0x100_0000 == b0 && ((b0
        * 0x100_0000 + b1 * 0x1_0000 + b2 * 0x100 + b3) / 0x1_0000) % 0x100 == b1 && ((b0
        * 0x100_0000 + b1 * 0x1_0000 + b2 * 0x100 + b3) / 0x100) % 0x100 == b2 && (b0 * 0x100_0000
        + b1 * 0x1_0000 + b2 * 0x100 + b3) % 0x100 == b3) by (bit_vector);
    assert(u32_be_bytes(v) =~= s);
}

/// Adding less than `m` to a multiple of `m` changes neither the quotient by
/// `m` nor anything above it.
proof fn lemma_small_add_keeps_quotient(v: int, delta: int, m: int)
    requires
        0 < m,
        0 <= v,
        v % m == 0,
        0 <= delta < m,
    ensures
        (v + delta) / m == v / m,
        (v + delta) % m == delta,
{
    lemma_fundamental_div_mod(v, m);
    assert(v + delta == (v / m) * m + delta) by {
        vstd::arithmetic::mul::lemma_mul_is_commutative(m, v / m);
    }
    lemma_fundamental_div_mod_converse(v + delta, m, v / m, delta);
}

/// A short trailing word round-trips: padding the written characters with
/// the digit 85 perturbs the word only below its meaningful bytes.
///
/// For a trailing word of `n < 4` bytes the encoder writes the first `n + 1`
/// characters of the zero-padded word; the decoder fills the missing digits
/// with 85 and emits four bytes, of which the first `n` equal the original
/// bytes.
pub proof fn lemma_b85_partial_group(s: Seq<u8>)
    requires
        1 <= s.len() <= 3,
    ensures
        ({
            let c = b85_group_chars(u32_be_value_padded(s) as u32).take(s.len() as int + 1);
            &&& c.len() == s.len() + 1
            &&& (forall|i: int| 0 <= i < c.len() ==> 33 <= #[trigger] c[i] <= 117)
            &&& u32_be_bytes(b85_group_dword(c)).take(s.len() as int) == s
        }),
{
    let len = s.len() as int;
    let v = u32_be_value_padded(s) as u32;
    let x = v as int;
    let c = b85_group_chars(v).take(len + 1);
    lemma_b85_group_chars_range(v);
    lemma_b85_digit_decomposition(v);
    let d0 = (x / 52200625) % 85;
    let d1 = (x / 614125) % 85;
    let d2 = (x / 7225) % 85;
    let d3 = (x / 85) % 85;
    assert(b85_digit_at(c, 0) == d0);
    assert(b85_digit_at(c, 1) == d1);
    // The value the padded characters denote, and how far it sits above the
    // zero-padded word.
    let val = b85_group_value(c);
    if len == 3 {
        assert(b85_digit_at(c, 2) == d2);
        assert(b85_digit_at(c, 3) == d3);
        assert(b85_digit_at(c, 4) == 85);
        let delta = 85 - x % 85;
        assert(val == x + delta);
        // The low byte of the zero-padded word is zero.
        let q = s[0] * 0x1_0000 + s[1] * 0x100 + s[2];
        lemma_fundamental_div_mod_converse(x, 0x100, q, 0);
        assert(x % 0x100 == 0 && x / 0x100 == q);
        lemma_small_add_keeps_quotient(x, delta, 0x100);
        assert(val < 0x1_0000_0000);
        lemma_small_mod(val as nat, 0x1_0000_0000);
        let w = b85_group_dword(c) as int;
        assert(w == val);
        assert(w / 0x100_0000 == q / 0x1_0000) by {
            lemma_div_denominator(w, 0x100, 0x1_0000);
        }
        assert(x / 0x100_0000 == q / 0x1_0000) by {
            lemma_div_denominator(x, 0x100, 0x1_0000);
        }
        assert(w / 0x1_0000 == q / 0x100) by {
            lemma_div_denominator(w, 0x100, 0x100);
        }
        assert(x / 0x1_0000 == q / 0x100) by {
            lemma_div_denominator(x, 0x100, 0x100);
        }
        lemma_fundamental_div_mod_converse(q, 0x1_0000, s[0] as int, s[1] * 0x100 + s[2]);
        lemma_fundamental_div_mod_converse(q / 0x100, 0x100, s[0] as int, s[1] as int);
        lemma_fundamental_div_mod_converse(q, 0x100, s[0] * 0x100 + s[1], s[2] as int);
        assert(u32_be_bytes(b85_group_dword(c)).take(len) =~= s);
    } else if len == 2 {
        assert(b85_digit_at(c, 2) == d2);
        assert(b85_digit_at(c, 3) == 85);
        assert(b85_digit_at(c, 4) == 85);
        let delta = 85 * 85 + 85 - x % 7225;
        assert(x % 7225 == 85 * d3 + x % 85) by {
            lemma_breakdown(x, 85, 85);
        }
        assert(val == x + delta);
        assert(0 < delta < 0x1_0000);
        let q = s[0] * 0x100 + s[1];
        lemma_fundamental_div_mod_converse(x, 0x1_0000, q, 0);
        lemma_small_add_keeps_quotient(x, delta, 0x1_0000);
        assert(val < 0x1_0000_0000);
        lemma_small_mod(val as nat, 0x1_0000_0000);
        let w = b85_group_dword(c) as int;
        assert(w / 0x1_0000 == q);
        assert(w / 0x100_0000 == q / 0x100) by {
            lemma_div_denominator(w, 0x1_0000, 0x100);
        }
        lemma_fundamental_div_mod_converse(q, 0x100, s[0] as int, s[1] as int);
        // The second byte of the word is the low byte of `q`.
        assert((w / 0x1_0000) % 0x100 == s[1]);
        assert(u32_be_bytes(b85_group_dword(c)).take(len) =~= s);
    } else {
        assert(b85_digit_at(c, 2) == 85);
        assert(b85_digit_at(c, 3) == 85);
        assert(b85_digit_at(c, 4) == 85);
        let delta = 7225 * 85 + 85 * 85 + 85 - x % 614125;
        assert(x % 614125 == 7225 * d2 + x % 7225) by {
            lemma_breakdown(x, 7225, 85);
        }
        assert(x % 7225 == 85 * d3 + x % 85) by {
            lemma_breakdown(x, 85, 85);
        }
        assert(val == x + delta);
        assert(0 < delta < 0x100_0000);
        let q = s[0] as int;
        lemma_fundamental_div_mod_converse(x, 0x100_0000, q, 0);
        lemma_small_add_keeps_quotient(x, delta, 0x100_0000);
        assert(val < 0x1_0000_0000);
        lemma_small_mod(val as nat, 0x1_0000_0000);
        let w = b85_group_dword(c) as int;
        assert(w / 0x100_0000 == s[0]);
        assert(u32_be_bytes(b85_group_dword(c)).take(len) =~= s);
    }
}

/// The armor is assembled word by word: encoding a stream that splits at a
/// word boundary encodes the two halves independently.
pub proof fn lemma_b85_encode_append(a: Seq<u8>, b: Seq<u8>)
    requires
        a.len() % 4 == 0,
    ensures
        b85_encode(a + b) == b85_encode(a) + b85_encode(b),
    decreases a.len(),
{
    reveal(b85_encode);
    if a.len() == 0 {
        assert(a + b =~= b);
        assert(b85_encode(a) + b85_encode(b) =~= b85_encode(b));
    } else {
        let s = a + b;
        assert(u32_be_value_padded(s) == u32_be_value_padded(a));
        assert(s.skip(4) =~= a.skip(4) + b);
        lemma_b85_encode_append(a.skip(4), b);
        if b.len() == 0 {
            assert(a + b =~= a);
        }
        assert(b85_encode(a + b) =~= b85_encode(a) + b85_encode(b));
    }
}

/// Unfolding step: a zero-word character at the head of the armor decodes to
/// four zero bytes followed by the decoding of the rest.
proof fn lemma_b85_decode_zero_head(t: Seq<u8>)
    ensures
        b85_decode(seq![ZERO_WORD_CHAR] + t) == seq![0u8, 0u8, 0u8, 0u8] + b85_decode(t),
{
    let s = seq![ZERO_WORD_CHAR] + t;
    assert(s[0] == ZERO_WORD_CHAR);
    assert(s.skip(1) =~= t);
}

/// Unfolding step: a full five-character group at the head of the armor
/// decodes to its word's four bytes followed by the decoding of the rest.
proof fn lemma_b85_decode_group_head(v: u32, t: Seq<u8>)
    ensures
        b85_decode(b85_group_chars(v) + t) == u32_be_bytes(v) + b85_decode(t),
{
    let s = b85_group_chars(v) + t;
    lemma_b85_group_chars_range(v);
    assert(s[0] == b85_group_chars(v)[0]);
    assert(s[0] != ZERO_WORD_CHAR);
    assert(s.len() >= 5);
    assert(s.take(5) =~= b85_group_chars(v));
    assert(s.skip(5) =~= t);
    lemma_b85_group_chars_value(v);
}

/// Glues a recovered head word onto a recovered tail.
proof fn lemma_prefix_extend(h: Seq<u8>, d2: Seq<u8>, s: Seq<u8>)
    requires
        s.len() >= 4,
        h == s.take(4),
        d2.len() >= s.len() - 4,
        d2.take(s.len() - 4) == s.skip(4),
    ensures
        (h + d2).len() >= s.len(),
        (h + d2).take(s.len() as int) == s,
{
    let g = h + d2;
    assert forall|i: int| 0 <= i < s.len() implies g.take(s.len() as int)[i] == s[i] by {
        if i < 4 {
            assert(g[i] == s.take(4)[i]);
        } else {
            assert(g[i] == d2[i - 4]);
            assert(d2[i - 4] == d2.take(s.len() - 4)[i - 4]);
            assert(s.skip(4)[i - 4] == s[i]);
        }
    }
    assert(g.take(s.len() as int) =~= s);
}

/// Inductive step of the round trip for a stream opening with a zero word.
proof fn lemma_b85_round_trip_full_zero(s: Seq<u8>)
    requires
        s.len() >= 4,
        u32_be_value_padded(s) == 0,
        b85_decode(b85_encode(s.skip(4))).len() >= s.len() - 4,
        b85_decode(b85_encode(s.skip(4))).take(s.len() - 4) == s.skip(4),
    ensures
        b85_decode(b85_encode(s)).len() >= s.len(),
        b85_decode(b85_encode(s)).take(s.len() as int) == s,
{
    reveal(b85_encode);
    let tail = s.skip(4);
    let dt = b85_decode(b85_encode(tail));
    assert(b85_encode(s) =~= seq![ZERO_WORD_CHAR] + b85_encode(tail));
    lemma_b85_decode_zero_head(b85_encode(tail));
    assert(b85_decode(b85_encode(s)) == seq![0u8, 0u8, 0u8, 0u8] + dt);
    assert(s[0] == 0 && s[1] == 0 && s[2] == 0 && s[3] == 0);
    assert(seq![0u8, 0u8, 0u8, 0u8] =~= s.take(4));
    lemma_prefix_extend(seq![0u8, 0u8, 0u8, 0u8], dt, s);
}

/// Inductive step of the round trip for a stream opening with a non-zero
/// word.
proof fn lemma_b85_round_trip_full_nonzero(s: Seq<u8>)
    requires
        s.len() >= 4,
        u32_be_value_padded(s) != 0,
        b85_decode(b85_encode(s.skip(4))).len() >= s.len() - 4,
        b85_decode(b85_encode(s.skip(4))).take(s.len() - 4) == s.skip(4),
    ensures
        b85_decode(b85_encode(s)).len() >= s.len(),
        b85_decode(b85_encode(s)).take(s.len() as int) == s,
{
    reveal(b85_encode);
    let v = u32_be_value_padded(s) as u32;
    let head = s.take(4);
    let tail = s.skip(4);
    let dt = b85_decode(b85_encode(tail));
    lemma_u32_be_value_padded_bound(s);
    assert(b85_encode(s) =~= b85_group_chars(v) + b85_encode(tail));
    lemma_b85_decode_group_head(v, b85_encode(tail));
    assert(u32_be_value_padded(head) == v);
    lemma_u32_be_bytes_of_value(head);
    assert(b85_decode(b85_encode(s)) == head + dt);
    lemma_prefix_extend(head, dt, s);
}

/// Round trip for a short trailing word.
proof fn lemma_b85_round_trip_partial(s: Seq<u8>)
    requires
        1 <= s.len() <= 3,
    ensures
        b85_decode(b85_encode(s)).len() >= s.len(),
        b85_decode(b85_encode(s)).take(s.len() as int) == s,
{
    reveal(b85_encode);
    let e = b85_encode(s);
    let d = b85_decode(e);
    lemma_b85_partial_group(s);
    let c = b85_group_chars(u32_be_value_padded(s) as u32).take(s.len() as int + 1);
    assert(e == c);
    assert(33 <= e[0] <= 117);
    assert(e.len() < 5);
    assert(d == u32_be_bytes(b85_group_dword(e)));
    assert(d.take(s.len() as int) == s);
}

/// Removing the armor recovers every byte that went in: the decoded stream
/// carries the encoded bytes as a prefix (a short trailing word still
/// decodes to a full word of four bytes, so the decoded stream may run up
/// to three junk bytes past the original).
pub proof fn lemma_b85_round_trip(s: Seq<u8>)
    ensures
        b85_decode(b85_encode(s)).len() >= s.len(),
        b85_decode(b85_encode(s)).take(s.len() as int) == s,
    decreases s.len(),
{
    if s.len() == 0 {
        assert(b85_encode(s) == Seq::<u8>::empty()) by {
            reveal(b85_encode);
        }
        assert(b85_decode(b85_encode(s)).take(0) =~= s);
    } else if s.len() >= 4 {
        lemma_b85_round_trip(s.skip(4));
        if u32_be_value_padded(s) == 0 {
            lemma_b85_round_trip_full_zero(s);
        } else {
            lemma_b85_round_trip_full_nonzero(s);
        }
    } else {
        lemma_b85_round_trip_partial(s);
    }
}

} // verus!
