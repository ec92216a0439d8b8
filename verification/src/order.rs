//! The position/value domain for time-based data: 64-bit IEEE 754 bit
//! patterns, together with the comparison the format's sortedness rule uses.
//!
//! The codec never does floating-point arithmetic; it only carries the 64 bits
//! of each value through the wire format. [`F64Bits`] holds those bits, and
//! the functions here reproduce the IEEE 754 comparison (`==`, `<`) on them
//! with integer arithmetic alone: two values are equal when their bit patterns
//! are equal or both are zeros (positive and negative zero compare equal), a
//! NaN compares neither equal nor less, and otherwise the sign-folded bit
//! pattern orders values exactly as the floating-point order does.

use vstd::prelude::*;

verus! {

/// The bit pattern of a 64-bit IEEE 754 value.
///
/// Convert at the boundary with `f64::to_bits` / `f64::from_bits`.
#[derive(Debug, Clone, Copy, PartialEq, Eq, Structural, Hash, Default)]
pub struct F64Bits {
    /// The raw bits, as `f64::to_bits` gives them.
    pub bits: u64,
}

/// True when the bit pattern encodes a NaN: all exponent bits set and a
/// non-zero fraction.
pub open spec fn f64_is_nan(b: u64) -> bool {
    (b / 0x10_0000_0000_0000) % 0x800 == 0x7FF && b % 0x10_0000_0000_0000 != 0
}

/// True when the bit pattern encodes positive or negative zero: everything
/// but the sign bit clear.
pub open spec fn f64_is_zero(b: u64) -> bool {
    b % 0x8000_0000_0000_0000 == 0
}

/// Folds the sign so that, for bit patterns of non-NaN values, the `u64`
/// order of the keys is the floating-point order of the values (with the
/// one exception of the two zeros, whose keys stay adjacent but distinct).
pub open spec fn f64_order_key(b: u64) -> u64 {
    if b >= 0x8000_0000_0000_0000 {
        (0xFFFF_FFFF_FFFF_FFFF - b) as u64
    } else {
        (b + 0x8000_0000_0000_0000) as u64
    }
}

/// IEEE 754 equality on bit patterns: not NaN, and either the same bits or
/// both zeros.
pub open spec fn f64_eq(a: u64, b: u64) -> bool {
    &&& !f64_is_nan(a)
    &&& !f64_is_nan(b)
    &&& (a == b || (f64_is_zero(a) && f64_is_zero(b)))
}

/// IEEE 754 strict order on bit patterns: no NaN involved, not two zeros,
/// and the sign-folded keys in order.
pub open spec fn f64_lt(a: u64, b: u64) -> bool {
    &&& !f64_is_nan(a)
    &&& !f64_is_nan(b)
    &&& !(f64_is_zero(a) && f64_is_zero(b))
    &&& f64_order_key(a) < f64_order_key(b)
}

impl F64Bits {
    /// Wraps a raw bit pattern.
    pub fn new(bits: u64) -> (r: F64Bits)
        ensures
            r.bits == bits,
    {
        F64Bits { bits }
    }

    /// Whether the two values compare equal as IEEE 754 values.
    pub fn ieee_eq(self, other: F64Bits) -> (r: bool)
        ensures
            r == f64_eq(self.bits, other.bits),
    {
        !self.is_nan() && !other.is_nan() && (self.bits == other.bits || (self.is_zero()
            && other.is_zero()))
    }

    /// Whether `self` is strictly below `other` as IEEE 754 values.
    pub fn ieee_lt(self, other: F64Bits) -> (r: bool)
        ensures
            r == f64_lt(self.bits, other.bits),
    {
        !self.is_nan() && !other.is_nan() && !(self.is_zero() && other.is_zero())
            && self.order_key() < other.order_key()
    }

    /// Whether the bit pattern encodes a NaN.
    pub fn is_nan(self) -> (r: bool)
        ensures
            r == f64_is_nan(self.bits),
    {
        (self.bits / 0x10_0000_0000_0000) % 0x800 == 0x7FF && self.bits % 0x10_0000_0000_0000 != 0
    }

    /// Whether the bit pattern encodes positive or negative zero.
    pub fn is_zero(self) -> (r: bool)
        ensures
            r == f64_is_zero(self.bits),
    {
        self.bits % 0x8000_0000_0000_0000 == 0
    }

    /// The sign-folded ordering key; see [`f64_order_key`].
    pub fn order_key(self) -> (r: u64)
        ensures
            r == f64_order_key(self.bits),
    {
        if self.bits >= 0x8000_0000_0000_0000 {
            0xFFFF_FFFF_FFFF_FFFF - self.bits
        } else {
            self.bits + 0x8000_0000_0000_0000
        }
    }
}

} // verus!
