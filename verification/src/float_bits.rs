//! Floating-point values by their IEEE 754 bits.
//!
//! The library carries such values, compares them and tests their range. It does no arithmetic
//! on them.

use vstd::prelude::*;

verus! {

/// A value of the type `binary32`, by its bits.
#[derive(Clone, Copy, Debug, PartialEq, Eq, Structural)]
pub struct Float32 {
    pub bits: u32,
}

/// A value of the type `binary64`, by its bits.
#[derive(Clone, Copy, Debug, PartialEq, Eq, Structural)]
pub struct Float64 {
    pub bits: u64,
}

/// The bits of 1.0.
pub const ONE_BITS: u32 = 0x3f80_0000;

/// The bits of negative zero.
pub const NEGATIVE_ZERO_BITS: u32 = 0x8000_0000;

/// The bits of positive infinity.
pub const INFINITY_BITS: u32 = 0x7f80_0000;

impl Float32 {
    /// The bits without the sign.
    pub open spec fn magnitude(self) -> u32 {
        if self.bits >= NEGATIVE_ZERO_BITS {
            (self.bits - NEGATIVE_ZERO_BITS) as u32
        } else {
            self.bits
        }
    }

    pub open spec fn is_number(self) -> bool {
        self.magnitude() <= INFINITY_BITS
    }

    /// The value lies in the closed range from 0 to 1. The bits of numbers without sign grow
    /// with the number, and negative zero equals zero.
    pub open spec fn in_unit_range(self) -> bool {
        self.bits <= ONE_BITS || self.bits == NEGATIVE_ZERO_BITS
    }

    /// The value is greater than 0.
    pub open spec fn positive(self) -> bool {
        0 < self.bits <= INFINITY_BITS
    }

    /// The two values compare as equal: zeros do whatever their signs, and what is no number
    /// equals nothing.
    pub open spec fn same_value(self, other: Float32) -> bool {
        &&& self.is_number()
        &&& other.is_number()
        &&& self.bits == other.bits || (self.magnitude() == 0 && other.magnitude() == 0)
    }

    pub fn zero() -> (r: Float32)
        ensures
            r.bits == 0,
    {
        Float32 { bits: 0 }
    }

    fn unsigned_bits(self) -> (r: u32)
        ensures
            r == self.magnitude(),
    {
        if self.bits >= NEGATIVE_ZERO_BITS {
            self.bits - NEGATIVE_ZERO_BITS
        } else {
            self.bits
        }
    }

    pub fn is_in_unit_range(self) -> (r: bool)
        ensures
            r == self.in_unit_range(),
    {
        self.bits <= ONE_BITS || self.bits == NEGATIVE_ZERO_BITS
    }

    pub fn is_positive(self) -> (r: bool)
        ensures
            r == self.positive(),
    {
        0 < self.bits && self.bits <= INFINITY_BITS
    }

    pub fn equals(self, other: Float32) -> (r: bool)
        ensures
            r == self.same_value(other),
    {
        let a: u32 = self.unsigned_bits();
        let b: u32 = other.unsigned_bits();
        a <= INFINITY_BITS && b <= INFINITY_BITS && (self.bits == other.bits || (a == 0 && b == 0))
    }
}

/// Values in the range from 0 to 1 are numbers, and each equals itself.
pub proof fn unit_range_compares(a: Float32)
    requires
        a.in_unit_range(),
    ensures
        a.same_value(a),
{
}

/// Comparing as equal carries over from one pair to the next.
pub proof fn same_value_is_transitive(a: Float32, b: Float32, c: Float32)
    requires
        a.same_value(b),
        b.same_value(c),
    ensures
        a.same_value(c),
        b.same_value(a),
{
}

impl Float64 {
    pub fn zero() -> (r: Float64)
        ensures
            r.bits == 0,
    {
        Float64 { bits: 0 }
    }
}

/// Progress lies between 0 and 1, both included: the values from positive zero to one by their
/// bits, and negative zero.
pub proof fn unit_range_by_bits(a: Float32)
    ensures
        a.in_unit_range() == (a.bits <= 0x3f80_0000 || a.bits == 0x8000_0000),
        a.positive() == (1 <= a.bits <= 0x7f80_0000),
{
}

/// Two numbers compare as equal if they have the same bits or are both zero; numbers of different
/// bits that are not both zero do not, and what is no number equals nothing.
pub proof fn equality_by_bits(a: Float32, b: Float32)
    ensures
        a.bits <= 0x7f80_0000 && a.bits == b.bits ==> a.same_value(b),
        0x8000_0000 <= a.bits <= 0xff80_0000 && a.bits == b.bits ==> a.same_value(b),
        (a.bits == 0 || a.bits == 0x8000_0000) && (b.bits == 0 || b.bits == 0x8000_0000)
            ==> a.same_value(b),
        a.bits != b.bits && !(a.bits == 0 && b.bits == 0x8000_0000) && !(a.bits == 0x8000_0000
            && b.bits == 0) ==> !a.same_value(b),
        0x7f80_0000 < a.bits < 0x8000_0000 || a.bits > 0xff80_0000 ==> !a.same_value(b)
            && !b.same_value(a),
{
}

}
