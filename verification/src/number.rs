//! IEEE 754 numbers by their bit patterns.
//!
//! A program hands the library the bits of a number (`to_bits`), and the library
//! compares numbers without computing with them. A pattern's `key` is its sign and
//! magnitude as one integer: among numbers that are not NaN, keys order as the
//! numbers do, and the two zeros share the key zero.

use vstd::prelude::*;

verus! {

/// The bits of a 64-bit number.
#[derive(Debug, Clone, Copy)]
pub struct Real64 {
    pub bits: u64,
}

/// The bits of a 32-bit number.
#[derive(Debug, Clone, Copy)]
pub struct Real32 {
    pub bits: u32,
}

/// The sign bit of a 64-bit pattern; patterns below it are non-negative.
pub const SIGN64: u64 = 0x8000_0000_0000_0000;

/// The bits of positive infinity in 64 bits; larger magnitudes are NaN.
pub const INFINITY64: u64 = 0x7ff0_0000_0000_0000;

/// The sign bit of a 32-bit pattern.
pub const SIGN32: u32 = 0x8000_0000;

/// The bits of positive infinity in 32 bits.
pub const INFINITY32: u32 = 0x7f80_0000;

/// The bits of 1 in 32 bits.
pub const ONE32: u32 = 0x3f80_0000;

/// The bits of 1 in 64 bits.
pub const ONE64: u64 = 0x3ff0_0000_0000_0000;

/// The bits of 2 in 64 bits.
pub const TWO64: u64 = 0x4000_0000_0000_0000;

/// The bits of -2 in 64 bits.
pub const MINUS_TWO64: u64 = 0xc000_0000_0000_0000;

impl Real64 {
    /// The pattern without its sign.
    pub open spec fn magnitude(self) -> int {
        if self.bits >= SIGN64 {
            self.bits - SIGN64
        } else {
            self.bits as int
        }
    }

    /// The signed magnitude, which orders numbers.
    pub open spec fn key(self) -> int {
        if self.bits >= SIGN64 {
            -self.magnitude()
        } else {
            self.magnitude()
        }
    }

    pub open spec fn nan(self) -> bool {
        self.magnitude() > INFINITY64
    }

    pub open spec fn finite(self) -> bool {
        self.magnitude() < INFINITY64
    }

    /// `self <= other` as numbers; false when either is NaN.
    pub open spec fn le(self, other: Real64) -> bool {
        !self.nan() && !other.nan() && self.key() <= other.key()
    }

    /// `self < other` as numbers; false when either is NaN.
    pub open spec fn lt(self, other: Real64) -> bool {
        !self.nan() && !other.nan() && self.key() < other.key()
    }

    /// `self == other` as numbers; false when either is NaN.
    pub open spec fn same(self, other: Real64) -> bool {
        !self.nan() && !other.nan() && self.key() == other.key()
    }

    /// Rank in the total order in which every pattern has its own place:
    /// negative NaN, negative numbers, -0, +0, positive numbers, positive NaN.
    pub open spec fn total(self) -> int {
        if self.bits >= SIGN64 {
            -self.magnitude() - 1
        } else {
            self.magnitude()
        }
    }

    pub fn total_key(&self) -> (r: i64)
        ensures
            r == self.total(),
    {
        if self.bits >= SIGN64 {
            -((self.bits - SIGN64) as i64) - 1
        } else {
            self.bits as i64
        }
    }

    pub fn is_nan(&self) -> (r: bool)
        ensures
            r == self.nan(),
    {
        let magnitude: u64 = if self.bits >= SIGN64 { self.bits - SIGN64 } else { self.bits };
        magnitude > INFINITY64
    }

    pub fn is_finite(&self) -> (r: bool)
        ensures
            r == self.finite(),
    {
        let magnitude: u64 = if self.bits >= SIGN64 { self.bits - SIGN64 } else { self.bits };
        magnitude < INFINITY64
    }

    /// The order key, for comparisons of numbers that are not NaN.
    pub fn order_key(&self) -> (r: i64)
        ensures
            r == self.key(),
    {
        if self.bits >= SIGN64 {
            -((self.bits - SIGN64) as i64)
        } else {
            self.bits as i64
        }
    }

    pub fn at_most(&self, other: &Real64) -> (r: bool)
        ensures
            r == self.le(*other),
    {
        !self.is_nan() && !other.is_nan() && self.order_key() <= other.order_key()
    }

    pub fn below(&self, other: &Real64) -> (r: bool)
        ensures
            r == self.lt(*other),
    {
        !self.is_nan() && !other.is_nan() && self.order_key() < other.order_key()
    }

    pub fn equals(&self, other: &Real64) -> (r: bool)
        ensures
            r == self.same(*other),
    {
        !self.is_nan() && !other.is_nan() && self.order_key() == other.order_key()
    }
}

impl Real32 {
    /// The pattern without its sign.
    pub open spec fn magnitude(self) -> int {
        if self.bits >= SIGN32 {
            self.bits - SIGN32
        } else {
            self.bits as int
        }
    }

    /// The signed magnitude, which orders numbers.
    pub open spec fn key(self) -> int {
        if self.bits >= SIGN32 {
            -self.magnitude()
        } else {
            self.magnitude()
        }
    }

    pub open spec fn nan(self) -> bool {
        self.magnitude() > INFINITY32
    }

    pub open spec fn finite(self) -> bool {
        self.magnitude() < INFINITY32
    }

    /// `self <= other` as numbers; false when either is NaN.
    pub open spec fn le(self, other: Real32) -> bool {
        !self.nan() && !other.nan() && self.key() <= other.key()
    }

    /// `self < other` as numbers; false when either is NaN.
    pub open spec fn lt(self, other: Real32) -> bool {
        !self.nan() && !other.nan() && self.key() < other.key()
    }

    /// `self == other` as numbers; false when either is NaN.
    pub open spec fn same(self, other: Real32) -> bool {
        !self.nan() && !other.nan() && self.key() == other.key()
    }

    /// Rank in the total order in which every pattern has its own place:
    /// negative NaN, negative numbers, -0, +0, positive numbers, positive NaN.
    pub open spec fn total(self) -> int {
        if self.bits >= SIGN32 {
            -self.magnitude() - 1
        } else {
            self.magnitude()
        }
    }

    pub fn is_nan(&self) -> (r: bool)
        ensures
            r == self.nan(),
    {
        let magnitude: u32 = if self.bits >= SIGN32 { self.bits - SIGN32 } else { self.bits };
        magnitude > INFINITY32
    }

    pub fn is_finite(&self) -> (r: bool)
        ensures
            r == self.finite(),
    {
        let magnitude: u32 = if self.bits >= SIGN32 { self.bits - SIGN32 } else { self.bits };
        magnitude < INFINITY32
    }

    /// The order key, for comparisons of numbers that are not NaN.
    pub fn order_key(&self) -> (r: i64)
        ensures
            r == self.key(),
    {
        if self.bits >= SIGN32 {
            -((self.bits - SIGN32) as i64)
        } else {
            self.bits as i64
        }
    }

    /// The place of the pattern in the total order of all patterns.
    pub fn total_key(&self) -> (r: i64)
        ensures
            r == self.total(),
    {
        if self.bits >= SIGN32 {
            -((self.bits - SIGN32) as i64) - 1
        } else {
            self.bits as i64
        }
    }

    pub fn at_most(&self, other: &Real32) -> (r: bool)
        ensures
            r == self.le(*other),
    {
        !self.is_nan() && !other.is_nan() && self.order_key() <= other.order_key()
    }

    pub fn below(&self, other: &Real32) -> (r: bool)
        ensures
            r == self.lt(*other),
    {
        !self.is_nan() && !other.is_nan() && self.order_key() < other.order_key()
    }

    pub fn equals(&self, other: &Real32) -> (r: bool)
        ensures
            r == self.same(*other),
    {
        !self.is_nan() && !other.is_nan() && self.order_key() == other.order_key()
    }
}

/// Comparison of 64-bit numbers is a strict order in which exactly one of
/// less, equal and greater holds of two numbers that are not NaN.
pub proof fn law_real64_trichotomy(a: Real64, b: Real64)
    requires
        !a.nan(),
        !b.nan(),
    ensures
        a.lt(b) || a.same(b) || b.lt(a),
        a.lt(b) ==> !a.same(b) && !b.lt(a),
        a.le(b) <==> a.lt(b) || a.same(b),
{
}

/// No comparison with a NaN holds.
pub proof fn law_real64_nan_incomparable(a: Real64, b: Real64)
    requires
        a.nan() || b.nan(),
    ensures
        !a.lt(b) && !a.le(b) && !a.same(b),
{
}

/// Patterns of 64 bits stand for numbers as the standard lays them out: without the sign bit a
/// greater pattern is a greater number, with it a smaller one, and every number with the sign
/// bit is at most every one without it; the two zeros are equal.
pub proof fn law_real64_order(a: Real64, b: Real64)
    requires
        !a.nan(),
        !b.nan(),
    ensures
        a.bits < 0x8000_0000_0000_0000 && b.bits < 0x8000_0000_0000_0000 ==> (a.lt(b) <==> a.bits < b.bits),
        a.bits >= 0x8000_0000_0000_0000 && b.bits >= 0x8000_0000_0000_0000 ==> (a.lt(b) <==> a.bits > b.bits),
        a.bits >= 0x8000_0000_0000_0000 && b.bits < 0x8000_0000_0000_0000 ==> a.le(b),
        a.same(b) <==> a.bits == b.bits || (a.bits % 0x8000_0000_0000_0000 == 0 && b.bits % 0x8000_0000_0000_0000 == 0),
{
}

/// A pattern of 64 bits is NaN where its exponent is all ones and its fraction is not zero, and
/// finite where its exponent is not all ones, whatever the sign.
pub proof fn law_real64_classes(a: Real64)
    ensures
        a.nan() <==> a.bits % 0x8000_0000_0000_0000 > 0x7ff0_0000_0000_0000,
        a.finite() <==> a.bits % 0x8000_0000_0000_0000 < 0x7ff0_0000_0000_0000,
{
}

/// The total order of 64-bit patterns refines the order of numbers, tells every two patterns
/// apart, and puts the negative zero below the positive one.
pub proof fn law_real64_total(a: Real64, b: Real64)
    ensures
        a.lt(b) ==> a.total() < b.total(),
        a.total() == b.total() <==> a.bits == b.bits,
        a.bits >= 0x8000_0000_0000_0000 && b.bits < 0x8000_0000_0000_0000 ==> a.total() < b.total(),
        a.nan() && a.bits < 0x8000_0000_0000_0000 && !b.nan() ==> a.total() > b.total(),
        a.nan() && a.bits >= 0x8000_0000_0000_0000 && !b.nan() ==> a.total() < b.total(),
{
}

/// The same of patterns of 32 bits.
pub proof fn law_real32_order(a: Real32, b: Real32)
    requires
        !a.nan(),
        !b.nan(),
    ensures
        a.bits < 0x8000_0000 && b.bits < 0x8000_0000 ==> (a.lt(b) <==> a.bits < b.bits),
        a.bits >= 0x8000_0000 && b.bits >= 0x8000_0000 ==> (a.lt(b) <==> a.bits > b.bits),
        a.bits >= 0x8000_0000 && b.bits < 0x8000_0000 ==> a.le(b),
        a.same(b) <==> a.bits == b.bits || (a.bits % 0x8000_0000 == 0 && b.bits % 0x8000_0000 == 0),
        a.le(b) <==> a.lt(b) || a.same(b),
{
}

pub proof fn law_real32_classes(a: Real32)
    ensures
        a.nan() <==> a.bits % 0x8000_0000 > 0x7f80_0000,
        a.finite() <==> a.bits % 0x8000_0000 < 0x7f80_0000,
{
}

/// No comparison with a 32-bit NaN holds.
pub proof fn law_real32_nan_incomparable(a: Real32, b: Real32)
    requires
        a.nan() || b.nan(),
    ensures
        !a.lt(b) && !a.le(b) && !a.same(b),
{
}

/// The total order of 32-bit patterns refines the order of numbers and tells every two patterns
/// apart.
pub proof fn law_real32_total(a: Real32, b: Real32)
    ensures
        a.lt(b) ==> a.total() < b.total(),
        a.total() == b.total() <==> a.bits == b.bits,
        a.bits >= 0x8000_0000 && b.bits < 0x8000_0000 ==> a.total() < b.total(),
        a.nan() && a.bits < 0x8000_0000 && !b.nan() ==> a.total() > b.total(),
        a.nan() && a.bits >= 0x8000_0000 && !b.nan() ==> a.total() < b.total(),
{
}

} // verus!
