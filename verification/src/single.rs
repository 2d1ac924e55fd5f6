//! Single-precision numbers, carried by their IEEE 754 bit patterns.
//!
//! Colours, depths and varyings are singles. The library stores them, moves them and
//! compares them; the arithmetic on them happens where they are made.

use vstd::prelude::*;

verus! {

/// The bit pattern of 1.0.
pub const ONE_BITS: u32 = 0x3f80_0000;

/// The bit pattern of the single nearest to 0.02.
pub const OPAQUE_FROM_BITS: u32 = 0x3ca3_d70a;

/// The bit pattern of the machine epsilon, two to the power minus twenty-three.
pub const EPSILON_BITS: u32 = 0x3400_0000;

/// The bit pattern of the single nearest to minus one millionth.
pub const MINUS_MILLIONTH_BITS: u32 = 0xb586_37bd;

/// The sign bit.
pub const SIGN_BIT: u32 = 0x8000_0000;

/// The bit pattern of positive infinity; every greater magnitude is a NaN.
pub const INFINITY_BITS: u32 = 0x7f80_0000;

/// A single by its bit pattern.
#[derive(Clone, Copy, Debug, PartialEq, Eq, Structural)]
pub struct F32 {
    pub bits: u32,
}

/// A colour with premultiplied alpha.
#[derive(Clone, Copy, Debug, PartialEq, Eq, Structural)]
pub struct Rgba {
    pub r: F32,
    pub g: F32,
    pub b: F32,
    pub a: F32,
}

/// The single with the bit pattern `bits`.
pub open spec fn of_bits(bits: u32) -> F32 {
    F32 { bits }
}

/// The colour without light or coverage: four zeros.
pub open spec fn clear_colour() -> Rgba {
    Rgba { r: of_bits(0), g: of_bits(0), b: of_bits(0), a: of_bits(0) }
}

impl F32 {
    /// The bits without the sign.
    pub open spec fn magnitude(self) -> int {
        if self.bits >= SIGN_BIT {
            self.bits - SIGN_BIT
        } else {
            self.bits as int
        }
    }

    pub open spec fn nan(self) -> bool {
        self.magnitude() > INFINITY_BITS
    }

    /// Where the value stands in the order of all values that are not NaN.
    /// Both zeros stand at 0.
    pub open spec fn rank(self) -> int {
        if self.bits >= SIGN_BIT {
            -self.magnitude()
        } else {
            self.magnitude()
        }
    }

    /// `self > other`, which NaN never meets.
    pub open spec fn gt(self, other: F32) -> bool {
        !self.nan() && !other.nan() && self.rank() > other.rank()
    }

    /// `self.abs() <= other.abs()`, which NaN never meets.
    pub open spec fn within(self, other: F32) -> bool {
        !self.nan() && !other.nan() && self.magnitude() <= other.magnitude()
    }

    pub fn is_nan(self) -> (r: bool)
        ensures
            r == self.nan(),
    {
        self.magnitude_bits() > INFINITY_BITS
    }

    fn magnitude_bits(self) -> (r: u32)
        ensures
            r == self.magnitude(),
    {
        if self.bits >= SIGN_BIT {
            self.bits - SIGN_BIT
        } else {
            self.bits
        }
    }

    /// `self > other`.
    pub fn exceeds(self, other: F32) -> (r: bool)
        ensures
            r == self.gt(other),
    {
        if self.is_nan() || other.is_nan() {
            return false;
        }
        if self.bits >= SIGN_BIT {
            other.bits >= SIGN_BIT && self.bits < other.bits
        } else if other.bits >= SIGN_BIT {
            self.bits > 0 || other.bits > SIGN_BIT
        } else {
            self.bits > other.bits
        }
    }

    /// `self.abs() <= other.abs()`.
    pub fn is_within(self, other: F32) -> (r: bool)
        ensures
            r == self.within(other),
    {
        !self.is_nan() && !other.is_nan() && self.magnitude_bits() <= other.magnitude_bits()
    }
}

/// Positive singles stand in the order of their bit patterns, negative ones in the opposite
/// order and below them, and the two zeros are level. A NaN exceeds nothing and is exceeded
/// by nothing.
pub proof fn law_singles_are_ordered_by_value(a: F32, b: F32)
    ensures
        a.bits <= 0x7f80_0000 && b.bits <= 0x7f80_0000 ==> (a.gt(b) <==> a.bits > b.bits),
        0x8000_0000 <= a.bits <= 0xff80_0000 && 0x8000_0000 <= b.bits <= 0xff80_0000 ==> (a.gt(b)
            <==> a.bits < b.bits),
        a.bits <= 0x7f80_0000 && 0x8000_0000 <= b.bits <= 0xff80_0000 ==> !b.gt(a) && (a.gt(b)
            <==> a.bits > 0 || b.bits > 0x8000_0000),
        0x7f80_0000 < a.bits < 0x8000_0000 || a.bits > 0xff80_0000 ==> !a.gt(b) && !b.gt(a),
{
}

/// A single lies within another exactly if it does so with either sign, and numbers are
/// told apart: of two of them, one lies within the other, and both do only if they are
/// equal but for their signs. A NaN lies within nothing.
pub proof fn law_within_ignores_the_sign(a: F32, b: F32, negated: F32)
    requires
        negated.bits == a.bits + 0x8000_0000 || a.bits == negated.bits + 0x8000_0000,
    ensures
        a.within(b) == negated.within(b),
        b.within(a) == b.within(negated),
        a.bits <= 0x7f80_0000 && b.bits <= 0x7f80_0000 ==> (a.within(b) <==> a.bits <= b.bits),
        0x7f80_0000 < a.bits < 0x8000_0000 || a.bits > 0xff80_0000 ==> !a.within(b) && !b.within(a),
{
}

/// The calls compare singles as numbers: by their bit patterns, and for negative ones the
/// other way round.
pub proof fn law_calls_compare_singles_by_value(a: F32, b: F32, more: bool, within: bool, nan: bool)
    requires
        call_ensures(F32::exceeds, (a, b), more),
        call_ensures(F32::is_within, (a, b), within),
        call_ensures(F32::is_nan, (a,), nan),
    ensures
        nan <==> 0x7f80_0000 < a.bits < 0x8000_0000 || a.bits > 0xff80_0000,
        nan ==> !more && !within,
        a.bits <= 0x7f80_0000 && b.bits <= 0x7f80_0000 ==> (more <==> a.bits > b.bits),
        0x8000_0000 <= a.bits <= 0xff80_0000 && 0x8000_0000 <= b.bits <= 0xff80_0000 ==> (more
            <==> a.bits < b.bits),
        a.bits <= 0x7f80_0000 && 0x8000_0000 <= b.bits <= 0xff80_0000 ==> (more <==> a.bits > 0
            || b.bits > 0x8000_0000),
        0x8000_0000 <= a.bits <= 0xff80_0000 && b.bits <= 0x7f80_0000 ==> !more,
        a.bits <= 0x7f80_0000 && b.bits <= 0x7f80_0000 ==> (within <==> a.bits <= b.bits),
        0x8000_0000 <= a.bits <= 0xff80_0000 && b.bits <= 0x7f80_0000 ==> (within <==> a.bits
            - 0x8000_0000 <= b.bits),
{
}

} // verus!
