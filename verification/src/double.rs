//! Double-precision numbers, carried by their IEEE 754 bit patterns.
//!
//! Sizes, positions and scale factors reach the library as doubles. What it does
//! with them is compare them with one another and turn them into pixel counts, and
//! both can be read off the bits: among numbers that are not NaN, the order of the
//! values is the order of sign and magnitude.

use vstd::arithmetic::power2::pow2;
use vstd::prelude::*;

verus! {

/// The bit pattern of 1.0.
pub const ONE_BITS: u64 = 0x3ff0_0000_0000_0000;

/// The bit pattern of 2.0.
pub const TWO_BITS: u64 = 0x4000_0000_0000_0000;

/// The bit pattern of 5.0.
pub const FIVE_BITS: u64 = 0x4014_0000_0000_0000;

/// The bit pattern of 220.0.
pub const N220_BITS: u64 = 0x406b_8000_0000_0000;

/// The bit pattern of 420.0.
pub const N420_BITS: u64 = 0x407a_4000_0000_0000;

/// The bit pattern of 480.0.
pub const N480_BITS: u64 = 0x407e_0000_0000_0000;

/// The bit pattern of 640.0.
pub const N640_BITS: u64 = 0x4084_0000_0000_0000;

/// The bit pattern of 860.0.
pub const N860_BITS: u64 = 0x408a_e000_0000_0000;

/// The bit pattern of 1080.0.
pub const N1080_BITS: u64 = 0x4090_e000_0000_0000;

/// The bit pattern of 1920.0.
pub const N1920_BITS: u64 = 0x409e_0000_0000_0000;

/// The sign bit.
pub const SIGN_BIT: u64 = 0x8000_0000_0000_0000;

/// The bit pattern of positive infinity; every greater magnitude is a NaN.
pub const INFINITY_BITS: u64 = 0x7ff0_0000_0000_0000;

/// The weight of the lowest exponent bit: two to the power fifty-two.
pub const MANTISSA_SPAN: u64 = 0x0010_0000_0000_0000;

/// A double by its bit pattern.
#[derive(Clone, Copy, Debug, PartialEq, Eq, Structural)]
pub struct F64 {
    pub bits: u64,
}

/// A pair of doubles: a position or a size.
#[derive(Clone, Copy, Debug, PartialEq, Eq, Structural)]
pub struct Vec2d {
    pub x: F64,
    pub y: F64,
}

/// The double with the bit pattern `bits`.
pub open spec fn of_bits(bits: u64) -> F64 {
    F64 { bits }
}

/// The pair of doubles with these bit patterns.
pub open spec fn vec_of_bits(x: u64, y: u64) -> Vec2d {
    Vec2d { x: F64 { bits: x }, y: F64 { bits: y } }
}

impl F64 {
    /// The bits without the sign.
    pub open spec fn magnitude(self) -> int {
        if self.bits >= SIGN_BIT {
            self.bits - SIGN_BIT
        } else {
            self.bits as int
        }
    }

    pub open spec fn nan(self) -> bool {
        self.magnitude() > INFINITY_BITS
    }

    /// Where the value stands in the order of all values that are not NaN.
    /// Both zeros stand at 0.
    pub open spec fn rank(self) -> int {
        if self.bits >= SIGN_BIT {
            -self.magnitude()
        } else {
            self.magnitude()
        }
    }

    /// `self >= other`, which NaN never meets.
    pub open spec fn ge(self, other: F64) -> bool {
        !self.nan() && !other.nan() && self.rank() >= other.rank()
    }

    /// `self > 0`.
    pub open spec fn positive(self) -> bool {
        !self.nan() && self.rank() > 0
    }

    /// `self <= 0`.
    pub open spec fn not_positive(self) -> bool {
        !self.nan() && self.rank() <= 0
    }

    /// `self == 0`.
    pub open spec fn zero(self) -> bool {
        self.magnitude() == 0
    }

    /// The whole part of a value from 1.0 up to, not including, two to the power
    /// thirty-two. Its exponent is `magnitude / MANTISSA_SPAN - 1023`.
    pub open spec fn whole_part(self) -> int {
        let exponent = self.magnitude() / (MANTISSA_SPAN as int) - 1023;
        let mantissa = MANTISSA_SPAN + self.magnitude() % (MANTISSA_SPAN as int);
        mantissa / (pow2((52 - exponent) as nat) as int)
    }

    /// The number of pixels a length covers: its whole part, at least 1 and at most
    /// `u32::MAX`. NaN covers one pixel.
    pub open spec fn pixels(self) -> u32 {
        if !self.ge(of_bits(ONE_BITS)) {
            1
        } else if self.magnitude() / (MANTISSA_SPAN as int) - 1023 >= 32 {
            u32::MAX
        } else {
            self.whole_part() as u32
        }
    }

    pub fn is_nan(self) -> (r: bool)
        ensures
            r == self.nan(),
    {
        let m: u64 = if self.bits >= SIGN_BIT {
            self.bits - SIGN_BIT
        } else {
            self.bits
        };
        m > INFINITY_BITS
    }

    pub fn is_at_least(self, other: F64) -> (r: bool)
        ensures
            r == self.ge(other),
    {
        if self.is_nan() || other.is_nan() {
            return false;
        }
        if self.bits >= SIGN_BIT {
            if other.bits >= SIGN_BIT {
                self.bits <= other.bits
            } else {
                self.bits == SIGN_BIT && other.bits == 0
            }
        } else {
            if other.bits >= SIGN_BIT {
                true
            } else {
                self.bits >= other.bits
            }
        }
    }

    pub fn is_positive(self) -> (r: bool)
        ensures
            r == self.positive(),
    {
        !self.is_nan() && self.bits < SIGN_BIT && self.bits > 0
    }

    pub fn is_not_positive(self) -> (r: bool)
        ensures
            r == self.not_positive(),
    {
        !self.is_nan() && (self.bits >= SIGN_BIT || self.bits == 0)
    }

    pub fn is_zero(self) -> (r: bool)
        ensures
            r == self.zero(),
    {
        self.bits == 0 || self.bits == SIGN_BIT
    }

    /// The number of pixels the length covers.
    pub fn to_pixels(self) -> (r: u32)
        ensures
            r == self.pixels(),
            r >= 1,
    {
        if !self.is_at_least(F64 { bits: ONE_BITS }) {
            return 1;
        }
        let biased: u64 = self.bits / MANTISSA_SPAN;
        assert(biased >= 1023);
        let exponent: u64 = biased - 1023;
        if exponent >= 32 {
            return u32::MAX;
        }
        let mantissa: u64 = MANTISSA_SPAN + self.bits % MANTISSA_SPAN;
        let shift: u64 = 52 - exponent;
        let whole: u64 = mantissa >> shift;
        proof {
            vstd::bits::lemma_u64_shr_is_div(mantissa, shift);
            assert(whole == self.whole_part());
            assert(MANTISSA_SPAN <= mantissa < 2 * MANTISSA_SPAN);
            assert(1 <= whole < 0x1_0000_0000) by (bit_vector)
                requires
                    whole == mantissa >> shift,
                    20 < shift <= 52,
                    0x0010_0000_0000_0000u64 <= mantissa < 0x0020_0000_0000_0000u64,
            ;
        }
        whole as u32
    }
}

/// Positive doubles stand in the order of their bit patterns, negative ones in the opposite
/// order and below them, and the two zeros are level. A NaN is at least nothing, and nothing
/// is at least a NaN.
pub proof fn law_doubles_are_ordered_by_value(a: F64, b: F64)
    ensures
        a.bits <= 0x7ff0_0000_0000_0000 && b.bits <= 0x7ff0_0000_0000_0000 ==> (a.ge(b) <==> a.bits
            >= b.bits),
        0x8000_0000_0000_0000 <= a.bits <= 0xfff0_0000_0000_0000 && 0x8000_0000_0000_0000 <= b.bits
            <= 0xfff0_0000_0000_0000 ==> (a.ge(b) <==> a.bits <= b.bits),
        a.bits <= 0x7ff0_0000_0000_0000 && 0x8000_0000_0000_0000 <= b.bits
            <= 0xfff0_0000_0000_0000 ==> a.ge(b) && (b.ge(a) <==> a.bits == 0 && b.bits
            == 0x8000_0000_0000_0000),
        0x7ff0_0000_0000_0000 < a.bits < 0x8000_0000_0000_0000 || a.bits > 0xfff0_0000_0000_0000
            ==> !a.ge(b) && !b.ge(a),
{
}

/// A double is positive, or not positive, or a NaN; the two zeros are not positive, and they
/// alone are zero.
pub proof fn law_signs_are_told_apart(a: F64)
    ensures
        a.positive() <==> 0 < a.bits <= 0x7ff0_0000_0000_0000,
        a.not_positive() <==> a.bits == 0 || 0x8000_0000_0000_0000 <= a.bits
            <= 0xfff0_0000_0000_0000,
        a.zero() <==> a.bits == 0 || a.bits == 0x8000_0000_0000_0000,
{
}

/// A length covers as many pixels as there are whole ones in it, but never none and never
/// more than can be counted: below one, and where it is no number, it covers one. A length
/// is `mantissa` times two to the power `exponent - 52`.
pub proof fn law_pixels_are_the_whole_part(a: F64, exponent: nat, mantissa: int)
    ensures
        a.bits < 0x3ff0_0000_0000_0000 || a.bits > 0x7ff0_0000_0000_0000 ==> a.pixels() == 1,
        0x41f0_0000_0000_0000 <= a.bits <= 0x7ff0_0000_0000_0000 ==> a.pixels() == 0xffff_ffff,
        exponent < 32 && 0 <= mantissa - 0x10_0000_0000_0000 < 0x10_0000_0000_0000 && a.bits == (
        exponent + 1023) * 0x10_0000_0000_0000 + mantissa - 0x10_0000_0000_0000 ==> a.pixels()
            * pow2((52 - exponent) as nat) <= mantissa < (a.pixels() + 1) * pow2(
            (52 - exponent) as nat,
        ),
{
    let m = mantissa - 0x10_0000_0000_0000;
    if exponent < 32 && 0 <= m < 0x10_0000_0000_0000 && a.bits == (exponent + 1023)
        * 0x10_0000_0000_0000 + m {
        vstd::arithmetic::div_mod::lemma_fundamental_div_mod_converse(
            a.bits as int,
            0x10_0000_0000_0000,
            exponent as int + 1023,
            m,
        );
        let unit = pow2((52 - exponent) as nat) as int;
        vstd::arithmetic::power2::lemma_pow2_pos((52 - exponent) as nat);
        assert(a.bits >= ONE_BITS);
        assert(a.whole_part() == mantissa / unit);
        if exponent < 31 {
            vstd::arithmetic::power2::lemma_pow2_strictly_increases(21, (52 - exponent) as nat);
        }
        assert(pow2(21) == 0x20_0000) by {
            vstd::arithmetic::power2::lemma2_to64();
        }
        vstd::arithmetic::div_mod::lemma_fundamental_div_mod(mantissa, unit);
        let q = mantissa / unit;
        let r = mantissa % unit;
        assert(q * unit <= mantissa < (q + 1) * unit) by (nonlinear_arith)
            requires
                mantissa == unit * q + r,
                0 <= r < unit,
        ;
        assert(0 <= q) by (nonlinear_arith)
            requires
                mantissa < (q + 1) * unit,
                0 < mantissa,
                unit > 0,
        ;
        assert(q <= 0xffff_ffff) by (nonlinear_arith)
            requires
                q * unit <= mantissa,
                unit >= 0x20_0000,
                mantissa < 0x20_0000_0000_0000,
        ;
    }
}

/// The calls judge doubles by their values: which is at least which, which are positive, zero
/// or no number at all, and how many pixels a length covers.
pub proof fn law_calls_judge_doubles_by_value(
    a: F64,
    b: F64,
    at_least: bool,
    positive: bool,
    not_positive: bool,
    zero: bool,
    nan: bool,
    pixels: u32,
)
    requires
        call_ensures(F64::is_at_least, (a, b), at_least),
        call_ensures(F64::is_positive, (a,), positive),
        call_ensures(F64::is_not_positive, (a,), not_positive),
        call_ensures(F64::is_zero, (a,), zero),
        call_ensures(F64::is_nan, (a,), nan),
        call_ensures(F64::to_pixels, (a,), pixels),
    ensures
        nan <==> 0x7ff0_0000_0000_0000 < a.bits < 0x8000_0000_0000_0000 || a.bits
            > 0xfff0_0000_0000_0000,
        nan ==> !at_least && !positive && !not_positive && !zero && pixels == 1,
        positive <==> 0 < a.bits <= 0x7ff0_0000_0000_0000,
        not_positive <==> a.bits == 0 || 0x8000_0000_0000_0000 <= a.bits <= 0xfff0_0000_0000_0000,
        zero <==> a.bits == 0 || a.bits == 0x8000_0000_0000_0000,
        a.bits <= 0x7ff0_0000_0000_0000 && b.bits <= 0x7ff0_0000_0000_0000 ==> (at_least
            <==> a.bits >= b.bits),
        0x8000_0000_0000_0000 <= a.bits <= 0xfff0_0000_0000_0000 && 0x8000_0000_0000_0000 <= b.bits
            <= 0xfff0_0000_0000_0000 ==> (at_least <==> a.bits <= b.bits),
        a.bits <= 0x7ff0_0000_0000_0000 && 0x8000_0000_0000_0000 <= b.bits
            <= 0xfff0_0000_0000_0000 ==> at_least,
        not_positive || a.bits < 0x3ff0_0000_0000_0000 ==> pixels == 1,
        0x41f0_0000_0000_0000 <= a.bits <= 0x7ff0_0000_0000_0000 ==> pixels == 0xffff_ffff,
        pixels == a.pixels(),
{
    law_pixels_are_the_whole_part(a, 0, 0);
}

} // verus!
