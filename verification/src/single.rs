//! IEEE-754 single-precision numbers, held by their bit pattern.
//!
//! The decisions this library makes about a number (is a switch on, is a level neutral, which of
//! two readings is louder) only need its order, and the order of two singles can be read off their
//! bits with integer arithmetic. Arithmetic on samples is the shell's.

use vstd::prelude::*;

verus! {

/// The magnitude of positive infinity; every pattern above it is not a number.
pub const INFINITY_MAGNITUDE: u32 = 0x7F80_0000;

/// The first bit pattern with the sign bit set.
pub const SIGN_BIT: u32 = 0x8000_0000;

/// One half.
pub const HALF_BITS: u32 = 0x3F00_0000;

/// A single-precision number, by its bit pattern.
#[derive(Debug, Clone, Copy, PartialEq, Eq, Structural)]
pub struct Single {
    pub bits: u32,
}

impl Single {
    /// The pattern without its sign.
    pub open spec fn magnitude(self) -> int {
        if self.bits >= SIGN_BIT {
            self.bits - SIGN_BIT
        } else {
            self.bits as int
        }
    }

    pub open spec fn is_nan(self) -> bool {
        self.magnitude() > INFINITY_MAGNITUDE
    }

    /// Where this number stands among the numbers: of two singles that are numbers, the one with
    /// the smaller rank is the smaller number, and the two zeros share a rank.
    pub open spec fn rank(self) -> int {
        if self.bits >= SIGN_BIT {
            -self.magnitude()
        } else {
            self.magnitude()
        }
    }

    /// Both are numbers and this one is the smaller.
    pub open spec fn below(self, other: Single) -> bool {
        !self.is_nan() && !other.is_nan() && self.rank() < other.rank()
    }

    /// The louder of two readings: a reading that is not a number gives way to the other one.
    pub open spec fn louder(self, other: Single) -> Single {
        if self.is_nan() || self.below(other) {
            other
        } else {
            self
        }
    }

    /// Both are numbers and they are equal; the two zeros are.
    pub open spec fn same_number(self, other: Single) -> bool {
        !self.is_nan() && !other.is_nan() && self.rank() == other.rank()
    }

    /// A switch is on from one half upward; a value that is not a number leaves it off.
    pub open spec fn means_on(self) -> bool {
        !self.is_nan() && self.rank() >= HALF_BITS
    }

    pub open spec fn is_zero_number(self) -> bool {
        self.magnitude() == 0
    }

    /// The number at the nearer end of the range, or this number where it lies inside it.
    pub open spec fn held_within(self, min: Single, max: Single) -> Single {
        if self.below(min) {
            min
        } else if max.below(self) {
            max
        } else {
            self
        }
    }

    #[verifier::allow_in_spec]
    pub fn from_bits(bits: u32) -> Single
        returns
            (Single { bits }),
    {
        Single { bits }
    }

    #[verifier::allow_in_spec]
    pub fn zero() -> Single
        returns
            (Single { bits: 0 }),
    {
        Single { bits: 0 }
    }

    #[verifier::allow_in_spec]
    pub fn one() -> Single
        returns
            (Single { bits: 0x3F80_0000 }),
    {
        Single { bits: 0x3F80_0000 }
    }

    /// Negative infinity: the decibel reading of silence.
    #[verifier::allow_in_spec]
    pub fn silence() -> Single
        returns
            (Single { bits: 0xFF80_0000 }),
    {
        Single { bits: 0xFF80_0000 }
    }

    /// `1.0` for a switch that is on, `0.0` for one that is off.
    #[verifier::allow_in_spec]
    pub fn switch(on: bool) -> Single
        returns
            (if on {
                Single::one()
            } else {
                Single::zero()
            }),
    {
        if on {
            Single::one()
        } else {
            Single::zero()
        }
    }

    fn signless(self) -> (m: u32)
        ensures
            m == self.magnitude(),
    {
        if self.bits >= SIGN_BIT {
            self.bits - SIGN_BIT
        } else {
            self.bits
        }
    }

    pub fn not_a_number(self) -> (r: bool)
        ensures
            r == self.is_nan(),
    {
        self.signless() > INFINITY_MAGNITUDE
    }

    pub fn is_finite(self) -> (r: bool)
        ensures
            r == (self.magnitude() < INFINITY_MAGNITUDE),
    {
        self.signless() < INFINITY_MAGNITUDE
    }

    /// `self < other`.
    pub fn less_than(self, other: Single) -> (r: bool)
        ensures
            r == self.below(other),
    {
        if self.not_a_number() || other.not_a_number() {
            return false;
        }
        let a: u32 = self.signless();
        let b: u32 = other.signless();
        if self.bits >= SIGN_BIT {
            if other.bits >= SIGN_BIT {
                b < a
            } else {
                a > 0 || b > 0
            }
        } else if other.bits >= SIGN_BIT {
            false
        } else {
            a < b
        }
    }

    /// `self == other`.
    pub fn equals(self, other: Single) -> (r: bool)
        ensures
            r == self.same_number(other),
    {
        if self.not_a_number() || other.not_a_number() {
            return false;
        }
        self.bits == other.bits || (self.signless() == 0 && other.signless() == 0)
    }

    pub fn max(self, other: Single) -> (r: Single)
        ensures
            r == self.louder(other),
    {
        if self.not_a_number() || self.less_than(other) {
            other
        } else {
            self
        }
    }

    pub fn clamp(self, min: Single, max: Single) -> (r: Single)
        ensures
            r == self.held_within(min, max),
    {
        if self.less_than(min) {
            min
        } else if max.less_than(self) {
            max
        } else {
            self
        }
    }

    /// `self >= 0.5`.
    pub fn is_on(self) -> (r: bool)
        ensures
            r == self.means_on(),
    {
        self.bits >= HALF_BITS && self.bits <= INFINITY_MAGNITUDE
    }

    /// `self == 0.0`, which holds of both zeros.
    pub fn is_zero(self) -> (r: bool)
        ensures
            r == self.is_zero_number(),
    {
        self.signless() == 0
    }
}

/// The louder of two readings is no softer than either, and is one of them.
pub proof fn lemma_louder_is_an_upper_bound(a: Single, b: Single)
    ensures
        a.louder(b) == a || a.louder(b) == b,
        !a.louder(b).below(a),
        !a.louder(b).below(b),
{
}

/// A number held within an ordered range lies in it.
pub proof fn lemma_clamp_stays_in_range(v: Single, min: Single, max: Single)
    requires
        !v.is_nan(),
        min.below(max),
    ensures
        min.rank() <= v.held_within(min, max).rank() <= max.rank(),
{
}

/// A number that lies in an ordered range is held as it is, one below it at the lower end and one
/// above it at the upper; holding it once more changes nothing. What is no number stays what it is.
pub proof fn lemma_a_number_in_range_is_kept(v: Single, min: Single, max: Single)
    requires
        min.below(max),
    ensures
        v.is_nan() ==> v.held_within(min, max) == v,
        !v.is_nan() && min.rank() <= v.rank() <= max.rank() ==> v.held_within(min, max) == v,
        !v.is_nan() && v.rank() < min.rank() ==> v.held_within(min, max) == min,
        !v.is_nan() && v.rank() > max.rank() ==> v.held_within(min, max) == max,
        v.held_within(min, max).held_within(min, max) == v.held_within(min, max),
{
}

/// A switch reads back as it was set; anything from one half upward is on, and what lies below it,
/// or is no number, is off.
pub proof fn lemma_a_switch_reads_back(on: bool, v: Single, higher: Single)
    ensures
        Single::switch(on).means_on() == on,
        Single::one().rank() > Single::zero().rank(),
        v.means_on() <==> !v.is_nan() && !v.below(Single { bits: 0x3F00_0000 }),
        v.means_on() && v.below(higher) ==> higher.means_on(),
        v.is_nan() ==> !v.means_on(),
        v.bits >= 0x8000_0000 ==> !v.means_on(),
{
}

/// The numbers are ordered: of two that are not equal exactly one is below the other, being below
/// carries over, and what has the sign bit set is below what has not, but that the two zeros are
/// equal. What is no number is neither below nor equal to anything.
pub proof fn lemma_numbers_are_ordered(a: Single, b: Single, c: Single)
    ensures
        !a.below(a),
        a.below(b) ==> !b.below(a) && !a.same_number(b),
        a.below(b) && b.below(c) ==> a.below(c),
        !a.is_nan() && !b.is_nan() ==> a.below(b) || b.below(a) || a.same_number(b),
        a.same_number(b) ==> b.same_number(a),
        a.same_number(b) && b.same_number(c) ==> a.same_number(c),
        a.is_nan() ==> !a.below(b) && !b.below(a) && !a.same_number(a),
        !a.is_nan() ==> a.same_number(a),
        (Single { bits: 0x8000_0000 }).same_number(Single::zero()),
        !a.is_nan() && !b.is_nan() && a.bits >= 0x8000_0000 && 0 < b.bits < 0x8000_0000 ==> a.below(
            b,
        ),
        a.bits < b.bits <= 0x7F80_0000 ==> a.below(b),
        0x8000_0000 <= a.bits < b.bits <= 0xFF80_0000 ==> b.below(a),
        !b.is_nan() && b.bits != 0xFF80_0000 ==> Single::silence().below(b),
        a.is_zero_number() == a.same_number(Single::zero()),
{
}

} // verus!
