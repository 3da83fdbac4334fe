//! Temperatures, carried as the bit patterns of IEEE 754 double precision numbers.
//!
//! The library keeps temperatures and puts them in order. Sums and differences of them are
//! the caller's to compute.

use vstd::prelude::*;

verus! {

/// The bit that makes a number negative.
pub const SIGN: u64 = 0x8000_0000_0000_0000;

/// The bits of infinity. Greater magnitudes stand for no number.
pub const INFINITE: u64 = 0x7ff0_0000_0000_0000;

/// A temperature, or a difference of temperatures, in degrees.
#[derive(Debug, Clone, Copy, PartialEq, Eq, Structural)]
pub struct Degrees {
    /// The bits of the double precision number.
    pub bits: u64,
}

impl Degrees {
    /// The bits without the sign.
    pub open spec fn magnitude(self) -> int {
        if self.bits >= SIGN {
            self.bits - SIGN
        } else {
            self.bits as int
        }
    }

    /// Whether the bits stand for a number at all.
    pub open spec fn is_number(self) -> bool {
        self.magnitude() <= INFINITE
    }

    /// An integer by which numbers are ordered. The two zeros share one.
    pub open spec fn rank(self) -> int {
        if self.bits >= SIGN {
            -self.magnitude()
        } else {
            self.magnitude()
        }
    }

    /// `self` is less than `other`. Of what is no number, nothing is less or greater.
    pub open spec fn below(self, other: Degrees) -> bool {
        self.is_number() && other.is_number() && self.rank() < other.rank()
    }

    /// `self` is less than `other` or equal to it.
    pub open spec fn at_most(self, other: Degrees) -> bool {
        self.is_number() && other.is_number() && self.rank() <= other.rank()
    }

    /// The temperature with the given bits.
    pub fn from_bits(bits: u64) -> (degrees: Degrees)
        ensures
            degrees.bits == bits,
    {
        Degrees { bits }
    }

    /// Whether `self` is less than `other`.
    pub fn lt(self, other: Degrees) -> (less: bool)
        ensures
            less == self.below(other),
    {
        let a = self.size();
        let b = other.size();
        if a > INFINITE || b > INFINITE {
            return false;
        }
        if self.bits >= SIGN {
            if other.bits >= SIGN {
                b < a
            } else {
                0 < a || 0 < b
            }
        } else {
            other.bits < SIGN && a < b
        }
    }

    /// Whether `self` is less than `other` or equal to it.
    pub fn le(self, other: Degrees) -> (at_most: bool)
        ensures
            at_most == self.at_most(other),
    {
        let a = self.size();
        let b = other.size();
        if a > INFINITE || b > INFINITE {
            return false;
        }
        !other.lt(self)
    }

    /// The bits without the sign.
    fn size(self) -> (size: u64)
        ensures
            size == self.magnitude(),
    {
        if self.bits >= SIGN {
            self.bits - SIGN
        } else {
            self.bits
        }
    }
}

/// Of two numbers, one is less than the other or they rank the same, and only one of these
/// holds. To be at most another is to be less or to rank the same.
pub proof fn law_numbers_are_in_order(a: Degrees, b: Degrees)
    requires
        a.is_number(),
        b.is_number(),
    ensures
        a.below(b) || b.below(a) || a.rank() == b.rank(),
        !(a.below(b) && b.below(a)),
        a.rank() == b.rank() ==> !a.below(b) && !b.below(a),
        a.at_most(b) == (a.below(b) || a.rank() == b.rank()),
{
}

/// What is no number is neither less nor greater than anything.
pub proof fn law_no_number_no_order(a: Degrees, b: Degrees)
    requires
        !a.is_number(),
    ensures
        !a.below(b),
        !b.below(a),
        !a.at_most(b),
        !b.at_most(a),
{
}

/// The order by the bits: of two positive numbers the one with the greater bits is greater, of
/// two negative ones it is less, and a negative number is less than a positive one unless both
/// are zero. Bits beyond those of infinity stand for no number.
pub proof fn law_order_by_bits(a: u64, b: u64)
    ensures
        a <= 0x7ff0_0000_0000_0000 && b <= 0x7ff0_0000_0000_0000 ==> (Degrees { bits: a }).below(
            Degrees { bits: b },
        ) == (a < b),
        0x8000_0000_0000_0000 <= a <= 0xfff0_0000_0000_0000 && 0x8000_0000_0000_0000 <= b
            <= 0xfff0_0000_0000_0000 ==> (Degrees { bits: a }).below(Degrees { bits: b }) == (b
            < a),
        0x8000_0000_0000_0000 <= a <= 0xfff0_0000_0000_0000 && b <= 0x7ff0_0000_0000_0000 ==> (
        Degrees { bits: a }).below(Degrees { bits: b }) == (a != 0x8000_0000_0000_0000 || b != 0),
        a <= 0x7ff0_0000_0000_0000 && 0x8000_0000_0000_0000 <= b ==> !(Degrees { bits: a }).below(
            Degrees { bits: b },
        ),
        0x7ff0_0000_0000_0000 < a < 0x8000_0000_0000_0000 || a > 0xfff0_0000_0000_0000 ==> !(
        Degrees { bits: a }).below(Degrees { bits: b }) && !(Degrees { bits: b }).below(
            Degrees { bits: a },
        ) && !(Degrees { bits: a }).at_most(Degrees { bits: b }) && !(Degrees { bits: b }).at_most(
            Degrees { bits: a },
        ),
        (a <= 0x7ff0_0000_0000_0000 || 0x8000_0000_0000_0000 <= a <= 0xfff0_0000_0000_0000) && (b
            <= 0x7ff0_0000_0000_0000 || 0x8000_0000_0000_0000 <= b <= 0xfff0_0000_0000_0000) ==> (
        Degrees { bits: a }).at_most(Degrees { bits: b }) == !(Degrees { bits: b }).below(
            Degrees { bits: a },
        ),
{
}

} // verus!
