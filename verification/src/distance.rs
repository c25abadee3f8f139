//! Distances as the graph reports them: the bit pattern of an IEEE-754
//! single-precision number, ordered the way such numbers compare.

use vstd::prelude::*;

verus! {

/// First bit pattern above all magnitudes: the sign bit.
pub const SIGN_BIT: u32 = 0x8000_0000;

/// Magnitude of positive infinity; every larger magnitude is not a number.
pub const INFINITY_MAGNITUDE: u32 = 0x7f80_0000;

/// A distance, held as the 32 bits of a single-precision number.
#[derive(Clone, Copy, Debug)]
pub struct Distance {
    pub bits: u32,
}

impl Distance {
    /// The bits below the sign bit.
    pub open spec fn magnitude(self) -> int {
        (self.bits % SIGN_BIT) as int
    }

    /// Whether the sign bit is set.
    pub open spec fn is_negative(self) -> bool {
        self.bits >= SIGN_BIT
    }

    /// Whether the bits encode "not a number", which compares with nothing.
    pub open spec fn is_nan(self) -> bool {
        self.magnitude() > INFINITY_MAGNITUDE
    }

    /// Position on the number line: both zeros sit at 0, negative values
    /// mirror the positive ones.
    pub open spec fn rank(self) -> int {
        if self.is_negative() {
            -self.magnitude()
        } else {
            self.magnitude()
        }
    }

    /// `self > other` as single-precision numbers compare: false as soon as
    /// either side is not a number.
    pub open spec fn greater_than(self, other: Distance) -> bool {
        !self.is_nan() && !other.is_nan() && self.rank() > other.rank()
    }

    /// `self <= other` as single-precision numbers compare.
    pub open spec fn at_most(self, other: Distance) -> bool {
        !self.is_nan() && !other.is_nan() && self.rank() <= other.rank()
    }

    /// Wraps a bit pattern.
    pub fn from_bits(bits: u32) -> (d: Distance)
        ensures
            d.bits == bits,
    {
        Distance { bits }
    }

    /// Tells whether the bits encode "not a number".
    pub fn not_a_number(&self) -> (r: bool)
        ensures
            r == self.is_nan(),
    {
        self.bits % SIGN_BIT > INFINITY_MAGNITUDE
    }

    /// Position on the number line, see [`Distance::rank`].
    pub fn position(&self) -> (r: i64)
        ensures
            r == self.rank(),
    {
        let m: u32 = self.bits % SIGN_BIT;
        if self.bits >= SIGN_BIT {
            -(m as i64)
        } else {
            m as i64
        }
    }

    /// Tells whether this distance lies strictly beyond `cutoff`.
    pub fn exceeds(&self, cutoff: &Distance) -> (r: bool)
        ensures
            r == self.greater_than(*cutoff),
    {
        !self.not_a_number() && !cutoff.not_a_number() && self.position() > cutoff.position()
    }
}

/// Among numbers, "not greater than" and "at most" are the same thing.
pub proof fn lemma_not_greater_is_at_most(a: Distance, b: Distance)
    requires
        !a.is_nan(),
        !b.is_nan(),
    ensures
        !a.greater_than(b) <==> a.at_most(b),
{
}

} // verus!
