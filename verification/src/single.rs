//! Single-precision numbers, held as their bits. Only comparisons are made here; they are made on
//! the bits.
use vstd::prelude::*;

verus! {

/// A single-precision number.
#[derive(Clone, Copy, Debug, PartialEq, Eq, Structural)]
pub struct Single {
    pub bits: u32,
}

/// The bits of one.
pub const ONE_BITS: u32 = 0x3f80_0000;

/// The bits of infinity.
pub const INFINITY_BITS: u32 = 0x7f80_0000;

impl Single {
    /// The bits without the sign.
    pub open spec fn magnitude(self) -> int {
        if self.bits >= 0x8000_0000 {
            self.bits - 0x8000_0000
        } else {
            self.bits as int
        }
    }

    /// Whether the bits stand for a finite number.
    pub open spec fn finite(self) -> bool {
        self.magnitude() < INFINITY_BITS
    }

    /// The place of a number among the numbers: both zeros have one place.
    pub open spec fn place(self) -> int {
        if self.bits >= 0x8000_0000 {
            -self.magnitude()
        } else {
            self.magnitude()
        }
    }

    /// Whether this is a number from zero to one.
    pub open spec fn in_unit(self) -> bool {
        0 <= self.place() <= ONE_BITS
    }

    /// The place in the order that tells all bit patterns apart.
    pub open spec fn total_place(self) -> int {
        if self.bits >= 0x8000_0000 {
            -1 - self.magnitude()
        } else {
            self.magnitude()
        }
    }

    fn place_bits(self) -> (r: i64)
        ensures
            r == self.place(),
    {
        if self.bits >= 0x8000_0000 {
            0 - (self.bits - 0x8000_0000) as i64
        } else {
            self.bits as i64
        }
    }

    /// Whether this is a finite number.
    pub fn is_finite(self) -> (r: bool)
        ensures
            r == self.finite(),
    {
        if self.bits >= 0x8000_0000 {
            self.bits - 0x8000_0000 < INFINITY_BITS
        } else {
            self.bits < INFINITY_BITS
        }
    }

    /// Whether this is a number from zero to one.
    pub fn is_in_unit(self) -> (r: bool)
        ensures
            r == self.in_unit(),
    {
        let place: i64 = self.place_bits();
        0 <= place && place <= ONE_BITS as i64
    }

    /// Whether this number is smaller than another one. Both are finite.
    pub fn is_below(self, other: Single) -> (r: bool)
        requires
            self.finite(),
            other.finite(),
        ensures
            r == (self.place() < other.place()),
    {
        self.place_bits() < other.place_bits()
    }

    /// Whether this comes before another one in the order that tells all bit patterns apart.
    pub fn precedes(self, other: Single) -> (r: bool)
        ensures
            r == (self.total_place() < other.total_place()),
    {
        if self.bits >= 0x8000_0000 {
            other.bits < 0x8000_0000 || self.bits > other.bits
        } else {
            other.bits < 0x8000_0000 && self.bits < other.bits
        }
    }
}

} // verus!
