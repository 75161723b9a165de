//! Logical points.
use vstd::prelude::*;

verus! {

/// A length in logical points. The library carries points without computing
/// with them, so a point is kept as the bit pattern of its `f32` value; the
/// application converts with `f32::to_bits` and `f32::from_bits`.
#[derive(Debug, Clone, Copy, PartialEq, Eq, Structural, Hash)]
pub struct Pt {
    bits: u32,
}

impl Pt {
    /// The `f32` bit pattern of this point.
    pub closed spec fn bits_of(self) -> u32 {
        self.bits
    }

    /// The point whose `f32` value has the bit pattern `bits`.
    pub fn from_bits(bits: u32) -> (p: Pt)
        ensures
            p.bits_of() == bits,
    {
        Pt { bits }
    }

    /// The `f32` bit pattern of this point.
    pub fn to_bits(self) -> (b: u32)
        ensures
            b == self.bits_of(),
    {
        self.bits
    }

    /// The point `0.0`.
    pub open spec fn zero_spec() -> Pt {
        Pt::from_bits_spec(0)
    }

    /// The point with bit pattern `bits`.
    pub closed spec fn from_bits_spec(bits: u32) -> Pt {
        Pt { bits }
    }

    /// The point `0.0`.
    pub fn zero() -> (p: Pt)
        ensures
            p == Pt::zero_spec(),
            p.bits_of() == 0,
    {
        Pt { bits: 0 }
    }
}

} // verus!
