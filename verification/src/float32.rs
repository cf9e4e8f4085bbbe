//! Single-precision numbers, carried by their bit patterns.
use vstd::prelude::*;

verus! {

/// A single-precision IEEE 754 number, as its bit pattern. Nothing here computes with it; it is
/// carried, compared and put on the wire.
#[derive(Debug, Clone, Copy)]
pub struct Float32 {
    pub bits: u32,
}

impl Float32 {
    /// Whether this is not a number: all exponent bits set, and any bit after them.
    pub open spec fn nan(self) -> bool {
        self.bits % 0x8000_0000 > 0x7f80_0000
    }

    /// Whether this is zero, of either sign.
    pub open spec fn zero(self) -> bool {
        self.bits % 0x8000_0000 == 0
    }

    /// IEEE 754 equality: a NaN equals nothing, and the two zeros equal each other.
    pub open spec fn equals(self, other: Self) -> bool {
        !self.nan() && !other.nan() && (self.bits == other.bits || self.zero() && other.zero())
    }

    /// The number with the given bit pattern.
    pub fn from_bits(bits: u32) -> (r: Self)
        ensures
            r == (Float32 { bits }),
    {
        Float32 { bits }
    }

    /// The number's bit pattern.
    pub fn to_bits(self) -> (r: u32)
        ensures
            r == self.bits,
    {
        self.bits
    }

    /// IEEE 754 equality.
    pub fn same_number(self, other: Self) -> (r: bool)
        ensures
            r == self.equals(other),
    {
        let a: u32 = self.bits % 0x8000_0000;
        let b: u32 = other.bits % 0x8000_0000;
        a <= 0x7f80_0000 && b <= 0x7f80_0000 && (self.bits == other.bits || a == 0 && b == 0)
    }
}

impl PartialEq for Float32 {
    fn eq(&self, other: &Self) -> (r: bool) {
        self.same_number(*other)
    }
}

impl vstd::std_specs::cmp::PartialEqSpecImpl for Float32 {
    open spec fn obeys_eq_spec() -> bool {
        true
    }

    open spec fn eq_spec(&self, other: &Self) -> bool {
        self.equals(*other)
    }
}

/// Equality of numbers is symmetric and transitive, and every number but NaN equals itself.
pub proof fn equality_laws(a: Float32, b: Float32, c: Float32)
    ensures
        a.equals(a) == !a.nan(),
        a.equals(b) == b.equals(a),
        a.equals(b) && b.equals(c) ==> a.equals(c),
{
}

/// A number is a sign, an exponent and a fraction. It is not a number if the exponent is the largest
/// and the fraction is not 0, and zero if both are 0. Two numbers are equal if all three are, and if
/// both are zero.
pub proof fn a_number_is_told_by_its_parts(
    sign: int,
    exponent: int,
    fraction: int,
    other: Float32,
)
    requires
        0 <= sign <= 1,
        0 <= exponent <= 255,
        0 <= fraction < 0x80_0000,
    ensures
        ({
            let x = Float32 { bits: (sign * 0x8000_0000 + exponent * 0x80_0000 + fraction) as u32 };
            &&& x.nan() <==> exponent == 255 && fraction != 0
            &&& x.zero() <==> exponent == 0 && fraction == 0
            &&& x.nan() ==> !x.equals(other) && !other.equals(x)
            &&& !x.nan() && other == x ==> x.equals(other)
            &&& x.zero() && (other.bits == 0 || other.bits == 0x8000_0000u32) ==> x.equals(other)
            &&& !x.zero() && other != x ==> !x.equals(other)
        }),
{
}

} // verus!
