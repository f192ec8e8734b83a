use vstd::prelude::*;

verus! {

/// All bits of a binary64 pattern but the sign.
pub const MAGNITUDE_MASK: u64 = 0x7fff_ffff_ffff_ffff;

/// The binary64 pattern of positive infinity: every exponent bit set, no
/// fraction bit set.
pub const INFINITY_BITS: u64 = 0x7ff0_0000_0000_0000;

/// An IEEE 754 binary64 number, held by its bit pattern.
///
/// The crate does no arithmetic on these numbers. It carries them and
/// compares them, and both only need the pattern.
#[derive(Copy, Clone, Debug)]
pub struct Double {
    pub bits: u64,
}

impl Double {
    /// The pattern with its sign bit cleared.
    pub open spec fn magnitude(self) -> u64 {
        self.bits & MAGNITUDE_MASK
    }

    /// Not a number: the exponent is all ones and the fraction is not zero.
    pub open spec fn nan(self) -> bool {
        self.magnitude() > INFINITY_BITS
    }

    /// Neither infinite nor NaN: the exponent is not all ones.
    pub open spec fn finite(self) -> bool {
        self.magnitude() < INFINITY_BITS
    }

    /// Positive or negative zero.
    pub open spec fn zero(self) -> bool {
        self.magnitude() == 0
    }

    /// IEEE 754 equality: NaN equals nothing, the two zeros equal each
    /// other, and any other two numbers are equal when their patterns are.
    pub open spec fn same_number(self, other: Double) -> bool {
        &&& !self.nan()
        &&& !other.nan()
        &&& (self.bits == other.bits || (self.zero() && other.zero()))
    }

    /// The number with the given bit pattern.
    pub fn from_bits(bits: u64) -> (d: Double)
        ensures
            d.bits == bits,
    {
        Double { bits }
    }

    /// The bit pattern of the number.
    pub fn to_bits(&self) -> (bits: u64)
        ensures
            bits == self.bits,
    {
        self.bits
    }

    /// Tells whether the number is NaN.
    pub fn is_nan(&self) -> (r: bool)
        ensures
            r == self.nan(),
    {
        (self.bits & MAGNITUDE_MASK) > INFINITY_BITS
    }

    /// Tells whether the number is neither infinite nor NaN.
    pub fn is_finite(&self) -> (r: bool)
        ensures
            r == self.finite(),
    {
        (self.bits & MAGNITUDE_MASK) < INFINITY_BITS
    }

    /// Equality is reflexive exactly on the numbers that are not NaN.
    pub proof fn lemma_same_number_reflexive(self)
        ensures
            self.same_number(self) <==> !self.nan(),
    {
    }

    /// Equality is symmetric.
    pub proof fn lemma_same_number_symmetric(self, other: Double)
        ensures
            self.same_number(other) == other.same_number(self),
    {
    }
}

/// Equality as IEEE 754 has it; see [`Double::same_number`].
impl PartialEq for Double {
    fn eq(&self, other: &Self) -> (same: bool) {
        let a: u64 = self.bits & MAGNITUDE_MASK;
        let b: u64 = other.bits & MAGNITUDE_MASK;
        a <= INFINITY_BITS && b <= INFINITY_BITS && (self.bits == other.bits || (a == 0 && b == 0))
    }
}

impl vstd::std_specs::cmp::PartialEqSpecImpl for Double {
    open spec fn obeys_eq_spec() -> bool {
        true
    }

    open spec fn eq_spec(&self, other: &Self) -> bool {
        self.same_number(*other)
    }
}

} // verus!
