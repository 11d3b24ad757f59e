//! Exact fractions for the real-valued quantities of the masking policy.
use vstd::prelude::*;

verus! {

/// A non-negative rational number `num / den`, kept as the two integers it
/// was written with. It stands for the real-valued quantities of the masking
/// policy (the masking probability and the jitter), so that every rounding
/// step is exact integer arithmetic.
#[derive(Clone, Copy, Debug)]
pub struct Fraction {
    pub num: u32,
    pub den: u32,
}

impl Fraction {
    /// The value lies in the half-open interval `(0, 1]`.
    pub open spec fn is_probability(self) -> bool {
        0 < self.num <= self.den
    }

    /// The value lies in the half-open interval `[0, 1)`.
    pub open spec fn is_jitter(self) -> bool {
        self.num < self.den
    }

    /// `self <= other` as rational numbers (both denominators positive).
    pub open spec fn at_most(self, other: Fraction) -> bool {
        self.num * other.den <= other.num * self.den
    }

    /// The fraction `num / den`, taken as it is written.
    pub fn new(num: u32, den: u32) -> (f: Fraction)
        ensures
            f.num == num,
            f.den == den,
    {
        Fraction { num, den }
    }

    /// Tells whether the value lies in `(0, 1]`.
    pub fn in_probability_range(&self) -> (ok: bool)
        ensures
            ok == self.is_probability(),
    {
        0 < self.num && self.num <= self.den
    }

    /// Tells whether the value lies in `[0, 1)`.
    pub fn in_jitter_range(&self) -> (ok: bool)
        ensures
            ok == self.is_jitter(),
    {
        self.num < self.den
    }
}

} // verus!
