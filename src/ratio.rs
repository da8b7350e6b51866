use vstd::prelude::*;

verus! {

/// An exact fraction `num / den`. A zero denominator stands for a value
/// that is not a finite number (what a division by zero gives).
#[derive(Clone, Copy, Debug, PartialEq, Eq, Structural)]
pub struct Ratio {
    pub num: i128,
    pub den: i128,
}

impl Ratio {
    /// The fraction is a finite number.
    pub open spec fn finite(self) -> bool {
        self.den != 0
    }

    /// The fraction is finite and equal to the integer `v`.
    pub open spec fn equals_int(self, v: int) -> bool {
        self.den != 0 && self.num == v * self.den
    }

    /// The whole number `v`, as `v / 1`.
    pub fn from_int(v: i128) -> (r: Ratio)
        ensures
            r.num == v,
            r.den == 1,
            r.equals_int(v as int),
    {
        Ratio { num: v, den: 1 }
    }

    /// Whether the fraction is a finite number.
    pub fn is_finite(&self) -> (r: bool)
        ensures
            r == self.finite(),
    {
        self.den != 0
    }
}

} // verus!
