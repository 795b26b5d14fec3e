//! Exact fractions, for similarities and the thresholds they are held to.

use vstd::prelude::*;

verus! {

/// The fraction `num / den`. A fraction whose denominator is zero stands for
/// zero: it is what "nothing in common out of nothing at all" comes to.
#[derive(Clone, Copy, Debug, PartialEq, Eq, Structural)]
pub struct Ratio {
    pub num: u64,
    pub den: u64,
}

impl Ratio {
    /// The numerator, read as zero where the denominator is zero.
    pub open spec fn top(self) -> int {
        if self.den == 0 {
            0
        } else {
            self.num as int
        }
    }

    /// The denominator, read as one where it is zero.
    pub open spec fn bottom(self) -> int {
        if self.den == 0 {
            1
        } else {
            self.den as int
        }
    }

    /// Whether the fraction is zero.
    pub open spec fn is_zero(self) -> bool {
        self.top() == 0
    }

    /// Whether the fraction is one.
    pub open spec fn is_one(self) -> bool {
        self.top() == self.bottom()
    }

    /// Whether this fraction is at least `other`: the two are compared by
    /// cross-multiplying, which is exact.
    pub open spec fn meets(self, other: Ratio) -> bool {
        self.top() * other.bottom() >= other.top() * self.bottom()
    }

    /// The fraction `num / den`.
    pub fn new(num: u64, den: u64) -> (ratio: Self)
        ensures
            ratio.num == num,
            ratio.den == den,
    {
        Ratio { num, den }
    }

    /// Whether this fraction is at least `other`.
    pub fn at_least(&self, other: &Ratio) -> (holds: bool)
        ensures
            holds == self.meets(*other),
    {
        let (top, bottom): (u128, u128) = if self.den == 0 {
            (0, 1)
        } else {
            (self.num as u128, self.den as u128)
        };
        let (other_top, other_bottom): (u128, u128) = if other.den == 0 {
            (0, 1)
        } else {
            (other.num as u128, other.den as u128)
        };
        assert(top * other_bottom <= 0xffff_ffff_ffff_ffff * 0xffff_ffff_ffff_ffff)
            by (nonlinear_arith)
            requires
                top <= 0xffff_ffff_ffff_ffff,
                other_bottom <= 0xffff_ffff_ffff_ffff,
        ;
        assert(other_top * bottom <= 0xffff_ffff_ffff_ffff * 0xffff_ffff_ffff_ffff)
            by (nonlinear_arith)
            requires
                other_top <= 0xffff_ffff_ffff_ffff,
                bottom <= 0xffff_ffff_ffff_ffff,
        ;
        top * other_bottom >= other_top * bottom
    }
}

} // verus!
