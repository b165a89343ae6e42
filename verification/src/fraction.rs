//! Exact fractions of two unsigned integers.

use vstd::prelude::*;

verus! {

/// The fraction `num / den` of two natural numbers.
pub struct Ratio {
    pub num: nat,
    pub den: nat,
}

impl Ratio {
    /// The denominator is positive and the value is at most one.
    pub open spec fn is_proper(self) -> bool {
        0 < self.den && self.num <= self.den
    }

    /// The value is zero.
    pub open spec fn is_zero(self) -> bool {
        self.num == 0 && self.den > 0
    }

    /// The value is strictly greater than `pct` hundredths.
    pub open spec fn above_percent(self, pct: int) -> bool {
        self.num * 100 > pct * self.den
    }

    /// The share that `part` has of `whole`, and zero, written `0 / 1`,
    /// where `whole` is zero.
    pub open spec fn share(part: int, whole: int) -> Ratio {
        if whole == 0 {
            Ratio { num: 0, den: 1 }
        } else {
            Ratio { num: part as nat, den: whole as nat }
        }
    }
}

/// The fraction `num / den`.
///
/// A fraction produced by this library has a positive denominator and lies
/// in the closed interval from zero to one.
#[derive(Clone, Copy, Debug, PartialEq, Eq, Structural)]
pub struct Fraction {
    pub num: u128,
    pub den: u128,
}

impl View for Fraction {
    type V = Ratio;

    open spec fn view(&self) -> Ratio {
        Ratio { num: self.num as nat, den: self.den as nat }
    }
}

impl Fraction {
    /// The fraction zero, written `0 / 1`.
    pub fn zero() -> (f: Fraction)
        ensures
            f@ == (Ratio { num: 0, den: 1 }),
    {
        Fraction { num: 0, den: 1 }
    }

    /// The share that `part` has of `whole`. A zero `whole` gives the
    /// fraction zero: nothing is divided.
    pub fn of(part: u128, whole: u128) -> (f: Fraction)
        ensures
            f@ == Ratio::share(part as int, whole as int),
    {
        if whole == 0 {
            Fraction::zero()
        } else {
            Fraction { num: part, den: whole }
        }
    }

    /// Whether the value is strictly greater than 99 hundredths.
    pub fn exceeds_99_percent(&self) -> (b: bool)
        ensures
            b == self@.above_percent(99),
    {
        if self.num >= self.den {
            self.num > 0
        } else {
            let gap: u128 = self.den - self.num;
            gap <= (self.den - 1) / 100
        }
    }
}

/// A share of a whole is a proper fraction where the part is no more than
/// the whole, and it is zero where the whole is zero.
pub proof fn share_is_proper(part: int, whole: int)
    requires
        0 <= part <= whole,
    ensures
        Ratio::share(part, whole).is_proper(),
        whole == 0 ==> Ratio::share(part, whole).is_zero(),
{
}

} // verus!
