//! Amounts of work as exact quotients of effort and daily capacity.

use vstd::prelude::*;

verus! {

/// An amount of work in working days: the exact quotient of `numerator` and
/// `denominator`. A zero denominator under a positive numerator stands for
/// work that never ends; zero over zero is no work at all.
#[derive(Clone, Copy, Debug, PartialEq, Eq, Structural)]
pub struct WorkDays {
    pub numerator: u64,
    pub denominator: u128,
}

impl WorkDays {
    /// Work that no number of days completes.
    pub open spec fn spec_is_unbounded(&self) -> bool {
        self.denominator == 0 && self.numerator > 0
    }

    /// The work rounded down to whole days.
    pub open spec fn whole(&self) -> nat {
        if self.denominator == 0 {
            0
        } else {
            (self.numerator as nat) / (self.denominator as nat)
        }
    }

    /// The working days that the work occupies: the work rounded up, since
    /// any started day is taken whole.
    pub open spec fn occupied(&self) -> nat {
        if self.denominator == 0 {
            0
        } else if (self.numerator as nat) % (self.denominator as nat) == 0 {
            self.whole()
        } else {
            self.whole() + 1
        }
    }

    #[verifier::when_used_as_spec(spec_is_unbounded)]
    pub fn is_unbounded(&self) -> (b: bool)
        ensures
            b == self.spec_is_unbounded(),
    {
        self.denominator == 0 && self.numerator > 0
    }

    pub fn whole_days(&self) -> (n: u64)
        ensures
            n == self.whole(),
    {
        if self.denominator == 0 || self.denominator > self.numerator as u128 {
            proof {
                if self.denominator != 0 {
                    vstd::arithmetic::div_mod::lemma_basic_div(
                        self.numerator as int,
                        self.denominator as int,
                    );
                }
            }
            0
        } else {
            let d: u64 = self.denominator as u64;
            self.numerator / d
        }
    }

    pub fn occupied_days(&self) -> (n: u64)
        ensures
            n == self.occupied(),
            self.whole() <= n,
    {
        if self.denominator == 0 {
            0
        } else if self.denominator > self.numerator as u128 {
            proof {
                vstd::arithmetic::div_mod::lemma_basic_div(
                    self.numerator as int,
                    self.denominator as int,
                );
                vstd::arithmetic::div_mod::lemma_small_mod(
                    self.numerator as nat,
                    self.denominator as nat,
                );
            }
            if self.numerator == 0 {
                0
            } else {
                1
            }
        } else {
            let d: u64 = self.denominator as u64;
            let q: u64 = self.numerator / d;
            let r: u64 = self.numerator % d;
            if r == 0 {
                q
            } else {
                assert(q < u64::MAX) by (nonlinear_arith)
                    requires
                        d >= 2,
                        q == self.numerator / d,
                        self.numerator <= u64::MAX,
                {
                }
                q + 1
            }
        }
    }
}

} // verus!
