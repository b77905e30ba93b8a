use vstd::arithmetic::div_mod::{lemma_div_is_ordered, lemma_div_multiples_vanish};
use vstd::prelude::*;

verus! {

/// A retain fraction within [0, 1], held exactly as numerator over
/// denominator.
#[derive(Clone, Copy, PartialEq, Eq, Structural, Debug)]
pub struct Fraction {
    pub numerator: u64,
    pub denominator: u64,
}

impl Fraction {
    /// A fraction is meaningful when its denominator is positive and its
    /// value does not exceed one.
    pub open spec fn valid(self) -> bool {
        self.denominator > 0 && self.numerator <= self.denominator
    }

    /// Builds a fraction, rejecting a zero denominator and any value above
    /// one. Retain fractions outside [0, 1] are configuration errors and are
    /// reported here, before any evolution begins.
    pub fn new(numerator: u64, denominator: u64) -> (result: Option<Fraction>)
        ensures
            (denominator > 0 && numerator <= denominator) <==> result is Some,
            result matches Some(f) ==> f.numerator == numerator && f.denominator == denominator
                && f.valid(),
    {
        if denominator > 0 && numerator <= denominator {
            Some(Fraction { numerator, denominator })
        } else {
            None
        }
    }
}

/// The whole part of `n` scaled by the fraction `f`: floor(n * f).
pub open spec fn scaled(n: int, f: Fraction) -> int {
    n * (f.numerator as int) / (f.denominator as int)
}

/// Computes floor(n * f) exactly; since `f` is at most one, the result never
/// exceeds `n`.
pub fn scaled_count(n: usize, f: Fraction) -> (count: usize)
    requires
        f.valid(),
    ensures
        count == scaled(n as int, f),
        count <= n,
{
    proof {
        let ni: int = n as int;
        let num: int = f.numerator as int;
        let den: int = f.denominator as int;
        assert(ni * num <= 0xffff_ffff_ffff_ffff * 0xffff_ffff_ffff_ffff) by (nonlinear_arith)
            requires
                0 <= ni <= 0xffff_ffff_ffff_ffff,
                0 <= num <= 0xffff_ffff_ffff_ffff,
        ;
        assert(ni * num <= ni * den) by (nonlinear_arith)
            requires
                0 <= ni,
                0 <= num <= den,
        ;
        lemma_div_is_ordered(ni * num, ni * den, den);
        lemma_div_multiples_vanish(ni, den);
        assert(ni * den == den * ni) by (nonlinear_arith);
    }
    let wide: u128 = (n as u128) * (f.numerator as u128);
    let count: u128 = wide / (f.denominator as u128);
    count as usize
}

} // verus!
