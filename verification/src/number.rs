//! What a number representation has to offer before the engine can compute
//! with it.

use vstd::prelude::*;

verus! {

/// The arithmetic that the lexer and the evaluator ask of a number type.
///
/// Every operation is a function of its operands: the executable method returns
/// what its specification twin names. The twins carry no further meaning here;
/// an implementation decides what addition or ordering is, and a verified one
/// defines each twin. Their defaults say nothing, so that an implementation
/// outside verified code can leave them out.
pub trait Num: Sized {
    /// The value called zero.
    open spec fn spec_zero() -> Self {
        arbitrary()
    }

    /// The value called one.
    open spec fn spec_one() -> Self {
        arbitrary()
    }

    /// Whether the value has no fractional part.
    open spec fn spec_is_integer(&self) -> bool {
        arbitrary()
    }

    /// Absolute value.
    open spec fn spec_abs(&self) -> Self {
        arbitrary()
    }

    /// `self` raised to `exponent`.
    open spec fn spec_pow(&self, exponent: &Self) -> Self {
        arbitrary()
    }

    /// The number that a decimal literal denotes, if it denotes one.
    open spec fn spec_from_flt64_str(s: Seq<char>) -> Option<Self> {
        arbitrary()
    }

    /// Negation.
    open spec fn spec_negate(self) -> Self {
        arbitrary()
    }

    /// Sum.
    open spec fn spec_plus(self, rhs: Self) -> Self {
        arbitrary()
    }

    /// Difference.
    open spec fn spec_minus(self, rhs: Self) -> Self {
        arbitrary()
    }

    /// Product.
    open spec fn spec_times(self, rhs: Self) -> Self {
        arbitrary()
    }

    /// Quotient; what a zero divisor yields is the implementation's choice.
    open spec fn spec_divide(self, rhs: Self) -> Self {
        arbitrary()
    }

    /// Strict ordering.
    open spec fn spec_less_than(&self, rhs: &Self) -> bool {
        arbitrary()
    }

    /// Numeric equality.
    open spec fn spec_equals(&self, rhs: &Self) -> bool {
        arbitrary()
    }

    /// A measure that falls whenever counting down from a value above one
    /// reaches a strictly smaller value: it bounds how long one can count.
    open spec fn spec_rank(&self) -> nat {
        arbitrary()
    }

    fn zero() -> (r: Self)
        ensures
            r == Self::spec_zero(),
    ;

    fn one() -> (r: Self)
        ensures
            r == Self::spec_one(),
    ;

    fn is_integer(&self) -> (r: bool)
        ensures
            r == self.spec_is_integer(),
    ;

    fn abs(&self) -> (r: Self)
        ensures
            r == self.spec_abs(),
    ;

    fn pow(&self, exponent: &Self) -> (r: Self)
        ensures
            r == self.spec_pow(exponent),
    ;

    fn from_flt64_str(s: &str) -> (r: Option<Self>)
        ensures
            r == Self::spec_from_flt64_str(s@),
    ;

    fn negate(self) -> (r: Self)
        ensures
            r == self.spec_negate(),
    ;

    fn plus(self, rhs: Self) -> (r: Self)
        ensures
            r == self.spec_plus(rhs),
    ;

    fn minus(self, rhs: Self) -> (r: Self)
        ensures
            r == self.spec_minus(rhs),
    ;

    fn times(self, rhs: Self) -> (r: Self)
        ensures
            r == self.spec_times(rhs),
    ;

    fn divide(self, rhs: Self) -> (r: Self)
        ensures
            r == self.spec_divide(rhs),
    ;

    /// Strict ordering. Counting down makes progress: where `rhs` lies above
    /// one and `self`, which is `rhs` less one, is found smaller, the rank
    /// has fallen.
    fn less_than(&self, rhs: &Self) -> (r: bool)
        ensures
            r == self.spec_less_than(rhs),
            r && Self::spec_one().spec_less_than(rhs) && *self == rhs.spec_minus(Self::spec_one())
                ==> self.spec_rank() < rhs.spec_rank(),
    ;

    fn equals(&self, rhs: &Self) -> (r: bool)
        ensures
            r == self.spec_equals(rhs),
    ;

    /// A copy of the value.
    fn duplicate(&self) -> (r: Self)
        ensures
            r == *self,
    ;
}

} // verus!
