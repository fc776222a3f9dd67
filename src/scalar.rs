use vstd::prelude::*;

verus! {

/// The element type of a filter (in practice `f32` or `f64`, wrapped by the
/// caller) and the arithmetic the filter does on it. Each operation returns
/// what its spec counterpart names, so the filter's contracts can state every
/// step of the recurrence; of an implementation this asks only that the same
/// operands always give the same result. No algebraic law is assumed: a
/// proof that needs one states it for the values it concerns.
pub trait Scalar: Sized + Copy {
    spec fn spec_zero() -> Self;

    spec fn spec_one() -> Self;

    spec fn spec_plus(a: Self, b: Self) -> Self;

    spec fn spec_minus(a: Self, b: Self) -> Self;

    spec fn spec_times(a: Self, b: Self) -> Self;

    spec fn spec_over(a: Self, b: Self) -> Self;

    fn zero() -> (r: Self)
        ensures
            r == Self::spec_zero(),
    ;

    fn one() -> (r: Self)
        ensures
            r == Self::spec_one(),
    ;

    fn plus(self, b: Self) -> (r: Self)
        ensures
            r == Self::spec_plus(self, b),
    ;

    fn minus(self, b: Self) -> (r: Self)
        ensures
            r == Self::spec_minus(self, b),
    ;

    fn times(self, b: Self) -> (r: Self)
        ensures
            r == Self::spec_times(self, b),
    ;

    fn over(self, b: Self) -> (r: Self)
        ensures
            r == Self::spec_over(self, b),
    ;
}

} // verus!
