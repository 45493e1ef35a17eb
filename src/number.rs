//! The operand values that programs compute with.

use vstd::prelude::*;

verus! {

/// A program's operand values. The machine creates them from integers,
/// combines and compares them, and reads positions, code points and counts
/// back out of them; how they compute is up to the implementation (the
/// language uses 64-bit floating point). Each operation is a function of its
/// arguments, named by the `spec_` function beside it, and the machine's
/// contracts say which of these values it pushes and how it reads them.
pub trait Number: Copy + Sized {
    spec fn spec_from_u32(n: u32) -> Self;

    spec fn spec_from_usize(n: usize) -> Self;

    spec fn spec_negative_one() -> Self;

    spec fn spec_plus(self, rhs: Self) -> Self;

    spec fn spec_minus(self, rhs: Self) -> Self;

    spec fn spec_times(self, rhs: Self) -> Self;

    spec fn spec_divided_by(self, rhs: Self) -> Self;

    spec fn spec_remainder(self, rhs: Self) -> Self;

    spec fn spec_nearly_equals(self, rhs: Self) -> bool;

    spec fn spec_greater_than(self, rhs: Self) -> bool;

    spec fn spec_less_than(self, rhs: Self) -> bool;

    spec fn spec_is_zero(self) -> bool;

    spec fn spec_coordinate(self) -> Option<usize>;

    spec fn spec_code(self) -> Option<u32>;

    spec fn spec_count(self) -> usize;

    /// The value of the integer `n` (a digit, a code point, a Boolean).
    fn from_u32(n: u32) -> (r: Self)
        ensures
            r == Self::spec_from_u32(n),
    ;

    /// The value of the integer `n` (a stack length).
    fn from_usize(n: usize) -> (r: Self)
        ensures
            r == Self::spec_from_usize(n),
    ;

    /// The value -1, which reading past the end of the input yields.
    fn negative_one() -> (r: Self)
        ensures
            r == Self::spec_negative_one(),
    ;

    /// `self + rhs`.
    fn plus(self, rhs: Self) -> (r: Self)
        ensures
            r == self.spec_plus(rhs),
    ;

    /// `self - rhs`.
    fn minus(self, rhs: Self) -> (r: Self)
        ensures
            r == self.spec_minus(rhs),
    ;

    /// `self * rhs`.
    fn times(self, rhs: Self) -> (r: Self)
        ensures
            r == self.spec_times(rhs),
    ;

    /// `self / rhs`, with no trap on a zero divisor.
    fn divided_by(self, rhs: Self) -> (r: Self)
        ensures
            r == self.spec_divided_by(rhs),
    ;

    /// The remainder of `self / rhs`.
    fn remainder(self, rhs: Self) -> (r: Self)
        ensures
            r == self.spec_remainder(rhs),
    ;

    /// Whether `self` and `rhs` differ by less than the machine epsilon.
    fn nearly_equals(self, rhs: Self) -> (r: bool)
        ensures
            r == self.spec_nearly_equals(rhs),
    ;

    /// `self > rhs`.
    fn greater_than(self, rhs: Self) -> (r: bool)
        ensures
            r == self.spec_greater_than(rhs),
    ;

    /// `self < rhs`.
    fn less_than(self, rhs: Self) -> (r: bool)
        ensures
            r == self.spec_less_than(rhs),
    ;

    /// Whether the value is zero.
    fn is_zero(self) -> (r: bool)
        ensures
            r == self.spec_is_zero(),
    ;

    /// The value as a grid coordinate: `Some` exactly when it is a
    /// non-negative whole number (clamped to `usize::MAX`).
    fn to_coordinate(self) -> (r: Option<usize>)
        ensures
            r == self.spec_coordinate(),
    ;

    /// The value as a code point: `Some` exactly when it is a whole number
    /// between 0 and `u32::MAX`.
    fn to_code(self) -> (r: Option<u32>)
        ensures
            r == self.spec_code(),
    ;

    /// The value as a count: truncated toward zero, negative values and
    /// non-numbers read as 0, large values clamped to `usize::MAX`.
    fn to_count(self) -> (r: usize)
        ensures
            r == self.spec_count(),
    ;
}

} // verus!
