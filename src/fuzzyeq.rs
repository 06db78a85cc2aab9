use crate::canvas::Color;
use crate::datastruct::Tuple;
use crate::fixed::{abs, near, Fixed, EPSILON};
use vstd::prelude::*;

verus! {

/// Approximate equality, reduced component by component to the tolerance on numbers.
pub trait FuzzyEq<T>: Sized {
    /// The two values are equal within the tolerance.
    spec fn fuzzy_eq_spec(&self, other: T) -> bool;

    fn fuzzy_eq(&self, other: T) -> (r: bool)
        ensures
            r == self.fuzzy_eq_spec(other),
    ;

    fn fuzzy_ne(&self, other: T) -> (r: bool)
        ensures
            r == !self.fuzzy_eq_spec(other),
    {
        !self.fuzzy_eq(other)
    }
}

impl FuzzyEq<Fixed> for Fixed {
    open spec fn fuzzy_eq_spec(&self, other: Fixed) -> bool {
        near(self.raw as int, other.raw as int)
    }

    fn fuzzy_eq(&self, other: Fixed) -> (r: bool) {
        let d: i128 = (self.raw as i128) - (other.raw as i128);
        d < EPSILON as i128 && d > -(EPSILON as i128)
    }
}

impl FuzzyEq<Tuple> for Tuple {
    open spec fn fuzzy_eq_spec(&self, other: Tuple) -> bool {
        self.x.fuzzy_eq_spec(other.x) && self.y.fuzzy_eq_spec(other.y) && self.z.fuzzy_eq_spec(
            other.z,
        ) && self.w.fuzzy_eq_spec(other.w)
    }

    fn fuzzy_eq(&self, other: Tuple) -> (r: bool) {
        self.x.fuzzy_eq(other.x) && self.y.fuzzy_eq(other.y) && self.z.fuzzy_eq(other.z)
            && self.w.fuzzy_eq(other.w)
    }
}

impl FuzzyEq<Color> for Color {
    open spec fn fuzzy_eq_spec(&self, other: Color) -> bool {
        self.r.fuzzy_eq_spec(other.r) && self.g.fuzzy_eq_spec(other.g) && self.b.fuzzy_eq_spec(
            other.b,
        )
    }

    fn fuzzy_eq(&self, other: Color) -> (r: bool) {
        self.r.fuzzy_eq(other.r) && self.g.fuzzy_eq(other.g) && self.b.fuzzy_eq(other.b)
    }
}

/// Two numbers are fuzzy-equal exactly when they differ by less than the tolerance.
pub proof fn lemma_fuzzy_eq_iff_within_epsilon(a: Fixed, b: Fixed)
    ensures
        a.fuzzy_eq_spec(b) <==> abs(a.raw - b.raw) < EPSILON,
{
}

/// Every number is fuzzy-equal to itself.
pub proof fn lemma_fuzzy_eq_reflexive(a: Fixed)
    ensures
        a.fuzzy_eq_spec(a),
{
}

/// Fuzzy equality of numbers does not depend on the order of its arguments.
pub proof fn lemma_fuzzy_eq_symmetric(a: Fixed, b: Fixed)
    ensures
        a.fuzzy_eq_spec(b) == b.fuzzy_eq_spec(a),
{
}

/// Every tuple is fuzzy-equal to itself.
pub proof fn lemma_tuple_fuzzy_eq_reflexive(a: Tuple)
    ensures
        a.fuzzy_eq_spec(a),
{
}

/// Fuzzy equality is not transitive: two steps just inside the tolerance add up to one outside.
pub proof fn lemma_fuzzy_eq_not_transitive()
    ensures
        ({
            let a = Fixed { raw: 0 };
            let b = Fixed { raw: (EPSILON - 1) as i64 };
            let c = Fixed { raw: (2 * (EPSILON - 1)) as i64 };
            a.fuzzy_eq_spec(b) && b.fuzzy_eq_spec(c) && !a.fuzzy_eq_spec(c)
        }),
{
}

} // verus!
