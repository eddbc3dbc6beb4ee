//! The signed-distance algebra.
//!
//! A `SignedDistance` value carries a scalar distance (negative inside,
//! positive outside) plus an arbitrary payload, and is closed under the four
//! boolean operators. The divergent sentinel, `i64::MAX`, stands for "no
//! shape contributes here" and plays the role of plus infinity.

use vstd::prelude::*;

verus! {

use crate::math::{imax, imin, Point};

/// The scalar distance of the divergent sentinel: the largest representable
/// distance, treated by every consumer as "no hit".
pub const DIVERGENT: i64 = i64::MAX;

/// A distance-carrying value: a scalar distance plus a payload that boolean
/// composition propagates from the winning operand.
pub trait SignedDistance: Sized + Copy {
    /// The scalar distance this value carries.
    spec fn sval(&self) -> int;

    /// The same payload carrying the scalar `d` instead.
    spec fn rebuilt(&self, d: int) -> Self;

    /// The divergent sentinel of this type.
    spec fn spec_divergent() -> Self;

    /// The default value of this type: the zero distance with an empty
    /// payload, the fill of a freshly allocated grid cell.
    spec fn spec_default() -> Self;

    /// Rebuilding with a representable scalar yields exactly that scalar.
    proof fn lemma_rebuilt(&self, d: int)
        requires
            i64::MIN <= d <= i64::MAX,
        ensures
            self.rebuilt(d).sval() == d,
    ;

    /// The sentinel's scalar is the maximal distance.
    proof fn lemma_divergent()
        ensures
            Self::spec_divergent().sval() == DIVERGENT as int,
    ;

    /// Every value's scalar is representable.
    proof fn lemma_sval_in_range(&self)
        ensures
            i64::MIN <= self.sval() <= i64::MAX,
    ;

    fn value(&self) -> (v: i64)
        ensures
            v as int == self.sval(),
    ;

    fn with_new_distance(&self, d: i64) -> (r: Self)
        ensures
            r == self.rebuilt(d as int),
    ;

    fn divergent() -> (r: Self)
        ensures
            r == Self::spec_divergent(),
    ;

    fn default_value() -> (r: Self)
        ensures
            r == Self::spec_default(),
    ;

    /// The operand closer to (or deeper inside) the surface wins.
    fn union(&self, other: &Self) -> (r: Self)
        ensures
            r == (if self.sval() < other.sval() {
                *self
            } else {
                *other
            }),
    {
        let a = self.value();
        let b = other.value();
        if a < b {
            *self
        } else {
            *other
        }
    }

    /// The operand farther from (or farther outside) the surface wins.
    fn intersect(&self, other: &Self) -> (r: Self)
        ensures
            r == (if self.sval() > other.sval() {
                *self
            } else {
                *other
            }),
    {
        let a = self.value();
        let b = other.value();
        if a > b {
            *self
        } else {
            *other
        }
    }

    /// `self` with `other`'s interior carved out: the negation of `self`
    /// intersected with `other`, keeping the winning operand's payload.
    fn subtract(&self, other: &Self) -> (r: Self)
        requires
            self.sval() != i64::MIN as int,
        ensures
            r == (if -self.sval() > other.sval() {
                self.rebuilt(-self.sval())
            } else {
                *other
            }),
    {
        let a = self.value();
        let b = other.value();
        if -a > b {
            self.with_new_distance(-a)
        } else {
            *other
        }
    }

    /// Symmetric difference: the intersection carved out of the union.
    fn xor(&self, other: &Self) -> (r: Self)
        requires
            self.sval() != i64::MIN as int,
            other.sval() != i64::MIN as int,
        ensures
            r == (if -(if self.sval() > other.sval() {
                *self
            } else {
                *other
            }).sval() > (if self.sval() < other.sval() {
                *self
            } else {
                *other
            }).sval() {
                (if self.sval() > other.sval() {
                    *self
                } else {
                    *other
                }).rebuilt(-(if self.sval() > other.sval() {
                    *self
                } else {
                    *other
                }).sval())
            } else {
                (if self.sval() < other.sval() {
                    *self
                } else {
                    *other
                })
            }),
    {
        self.intersect(other).subtract(&self.union(other))
    }
}

pub open spec fn spec_union<T: SignedDistance>(a: T, b: T) -> T {
    if a.sval() < b.sval() {
        a
    } else {
        b
    }
}

pub open spec fn spec_intersect<T: SignedDistance>(a: T, b: T) -> T {
    if a.sval() > b.sval() {
        a
    } else {
        b
    }
}

pub open spec fn spec_subtract<T: SignedDistance>(a: T, b: T) -> T {
    if -a.sval() > b.sval() {
        a.rebuilt(-a.sval())
    } else {
        b
    }
}

pub open spec fn spec_xor<T: SignedDistance>(a: T, b: T) -> T {
    spec_subtract(spec_intersect(a, b), spec_union(a, b))
}

/// The boolean operators compute the classic min/max algebra on scalars:
/// the union's distance is the minimum, the intersection's the maximum, and
/// the subtraction's the maximum of `other` and the negation of `self`;
/// the xor is, by construction, the intersection carved out of the union.
/// Each result is one of the operands, up to a flipped scalar sign.
pub proof fn lemma_algebra_laws<T: SignedDistance>(a: T, b: T)
    requires
        a.sval() != i64::MIN as int,
        b.sval() != i64::MIN as int,
    ensures
        spec_union(a, b).sval() == imin(a.sval(), b.sval()),
        spec_intersect(a, b).sval() == imax(a.sval(), b.sval()),
        spec_subtract(a, b).sval() == imax(-a.sval(), b.sval()),
        spec_xor(a, b) == spec_subtract(spec_intersect(a, b), spec_union(a, b)),
        spec_union(a, b) == a || spec_union(a, b) == b,
        spec_intersect(a, b) == a || spec_intersect(a, b) == b,
{
    a.lemma_sval_in_range();
    b.lemma_sval_in_range();
    a.lemma_rebuilt(-a.sval());
}

/// The xor scalar written out: the union's distance, or the intersection's
/// negated where the point lies inside exactly one operand.
pub proof fn lemma_xor_value<T: SignedDistance>(a: T, b: T)
    requires
        a.sval() != i64::MIN as int,
        b.sval() != i64::MIN as int,
    ensures
        spec_xor(a, b).sval() == imax(imin(a.sval(), b.sval()), -imax(a.sval(), b.sval())),
{
    lemma_algebra_laws(a, b);
    lemma_algebra_laws(spec_intersect(a, b), spec_union(a, b));
}

/// Plain scalars form the payload-less instance of the algebra.
impl SignedDistance for i64 {
    open spec fn sval(&self) -> int {
        *self as int
    }

    open spec fn rebuilt(&self, d: int) -> i64 {
        d as i64
    }

    open spec fn spec_divergent() -> i64 {
        DIVERGENT
    }

    open spec fn spec_default() -> i64 {
        0
    }

    proof fn lemma_rebuilt(&self, d: int) {
    }

    proof fn lemma_divergent() {
    }

    proof fn lemma_sval_in_range(&self) {
    }

    fn value(&self) -> (v: i64) {
        *self
    }

    fn with_new_distance(&self, d: i64) -> (r: i64) {
        d
    }

    fn divergent() -> (r: i64) {
        DIVERGENT
    }

    fn default_value() -> (r: i64) {
        0
    }
}

/// A source of signed distances over the plane: every query point within the
/// source's stated domain gets the exact distance value `sd_spec` names.
pub trait Sdf<T: SignedDistance>: Sized {
    /// The domain on which this source may be queried.
    spec fn sd_req(&self, p: Point) -> bool;

    /// The signed distance at `p`.
    spec fn sd_spec(&self, p: Point) -> T;

    /// The unsigned distance at `p`.
    spec fn dist_spec(&self, p: Point) -> T;

    fn signed_distance(&self, p: Point) -> (r: T)
        requires
            self.sd_req(p),
        ensures
            r == self.sd_spec(p),
    ;

    fn distance(&self, p: Point) -> (r: T)
        requires
            self.sd_req(p),
        ensures
            r == self.dist_spec(p),
    ;
}

} // verus!
