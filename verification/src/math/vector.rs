//! Vectors of three reals.

use vstd::prelude::*;
use crate::math::scalar::{
    is_one, is_product, is_quotient, is_root, is_sum, is_zero, is_difference, Scalar,
};

verus! {

/// A vector in three dimensions.
pub struct Vector3<S> {
    pub x: S,
    pub y: S,
    pub z: S,
}

impl<S: Copy> Copy for Vector3<S> {

}

impl<S: Copy> Clone for Vector3<S> {
    fn clone(&self) -> (r: Self)
        ensures
            r == *self,
    {
        *self
    }
}

impl<S: Scalar> Vector3<S> {
    /// `r` is a vector of three zeros.
    pub open spec fn is_origin(r: Self) -> bool {
        is_zero(r.x) && is_zero(r.y) && is_zero(r.z)
    }

    /// `r` is a vector of three ones.
    pub open spec fn is_ones(r: Self) -> bool {
        is_one(r.x) && is_one(r.y) && is_one(r.z)
    }

    /// `r` is `a + b`, component by component.
    pub open spec fn is_added(a: Self, b: Self, r: Self) -> bool {
        is_sum(a.x, b.x, r.x) && is_sum(a.y, b.y, r.y) && is_sum(a.z, b.z, r.z)
    }

    /// `r` is `a - b`, component by component.
    pub open spec fn is_subtracted(a: Self, b: Self, r: Self) -> bool {
        is_difference(a.x, b.x, r.x) && is_difference(a.y, b.y, r.y) && is_difference(
            a.z,
            b.z,
            r.z,
        )
    }

    /// `r` is `a * b`, component by component.
    pub open spec fn is_multiplied(a: Self, b: Self, r: Self) -> bool {
        is_product(a.x, b.x, r.x) && is_product(a.y, b.y, r.y) && is_product(a.z, b.z, r.z)
    }

    /// `r` is `a` with each component multiplied by `k`.
    pub open spec fn is_scaled(a: Self, k: S, r: Self) -> bool {
        is_product(a.x, k, r.x) && is_product(a.y, k, r.y) && is_product(a.z, k, r.z)
    }

    /// `r` is `a` with each component divided by `k`.
    pub open spec fn is_divided(a: Self, k: S, r: Self) -> bool {
        is_quotient(a.x, k, r.x) && is_quotient(a.y, k, r.y) && is_quotient(a.z, k, r.z)
    }

    /// `r` is the dot product `(a.x * b.x + a.y * b.y) + a.z * b.z`.
    pub open spec fn is_dot(a: Self, b: Self, r: S) -> bool {
        exists|xx: S, yy: S, zz: S, xy: S|
            #![trigger is_sum(xx, yy, xy), is_product(a.z, b.z, zz)]
            is_product(a.x, b.x, xx) && is_product(a.y, b.y, yy) && is_product(a.z, b.z, zz)
                && is_sum(xx, yy, xy) && is_sum(xy, zz, r)
    }

    /// `r` is the length of `a`: the square root of `a` dotted with itself.
    pub open spec fn is_magnitude(a: Self, r: S) -> bool {
        exists|d: S| #![trigger is_root(d, r)] Self::is_dot(a, a, d) && is_root(d, r)
    }

    /// `r` is `a` scaled by one over the length of `a`.
    pub open spec fn is_unit(a: Self, r: Self) -> bool {
        exists|m: S, one: S, k: S|
            #![trigger is_quotient(one, m, k)]
            Self::is_magnitude(a, m) && is_one(one) && is_quotient(one, m, k)
                && Self::is_scaled(a, k, r)
    }

    /// The vector of three zeros.
    pub fn origin() -> (r: Self)
        ensures
            Self::is_origin(r),
    {
        Vector3 { x: S::zero(), y: S::zero(), z: S::zero() }
    }

    /// The vector of three ones.
    pub fn ones() -> (r: Self)
        ensures
            Self::is_ones(r),
    {
        Vector3 { x: S::one(), y: S::one(), z: S::one() }
    }

    /// `self + rhs`, component by component.
    pub fn plus(self, rhs: Self) -> (r: Self)
        ensures
            Self::is_added(self, rhs, r),
    {
        Vector3 { x: self.x.plus(rhs.x), y: self.y.plus(rhs.y), z: self.z.plus(rhs.z) }
    }

    /// `self - rhs`, component by component.
    pub fn minus(self, rhs: Self) -> (r: Self)
        ensures
            Self::is_subtracted(self, rhs, r),
    {
        Vector3 { x: self.x.minus(rhs.x), y: self.y.minus(rhs.y), z: self.z.minus(rhs.z) }
    }

    /// `self * rhs`, component by component.
    pub fn times(self, rhs: Self) -> (r: Self)
        ensures
            Self::is_multiplied(self, rhs, r),
    {
        Vector3 { x: self.x.times(rhs.x), y: self.y.times(rhs.y), z: self.z.times(rhs.z) }
    }

    /// `self` with each component multiplied by `k`.
    pub fn scaled(self, k: S) -> (r: Self)
        ensures
            Self::is_scaled(self, k, r),
    {
        Vector3 { x: self.x.times(k), y: self.y.times(k), z: self.z.times(k) }
    }

    /// `self` with each component divided by `k`.
    pub fn divided(self, k: S) -> (r: Self)
        ensures
            Self::is_divided(self, k, r),
    {
        Vector3 { x: self.x.over(k), y: self.y.over(k), z: self.z.over(k) }
    }

    /// The dot product of `self` and `rhs`.
    pub fn dot(self, rhs: Self) -> (r: S)
        ensures
            Self::is_dot(self, rhs, r),
    {
        let xx = self.x.times(rhs.x);
        let yy = self.y.times(rhs.y);
        let zz = self.z.times(rhs.z);
        let xy = xx.plus(yy);
        let r = xy.plus(zz);
        assert(is_sum(xx, yy, xy) && is_product(self.z, rhs.z, zz));
        r
    }

    /// The length of `self`.
    pub fn magnitude(self) -> (r: S)
        ensures
            Self::is_magnitude(self, r),
    {
        let d = self.dot(self);
        let r = d.root();
        assert(is_root(d, r));
        r
    }

    /// The vector of length one in the direction of `self`.
    pub fn normalize(self) -> (r: Self)
        ensures
            Self::is_unit(self, r),
    {
        let m = self.magnitude();
        let one = S::one();
        let k = one.over(m);
        let r = self.scaled(k);
        assert(is_quotient(one, m, k));
        r
    }
}

} // verus!
