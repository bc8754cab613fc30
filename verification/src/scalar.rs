//! The numeric capability the vector-algebra operations are generic over.
//!
//! The container and the merge-iteration protocol work for any copyable
//! value type; only the dot product and the elementwise addition and
//! subtraction need arithmetic. They take it through this trait, whose
//! executable methods are total and carry exact contracts, so that the
//! algebra can be verified once for every implementing value type.

use vstd::prelude::*;

verus! {

/// A numeric-like value type: an additive identity together with total
/// addition, subtraction and multiplication, each pinned to a
/// specification-level function by its contract.
pub trait Scalar: Sized + Copy {
    /// The mathematical value of the additive identity.
    spec fn sp_zero() -> Self;

    /// The mathematical result of addition.
    spec fn sp_add(self, rhs: Self) -> Self;

    /// The mathematical result of subtraction.
    spec fn sp_sub(self, rhs: Self) -> Self;

    /// The mathematical result of multiplication.
    spec fn sp_mul(self, rhs: Self) -> Self;

    /// The additive identity.
    fn zero() -> (r: Self)
        ensures
            r == Self::sp_zero(),
    ;

    /// Total addition.
    fn plus(self, rhs: Self) -> (r: Self)
        ensures
            r == self.sp_add(rhs),
    ;

    /// Total subtraction.
    fn minus(self, rhs: Self) -> (r: Self)
        ensures
            r == self.sp_sub(rhs),
    ;

    /// Total multiplication.
    fn times(self, rhs: Self) -> (r: Self)
        ensures
            r == self.sp_mul(rhs),
    ;

    /// Multiplication is commutative; the dot product's symmetry rests on it.
    proof fn mul_commutes(x: Self, y: Self)
        ensures
            x.sp_mul(y) == y.sp_mul(x),
    ;

    /// The additive identity is neutral, so a coordinate missing from one
    /// side of a union merge passes the stored side through unchanged.
    proof fn zero_neutral(x: Self)
        ensures
            x.sp_add(Self::sp_zero()) == x,
            Self::sp_zero().sp_add(x) == x,
    ;
}

/// `v` clamped into the value range of `i64`.
pub open spec fn clamp_i64(v: int) -> i64 {
    if v > i64::MAX {
        i64::MAX
    } else if v < i64::MIN {
        i64::MIN
    } else {
        v as i64
    }
}

/// Saturating 64-bit integer arithmetic: results are clamped at the type's
/// bounds, which keeps every operation total.
impl Scalar for i64 {
    open spec fn sp_zero() -> i64 {
        0
    }

    open spec fn sp_add(self, rhs: i64) -> i64 {
        clamp_i64(self + rhs)
    }

    open spec fn sp_sub(self, rhs: i64) -> i64 {
        clamp_i64(self - rhs)
    }

    open spec fn sp_mul(self, rhs: i64) -> i64 {
        clamp_i64(self * rhs)
    }

    fn zero() -> (r: i64) {
        0
    }

    fn plus(self, rhs: i64) -> (r: i64) {
        let s: i128 = self as i128 + rhs as i128;
        if s > i64::MAX as i128 {
            i64::MAX
        } else if s < i64::MIN as i128 {
            i64::MIN
        } else {
            s as i64
        }
    }

    fn minus(self, rhs: i64) -> (r: i64) {
        let s: i128 = self as i128 - rhs as i128;
        if s > i64::MAX as i128 {
            i64::MAX
        } else if s < i64::MIN as i128 {
            i64::MIN
        } else {
            s as i64
        }
    }

    fn times(self, rhs: i64) -> (r: i64) {
        proof {
            assert(i64::MIN <= self <= i64::MAX && i64::MIN <= rhs <= i64::MAX
                ==> i128::MIN <= self as int * rhs as int <= i128::MAX) by (nonlinear_arith);
        }
        let p: i128 = self as i128 * rhs as i128;
        if p > i64::MAX as i128 {
            i64::MAX
        } else if p < i64::MIN as i128 {
            i64::MIN
        } else {
            p as i64
        }
    }

    proof fn mul_commutes(x: i64, y: i64) {
        assert(x as int * y as int == y as int * x as int) by (nonlinear_arith);
    }

    proof fn zero_neutral(x: i64) {
    }
}

} // verus!
