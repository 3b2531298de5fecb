//! Points and a 4x4 transform over integer coordinates.
//!
//! Components are `i64` values and every operation is exact. Each operation
//! asks of its operands the bound that keeps its own sums inside the machine
//! integers: `SMALL` where two components are multiplied into 64 bits, `WIDE`
//! where the products are summed in 128 bits.

use vstd::prelude::*;
use crate::arith::{
    is_sqrt,
    isqrt,
    lemma_mul_bound,
    lemma_sqrt_unique,
    lemma_trunc_div_bounds,
    trunc_div,
};

verus! {

/// Largest magnitude of a component whose products with another such
/// component are summed in 64 bits.
pub const SMALL: i64 = 0x4000_0000;

/// Largest magnitude of a component whose products with another such
/// component are summed in 128 bits.
pub const WIDE: i64 = 0x3fff_ffff_ffff_ffff;

/// A point of the plane.
#[derive(Clone, Copy, Debug, PartialEq, Eq, Structural)]
pub struct Vec2 {
    pub x: i64,
    pub y: i64,
}

/// A point or direction of space.
#[derive(Clone, Copy, Debug, PartialEq, Eq, Structural)]
pub struct Vec3 {
    pub x: i64,
    pub y: i64,
    pub z: i64,
}

/// A point of space in homogeneous coordinates.
#[derive(Clone, Copy, Debug, PartialEq, Eq, Structural)]
pub struct Vec4 {
    pub x: i64,
    pub y: i64,
    pub z: i64,
    pub w: i64,
}

/// A 4x4 matrix, `mRC` being the entry of row `R` and column `C`.
#[derive(Clone, Copy, Debug, PartialEq, Eq, Structural)]
pub struct Mat4 {
    pub m00: i64,
    pub m01: i64,
    pub m02: i64,
    pub m03: i64,
    pub m10: i64,
    pub m11: i64,
    pub m12: i64,
    pub m13: i64,
    pub m20: i64,
    pub m21: i64,
    pub m22: i64,
    pub m23: i64,
    pub m30: i64,
    pub m31: i64,
    pub m32: i64,
    pub m33: i64,
}

/// Whether a component is at most `limit` in magnitude.
pub open spec fn fits(c: i64, limit: int) -> bool {
    -limit <= c <= limit
}

/// Tests whether a component is at most `limit` in magnitude.
fn is_fit(c: i64, limit: i64) -> (r: bool)
    ensures
        r == fits(c, limit as int),
{
    -(limit as i128) <= c as i128 && c <= limit
}

impl Vec2 {
    pub fn new(x: i64, y: i64) -> (v: Vec2)
        ensures
            v == (Vec2 { x, y }),
    {
        Vec2 { x, y }
    }
}

impl Vec3 {
    /// Whether every component is at most `limit` in magnitude.
    pub open spec fn within(self, limit: int) -> bool {
        fits(self.x, limit) && fits(self.y, limit) && fits(self.z, limit)
    }

    /// The cross product as a triple of mathematical integers.
    pub open spec fn cross_spec(self, rhs: Vec3) -> (int, int, int) {
        (
            self.y * rhs.z - self.z * rhs.y,
            self.z * rhs.x - self.x * rhs.z,
            self.x * rhs.y - self.y * rhs.x,
        )
    }

    /// The dot product as a mathematical integer.
    pub open spec fn dot_spec(self, rhs: Vec3) -> int {
        self.x * rhs.x + self.y * rhs.y + self.z * rhs.z
    }

    pub fn new(x: i64, y: i64, z: i64) -> (v: Vec3)
        ensures
            v == (Vec3 { x, y, z }),
    {
        Vec3 { x, y, z }
    }

    /// Tests whether every component is at most `limit` in magnitude.
    pub fn is_within(self, limit: i64) -> (r: bool)
        ensures
            r == self.within(limit as int),
    {
        is_fit(self.x, limit) && is_fit(self.y, limit) && is_fit(self.z, limit)
    }

    /// The cross product `self x rhs`.
    pub fn cross(self, rhs: Vec3) -> (v: Vec3)
        requires
            self.within(SMALL as int),
            rhs.within(SMALL as int),
        ensures
            (v.x as int, v.y as int, v.z as int) == self.cross_spec(rhs),
            v.within(WIDE as int),
    {
        proof {
            let l = SMALL as int;
            lemma_mul_bound(self.y as int, rhs.z as int, l, l);
            lemma_mul_bound(self.z as int, rhs.y as int, l, l);
            lemma_mul_bound(self.z as int, rhs.x as int, l, l);
            lemma_mul_bound(self.x as int, rhs.z as int, l, l);
            lemma_mul_bound(self.x as int, rhs.y as int, l, l);
            lemma_mul_bound(self.y as int, rhs.x as int, l, l);
        }
        let x: i64 = self.y * rhs.z - self.z * rhs.y;
        let y: i64 = self.z * rhs.x - self.x * rhs.z;
        let z: i64 = self.x * rhs.y - self.y * rhs.x;
        Vec3 { x, y, z }
    }

    /// The dot product of `self` and `rhs`.
    pub fn mul(self, rhs: Vec3) -> (d: i128)
        requires
            self.within(WIDE as int),
            rhs.within(WIDE as int),
        ensures
            d == self.dot_spec(rhs),
    {
        proof {
            let l = WIDE as int;
            lemma_mul_bound(self.x as int, rhs.x as int, l, l);
            lemma_mul_bound(self.y as int, rhs.y as int, l, l);
            lemma_mul_bound(self.z as int, rhs.z as int, l, l);
        }
        (self.x as i128) * (rhs.x as i128) + (self.y as i128) * (rhs.y as i128) + (self.z as i128)
            * (rhs.z as i128)
    }

    /// The Euclidean length, rounded down to an integer.
    pub fn norm(self) -> (n: i64)
        requires
            self.within(WIDE as int),
        ensures
            is_sqrt(self.dot_spec(self), n as int),
    {
        proof {
            let l = WIDE as int;
            lemma_mul_bound(self.x as int, self.x as int, l, l);
            lemma_mul_bound(self.y as int, self.y as int, l, l);
            lemma_mul_bound(self.z as int, self.z as int, l, l);
            assert(self.x * self.x >= 0 && self.y * self.y >= 0 && self.z * self.z >= 0)
                by (nonlinear_arith);
        }
        let square: i128 = self.mul(self);
        let root: u64 = isqrt(square as u128);
        proof {
            // The root of a sum below 2^126 is below 2^63.
            if root >= 0x8000_0000_0000_0000 {
                assert(root * root >= 0x8000_0000_0000_0000 * 0x8000_0000_0000_0000)
                    by (nonlinear_arith)
                    requires
                        root >= 0x8000_0000_0000_0000,
                ;
            }
        }
        root as i64
    }

    /// The vector scaled to the length `unit`: each component times `unit`
    /// over the rounded-down length, rounded toward zero. A vector shorter
    /// than one has no direction to keep.
    pub fn normalize(self, unit: i64) -> (v: Vec3)
        requires
            self.within(WIDE as int),
            self.dot_spec(self) >= 1,
            0 < unit <= SMALL,
        ensures
            forall|n: int|
                is_sqrt(self.dot_spec(self), n) ==> {
                    &&& v.x == trunc_div(self.x * unit, n)
                    &&& v.y == trunc_div(self.y * unit, n)
                    &&& v.z == trunc_div(self.z * unit, n)
                },
            v.within(unit as int),
    {
        let l: i64 = self.norm();
        proof {
            assert forall|n: int| is_sqrt(self.dot_spec(self), n) implies n == l by {
                lemma_sqrt_unique(self.dot_spec(self), n, l as int);
            }
            assert(l >= 1) by (nonlinear_arith)
                requires
                    (l + 1) * (l + 1) > 1,
                    l >= 0,
            ;
        }
        let x: i64 = scale(self.x, unit, l, Ghost(self.y as int), Ghost(self.z as int));
        let y: i64 = scale(self.y, unit, l, Ghost(self.x as int), Ghost(self.z as int));
        let z: i64 = scale(self.z, unit, l, Ghost(self.x as int), Ghost(self.y as int));
        Vec3 { x, y, z }
    }
}

/// One component of a vector times `unit` over the length `l` of the vector,
/// rounded toward zero. The other two components are `p` and `q`.
fn scale(c: i64, unit: i64, l: i64, Ghost(p): Ghost<int>, Ghost(q): Ghost<int>) -> (r: i64)
    requires
        fits(c, WIDE as int),
        0 < unit <= SMALL,
        l >= 1,
        is_sqrt(c * c + p * p + q * q, l as int),
    ensures
        r == trunc_div(c * unit, l as int),
        -unit <= r <= unit,
{
    proof {
        lemma_mul_bound(c as int, unit as int, WIDE as int, SMALL as int);
        // |c| <= l, since c * c is below (l + 1) * (l + 1).
        assert(-l <= c <= l) by (nonlinear_arith)
            requires
                c * c + p * p + q * q < (l + 1) * (l + 1),
                l >= 1,
        ;
        assert((-unit) * l <= c * unit <= unit * l) by (nonlinear_arith)
            requires
                -l <= c <= l,
                unit > 0,
        ;
        lemma_trunc_div_bounds(c * unit, l as int, -unit, unit as int);
    }
    let product: i128 = (c as i128) * (unit as i128);
    (product / (l as i128)) as i64
}

impl Vec4 {
    /// Whether every component is at most `limit` in magnitude.
    pub open spec fn within(self, limit: int) -> bool {
        fits(self.x, limit) && fits(self.y, limit) && fits(self.z, limit) && fits(self.w, limit)
    }

    pub fn new(x: i64, y: i64, z: i64, w: i64) -> (v: Vec4)
        ensures
            v == (Vec4 { x, y, z, w }),
    {
        Vec4 { x, y, z, w }
    }

    /// Tests whether every component is at most `limit` in magnitude.
    pub fn is_within(self, limit: i64) -> (r: bool)
        ensures
            r == self.within(limit as int),
    {
        is_fit(self.x, limit) && is_fit(self.y, limit) && is_fit(self.z, limit) && is_fit(
            self.w,
            limit,
        )
    }

    /// The first three components.
    pub fn xyz(self) -> (v: Vec3)
        ensures
            v == (Vec3 { x: self.x, y: self.y, z: self.z }),
    {
        Vec3::new(self.x, self.y, self.z)
    }

    /// The first two components.
    pub fn xy(self) -> (v: Vec2)
        ensures
            v == (Vec2 { x: self.x, y: self.y }),
    {
        Vec2::new(self.x, self.y)
    }

    /// The componentwise difference `self - rhs`.
    pub fn sub(self, rhs: Vec4) -> (v: Vec4)
        requires
            self.within(WIDE as int),
            rhs.within(WIDE as int),
        ensures
            v.x == self.x - rhs.x,
            v.y == self.y - rhs.y,
            v.z == self.z - rhs.z,
            v.w == self.w - rhs.w,
    {
        let x: i64 = self.x - rhs.x;
        let y: i64 = self.y - rhs.y;
        let z: i64 = self.z - rhs.z;
        let w: i64 = self.w - rhs.w;
        Vec4 { x, y, z, w }
    }
}

/// A row of a matrix times a column vector, as a mathematical integer.
pub open spec fn row_times(a: i64, b: i64, c: i64, d: i64, v: Vec4) -> int {
    a * v.x + b * v.y + c * v.z + d * v.w
}

/// Each product of a row with a vector, both within `SMALL`, is at most
/// `SMALL * SMALL` in magnitude, so their sum fits in 64 bits.
pub proof fn lemma_row_fits(a: i64, b: i64, c: i64, d: i64, v: Vec4)
    requires
        fits(a, SMALL as int),
        fits(b, SMALL as int),
        fits(c, SMALL as int),
        fits(d, SMALL as int),
        v.within(SMALL as int),
    ensures
        -0x1000_0000_0000_0000 <= a * v.x <= 0x1000_0000_0000_0000,
        -0x1000_0000_0000_0000 <= b * v.y <= 0x1000_0000_0000_0000,
        -0x1000_0000_0000_0000 <= c * v.z <= 0x1000_0000_0000_0000,
        -0x1000_0000_0000_0000 <= d * v.w <= 0x1000_0000_0000_0000,
{
    let l = SMALL as int;
    lemma_mul_bound(a as int, v.x as int, l, l);
    lemma_mul_bound(b as int, v.y as int, l, l);
    lemma_mul_bound(c as int, v.z as int, l, l);
    lemma_mul_bound(d as int, v.w as int, l, l);
}

impl Mat4 {
    /// Whether every entry is at most `limit` in magnitude.
    pub open spec fn within(self, limit: int) -> bool {
        &&& fits(self.m00, limit) && fits(self.m01, limit) && fits(self.m02, limit) && fits(
            self.m03,
            limit,
        )
        &&& fits(self.m10, limit) && fits(self.m11, limit) && fits(self.m12, limit) && fits(
            self.m13,
            limit,
        )
        &&& fits(self.m20, limit) && fits(self.m21, limit) && fits(self.m22, limit) && fits(
            self.m23,
            limit,
        )
        &&& fits(self.m30, limit) && fits(self.m31, limit) && fits(self.m32, limit) && fits(
            self.m33,
            limit,
        )
    }

    pub fn new(
        m00: i64,
        m01: i64,
        m02: i64,
        m03: i64,
        m10: i64,
        m11: i64,
        m12: i64,
        m13: i64,
        m20: i64,
        m21: i64,
        m22: i64,
        m23: i64,
        m30: i64,
        m31: i64,
        m32: i64,
        m33: i64,
    ) -> (m: Mat4)
        ensures
            m == (Mat4 {
                m00,
                m01,
                m02,
                m03,
                m10,
                m11,
                m12,
                m13,
                m20,
                m21,
                m22,
                m23,
                m30,
                m31,
                m32,
                m33,
            }),
    {
        Mat4 { m00, m01, m02, m03, m10, m11, m12, m13, m20, m21, m22, m23, m30, m31, m32, m33 }
    }

    /// Tests whether every entry is at most `limit` in magnitude.
    pub fn is_within(self, limit: i64) -> (r: bool)
        ensures
            r == self.within(limit as int),
    {
        is_fit(self.m00, limit) && is_fit(self.m01, limit) && is_fit(self.m02, limit) && is_fit(
            self.m03,
            limit,
        ) && is_fit(self.m10, limit) && is_fit(self.m11, limit) && is_fit(self.m12, limit)
            && is_fit(self.m13, limit) && is_fit(self.m20, limit) && is_fit(self.m21, limit)
            && is_fit(self.m22, limit) && is_fit(self.m23, limit) && is_fit(self.m30, limit)
            && is_fit(self.m31, limit) && is_fit(self.m32, limit) && is_fit(self.m33, limit)
    }

    /// The matrix-vector product `self * rhs`: each component of the result is
    /// one row of the matrix times the vector.
    pub fn mul(self, rhs: Vec4) -> (v: Vec4)
        requires
            self.within(SMALL as int),
            rhs.within(SMALL as int),
        ensures
            v.x == row_times(self.m00, self.m01, self.m02, self.m03, rhs),
            v.y == row_times(self.m10, self.m11, self.m12, self.m13, rhs),
            v.z == row_times(self.m20, self.m21, self.m22, self.m23, rhs),
            v.w == row_times(self.m30, self.m31, self.m32, self.m33, rhs),
    {
        proof {
            lemma_row_fits(self.m00, self.m01, self.m02, self.m03, rhs);
            lemma_row_fits(self.m10, self.m11, self.m12, self.m13, rhs);
            lemma_row_fits(self.m20, self.m21, self.m22, self.m23, rhs);
            lemma_row_fits(self.m30, self.m31, self.m32, self.m33, rhs);
        }
        let x: i64 = self.m00 * rhs.x + self.m01 * rhs.y + self.m02 * rhs.z + self.m03 * rhs.w;
        let y: i64 = self.m10 * rhs.x + self.m11 * rhs.y + self.m12 * rhs.z + self.m13 * rhs.w;
        let z: i64 = self.m20 * rhs.x + self.m21 * rhs.y + self.m22 * rhs.z + self.m23 * rhs.w;
        let w: i64 = self.m30 * rhs.x + self.m31 * rhs.y + self.m32 * rhs.z + self.m33 * rhs.w;
        Vec4 { x, y, z, w }
    }
}

} // verus!
