//! Fixed-point 4x4 matrices, row-major.
//!
//! Entries are ticks (see `fixed`), so a matrix stands for the real
//! matrix of its entries divided by `SCALE`. A product of entries is
//! scaled back down by `SCALE`, exactly as `row_dot_spec` states.

use vstd::prelude::*;
use crate::fixed::{SCALE, abs, trunc_div, lemma_abs_mul, scale_down_i128};
use crate::vec3::Vec3;

verus! {

/// A 4x4 matrix of fixed-point ticks, row-major: `mRC` is row R, column C.
#[derive(Debug, Clone, Copy, PartialEq, Eq, Structural)]
pub struct Mat4 {
    pub m00: i64,
    pub m01: i64,
    pub m02: i64,
    pub m03: i64,
    pub m10: i64,
    pub m11: i64,
    pub m12: i64,
    pub m13: i64,
    pub m20: i64,
    pub m21: i64,
    pub m22: i64,
    pub m23: i64,
    pub m30: i64,
    pub m31: i64,
    pub m32: i64,
    pub m33: i64,
}

/// Every entry within `b` ticks in magnitude.
pub open spec fn bounded(m: Mat4, b: int) -> bool {
    &&& abs(m.m00 as int) <= b && abs(m.m01 as int) <= b && abs(m.m02 as int) <= b && abs(
        m.m03 as int,
    ) <= b
    &&& abs(m.m10 as int) <= b && abs(m.m11 as int) <= b && abs(m.m12 as int) <= b && abs(
        m.m13 as int,
    ) <= b
    &&& abs(m.m20 as int) <= b && abs(m.m21 as int) <= b && abs(m.m22 as int) <= b && abs(
        m.m23 as int,
    ) <= b
    &&& abs(m.m30 as int) <= b && abs(m.m31 as int) <= b && abs(m.m32 as int) <= b && abs(
        m.m33 as int,
    ) <= b
}

/// The fixed-point inner product of a row and a column.
pub open spec fn row_dot_spec(
    a0: int,
    a1: int,
    a2: int,
    a3: int,
    x0: int,
    x1: int,
    x2: int,
    x3: int,
) -> int {
    trunc_div(a0 * x0 + a1 * x1 + a2 * x2 + a3 * x3, SCALE as int)
}

/// The fixed-point matrix product, entry by entry.
pub open spec fn mul_spec(a: Mat4, b: Mat4) -> Mat4 {
    Mat4 {
        m00: row_dot_spec(
            a.m00 as int,
            a.m01 as int,
            a.m02 as int,
            a.m03 as int,
            b.m00 as int,
            b.m10 as int,
            b.m20 as int,
            b.m30 as int,
        ) as i64,
        m01: row_dot_spec(
            a.m00 as int,
            a.m01 as int,
            a.m02 as int,
            a.m03 as int,
            b.m01 as int,
            b.m11 as int,
            b.m21 as int,
            b.m31 as int,
        ) as i64,
        m02: row_dot_spec(
            a.m00 as int,
            a.m01 as int,
            a.m02 as int,
            a.m03 as int,
            b.m02 as int,
            b.m12 as int,
            b.m22 as int,
            b.m32 as int,
        ) as i64,
        m03: row_dot_spec(
            a.m00 as int,
            a.m01 as int,
            a.m02 as int,
            a.m03 as int,
            b.m03 as int,
            b.m13 as int,
            b.m23 as int,
            b.m33 as int,
        ) as i64,
        m10: row_dot_spec(
            a.m10 as int,
            a.m11 as int,
            a.m12 as int,
            a.m13 as int,
            b.m00 as int,
            b.m10 as int,
            b.m20 as int,
            b.m30 as int,
        ) as i64,
        m11: row_dot_spec(
            a.m10 as int,
            a.m11 as int,
            a.m12 as int,
            a.m13 as int,
            b.m01 as int,
            b.m11 as int,
            b.m21 as int,
            b.m31 as int,
        ) as i64,
        m12: row_dot_spec(
            a.m10 as int,
            a.m11 as int,
            a.m12 as int,
            a.m13 as int,
            b.m02 as int,
            b.m12 as int,
            b.m22 as int,
            b.m32 as int,
        ) as i64,
        m13: row_dot_spec(
            a.m10 as int,
            a.m11 as int,
            a.m12 as int,
            a.m13 as int,
            b.m03 as int,
            b.m13 as int,
            b.m23 as int,
            b.m33 as int,
        ) as i64,
        m20: row_dot_spec(
            a.m20 as int,
            a.m21 as int,
            a.m22 as int,
            a.m23 as int,
            b.m00 as int,
            b.m10 as int,
            b.m20 as int,
            b.m30 as int,
        ) as i64,
        m21: row_dot_spec(
            a.m20 as int,
            a.m21 as int,
            a.m22 as int,
            a.m23 as int,
            b.m01 as int,
            b.m11 as int,
            b.m21 as int,
            b.m31 as int,
        ) as i64,
        m22: row_dot_spec(
            a.m20 as int,
            a.m21 as int,
            a.m22 as int,
            a.m23 as int,
            b.m02 as int,
            b.m12 as int,
            b.m22 as int,
            b.m32 as int,
        ) as i64,
        m23: row_dot_spec(
            a.m20 as int,
            a.m21 as int,
            a.m22 as int,
            a.m23 as int,
            b.m03 as int,
            b.m13 as int,
            b.m23 as int,
            b.m33 as int,
        ) as i64,
        m30: row_dot_spec(
            a.m30 as int,
            a.m31 as int,
            a.m32 as int,
            a.m33 as int,
            b.m00 as int,
            b.m10 as int,
            b.m20 as int,
            b.m30 as int,
        ) as i64,
        m31: row_dot_spec(
            a.m30 as int,
            a.m31 as int,
            a.m32 as int,
            a.m33 as int,
            b.m01 as int,
            b.m11 as int,
            b.m21 as int,
            b.m31 as int,
        ) as i64,
        m32: row_dot_spec(
            a.m30 as int,
            a.m31 as int,
            a.m32 as int,
            a.m33 as int,
            b.m02 as int,
            b.m12 as int,
            b.m22 as int,
            b.m32 as int,
        ) as i64,
        m33: row_dot_spec(
            a.m30 as int,
            a.m31 as int,
            a.m32 as int,
            a.m33 as int,
            b.m03 as int,
            b.m13 as int,
            b.m23 as int,
            b.m33 as int,
        ) as i64,
    }
}

/// A bound on one fixed-point inner product from bounds on its factors.
proof fn lemma_row_dot_bound(
    a0: int,
    a1: int,
    a2: int,
    a3: int,
    x0: int,
    x1: int,
    x2: int,
    x3: int,
    ba: int,
    bx: int,
)
    requires
        abs(a0) <= ba && abs(a1) <= ba && abs(a2) <= ba && abs(a3) <= ba,
        abs(x0) <= bx && abs(x1) <= bx && abs(x2) <= bx && abs(x3) <= bx,
        ba >= 0,
        bx >= 0,
    ensures
        abs(a0 * x0) + abs(a1 * x1) + abs(a2 * x2) + abs(a3 * x3) <= 4 * ba * bx,
        abs(row_dot_spec(a0, a1, a2, a3, x0, x1, x2, x3)) <= 4 * ba * bx / (SCALE as int),
{
    lemma_abs_mul(a0, x0);
    lemma_abs_mul(a1, x1);
    lemma_abs_mul(a2, x2);
    lemma_abs_mul(a3, x3);
    assert(abs(a0) * abs(x0) <= ba * bx && abs(a1) * abs(x1) <= ba * bx && abs(a2) * abs(x2) <= ba
        * bx && abs(a3) * abs(x3) <= ba * bx) by (nonlinear_arith)
        requires
            0 <= abs(a0) <= ba,
            0 <= abs(a1) <= ba,
            0 <= abs(a2) <= ba,
            0 <= abs(a3) <= ba,
            0 <= abs(x0) <= bx,
            0 <= abs(x1) <= bx,
            0 <= abs(x2) <= bx,
            0 <= abs(x3) <= bx,
    ;
    assert(4 * ba * bx == ba * bx + ba * bx + ba * bx + ba * bx) by (nonlinear_arith);
    let s = a0 * x0 + a1 * x1 + a2 * x2 + a3 * x3;
    assert(abs(s) <= abs(a0 * x0) + abs(a1 * x1) + abs(a2 * x2) + abs(a3 * x3));
    crate::fixed::lemma_trunc_div_le(s, SCALE as int);
    vstd::arithmetic::div_mod::lemma_div_is_ordered(abs(s), 4 * ba * bx, SCALE as int);
}

/// Computes the fixed-point inner product of a row and a column.
fn row_dot(
    a0: i64,
    a1: i64,
    a2: i64,
    a3: i64,
    x0: i64,
    x1: i64,
    x2: i64,
    x3: i64,
) -> (r: i64)
    requires
        abs(a0 as int * x0) + abs(a1 as int * x1) + abs(a2 as int * x2) + abs(a3 as int * x3)
            <= i64::MAX * (SCALE as int),
    ensures
        r as int == row_dot_spec(
            a0 as int,
            a1 as int,
            a2 as int,
            a3 as int,
            x0 as int,
            x1 as int,
            x2 as int,
            x3 as int,
        ),
        abs(r as int) <= (abs(a0 as int * x0) + abs(a1 as int * x1) + abs(a2 as int * x2) + abs(
            a3 as int * x3,
        )) / (SCALE as int),
{
    let p0: i128 = (a0 as i128) * (x0 as i128);
    let p1: i128 = (a1 as i128) * (x1 as i128);
    let p2: i128 = (a2 as i128) * (x2 as i128);
    let p3: i128 = (a3 as i128) * (x3 as i128);
    let s: i128 = p0 + p1 + p2 + p3;
    proof {
        let total = abs(a0 as int * x0) + abs(a1 as int * x1) + abs(a2 as int * x2) + abs(
            a3 as int * x3,
        );
        assert(abs(s as int) <= total);
        vstd::arithmetic::div_mod::lemma_div_is_ordered(
            abs(s as int),
            total,
            SCALE as int,
        );
    }
    scale_down_i128(s, SCALE as i128)
}

impl Mat4 {
    /// The matrix of all zero entries.
    pub fn zero() -> (m: Mat4)
        ensures
            m == zero_spec(),
    {
        Mat4 {
            m00: 0,
            m01: 0,
            m02: 0,
            m03: 0,
            m10: 0,
            m11: 0,
            m12: 0,
            m13: 0,
            m20: 0,
            m21: 0,
            m22: 0,
            m23: 0,
            m30: 0,
            m31: 0,
            m32: 0,
            m33: 0,
        }
    }

    /// The fixed-point matrix product `self * o`.
    ///
    /// The left factor is sized like a projection matrix, the right one
    /// like a view matrix; the bounds keep each inner product within
    /// 64 bits.
    pub fn mul(&self, o: &Mat4) -> (r: Mat4)
        requires
            bounded(*self, 2_000_000_000_000int),
            bounded(*o, 20_000_000_000int),
        ensures
            r == mul_spec(*self, *o),
            bounded(r, 160_000_000_000_000_000int),
    {
        proof {
            lemma_row_dot_bound(self.m00 as int, self.m01 as int, self.m02 as int, self.m03 as int, o.m00 as int, o.m10 as int, o.m20 as int, o.m30 as int, 2_000_000_000_000int, 20_000_000_000int);
            lemma_row_dot_bound(self.m00 as int, self.m01 as int, self.m02 as int, self.m03 as int, o.m01 as int, o.m11 as int, o.m21 as int, o.m31 as int, 2_000_000_000_000int, 20_000_000_000int);
            lemma_row_dot_bound(self.m00 as int, self.m01 as int, self.m02 as int, self.m03 as int, o.m02 as int, o.m12 as int, o.m22 as int, o.m32 as int, 2_000_000_000_000int, 20_000_000_000int);
            lemma_row_dot_bound(self.m00 as int, self.m01 as int, self.m02 as int, self.m03 as int, o.m03 as int, o.m13 as int, o.m23 as int, o.m33 as int, 2_000_000_000_000int, 20_000_000_000int);
            lemma_row_dot_bound(self.m10 as int, self.m11 as int, self.m12 as int, self.m13 as int, o.m00 as int, o.m10 as int, o.m20 as int, o.m30 as int, 2_000_000_000_000int, 20_000_000_000int);
            lemma_row_dot_bound(self.m10 as int, self.m11 as int, self.m12 as int, self.m13 as int, o.m01 as int, o.m11 as int, o.m21 as int, o.m31 as int, 2_000_000_000_000int, 20_000_000_000int);
            lemma_row_dot_bound(self.m10 as int, self.m11 as int, self.m12 as int, self.m13 as int, o.m02 as int, o.m12 as int, o.m22 as int, o.m32 as int, 2_000_000_000_000int, 20_000_000_000int);
            lemma_row_dot_bound(self.m10 as int, self.m11 as int, self.m12 as int, self.m13 as int, o.m03 as int, o.m13 as int, o.m23 as int, o.m33 as int, 2_000_000_000_000int, 20_000_000_000int);
            lemma_row_dot_bound(self.m20 as int, self.m21 as int, self.m22 as int, self.m23 as int, o.m00 as int, o.m10 as int, o.m20 as int, o.m30 as int, 2_000_000_000_000int, 20_000_000_000int);
            lemma_row_dot_bound(self.m20 as int, self.m21 as int, self.m22 as int, self.m23 as int, o.m01 as int, o.m11 as int, o.m21 as int, o.m31 as int, 2_000_000_000_000int, 20_000_000_000int);
            lemma_row_dot_bound(self.m20 as int, self.m21 as int, self.m22 as int, self.m23 as int, o.m02 as int, o.m12 as int, o.m22 as int, o.m32 as int, 2_000_000_000_000int, 20_000_000_000int);
            lemma_row_dot_bound(self.m20 as int, self.m21 as int, self.m22 as int, self.m23 as int, o.m03 as int, o.m13 as int, o.m23 as int, o.m33 as int, 2_000_000_000_000int, 20_000_000_000int);
            lemma_row_dot_bound(self.m30 as int, self.m31 as int, self.m32 as int, self.m33 as int, o.m00 as int, o.m10 as int, o.m20 as int, o.m30 as int, 2_000_000_000_000int, 20_000_000_000int);
            lemma_row_dot_bound(self.m30 as int, self.m31 as int, self.m32 as int, self.m33 as int, o.m01 as int, o.m11 as int, o.m21 as int, o.m31 as int, 2_000_000_000_000int, 20_000_000_000int);
            lemma_row_dot_bound(self.m30 as int, self.m31 as int, self.m32 as int, self.m33 as int, o.m02 as int, o.m12 as int, o.m22 as int, o.m32 as int, 2_000_000_000_000int, 20_000_000_000int);
            lemma_row_dot_bound(self.m30 as int, self.m31 as int, self.m32 as int, self.m33 as int, o.m03 as int, o.m13 as int, o.m23 as int, o.m33 as int, 2_000_000_000_000int, 20_000_000_000int);
        }
        Mat4 {
            m00: row_dot(self.m00, self.m01, self.m02, self.m03, o.m00, o.m10, o.m20, o.m30),
            m01: row_dot(self.m00, self.m01, self.m02, self.m03, o.m01, o.m11, o.m21, o.m31),
            m02: row_dot(self.m00, self.m01, self.m02, self.m03, o.m02, o.m12, o.m22, o.m32),
            m03: row_dot(self.m00, self.m01, self.m02, self.m03, o.m03, o.m13, o.m23, o.m33),
            m10: row_dot(self.m10, self.m11, self.m12, self.m13, o.m00, o.m10, o.m20, o.m30),
            m11: row_dot(self.m10, self.m11, self.m12, self.m13, o.m01, o.m11, o.m21, o.m31),
            m12: row_dot(self.m10, self.m11, self.m12, self.m13, o.m02, o.m12, o.m22, o.m32),
            m13: row_dot(self.m10, self.m11, self.m12, self.m13, o.m03, o.m13, o.m23, o.m33),
            m20: row_dot(self.m20, self.m21, self.m22, self.m23, o.m00, o.m10, o.m20, o.m30),
            m21: row_dot(self.m20, self.m21, self.m22, self.m23, o.m01, o.m11, o.m21, o.m31),
            m22: row_dot(self.m20, self.m21, self.m22, self.m23, o.m02, o.m12, o.m22, o.m32),
            m23: row_dot(self.m20, self.m21, self.m22, self.m23, o.m03, o.m13, o.m23, o.m33),
            m30: row_dot(self.m30, self.m31, self.m32, self.m33, o.m00, o.m10, o.m20, o.m30),
            m31: row_dot(self.m30, self.m31, self.m32, self.m33, o.m01, o.m11, o.m21, o.m31),
            m32: row_dot(self.m30, self.m31, self.m32, self.m33, o.m02, o.m12, o.m22, o.m32),
            m33: row_dot(self.m30, self.m31, self.m32, self.m33, o.m03, o.m13, o.m23, o.m33),
        }
    }
}

/// The x clip coordinate of a point run through a matrix, with the
/// homogeneous w component fixed at one unit.
pub open spec fn clip_x_spec(m: Mat4, v: Vec3) -> int {
    row_dot_spec(
        m.m00 as int,
        m.m01 as int,
        m.m02 as int,
        m.m03 as int,
        v.x as int,
        v.y as int,
        v.z as int,
        SCALE as int,
    )
}

/// The y clip coordinate.
pub open spec fn clip_y_spec(m: Mat4, v: Vec3) -> int {
    row_dot_spec(
        m.m10 as int,
        m.m11 as int,
        m.m12 as int,
        m.m13 as int,
        v.x as int,
        v.y as int,
        v.z as int,
        SCALE as int,
    )
}

/// The z clip coordinate.
pub open spec fn clip_z_spec(m: Mat4, v: Vec3) -> int {
    row_dot_spec(
        m.m20 as int,
        m.m21 as int,
        m.m22 as int,
        m.m23 as int,
        v.x as int,
        v.y as int,
        v.z as int,
        SCALE as int,
    )
}

/// The homogeneous w clip coordinate.
pub open spec fn clip_w_spec(m: Mat4, v: Vec3) -> int {
    row_dot_spec(
        m.m30 as int,
        m.m31 as int,
        m.m32 as int,
        m.m33 as int,
        v.x as int,
        v.y as int,
        v.z as int,
        SCALE as int,
    )
}

/// A bound on a clip coordinate from bounds on the matrix and the point.
proof fn lemma_clip_bound(
    a0: int,
    a1: int,
    a2: int,
    a3: int,
    x0: int,
    x1: int,
    x2: int,
    x3: int,
)
    requires
        abs(a0) <= 200_000_000_000_000_000,
        abs(a1) <= 200_000_000_000_000_000,
        abs(a2) <= 200_000_000_000_000_000,
        abs(a3) <= 200_000_000_000_000_000,
        abs(x0) <= 1_000_000_000,
        abs(x1) <= 1_000_000_000,
        abs(x2) <= 1_000_000_000,
        abs(x3) <= 1_000_000_000,
    ensures
        abs(a0 * x0) <= 200_000_000_000_000_000_000_000_000int,
        abs(a1 * x1) <= 200_000_000_000_000_000_000_000_000int,
        abs(a2 * x2) <= 200_000_000_000_000_000_000_000_000int,
        abs(a3 * x3) <= 200_000_000_000_000_000_000_000_000int,
        abs(row_dot_spec(a0, a1, a2, a3, x0, x1, x2, x3)) <= 800_000_000_000_000_000_000int,
{
    lemma_row_dot_bound(a0, a1, a2, a3, x0, x1, x2, x3, 200_000_000_000_000_000int,
        1_000_000_000int);
    lemma_abs_mul(a0, x0);
    lemma_abs_mul(a1, x1);
    lemma_abs_mul(a2, x2);
    lemma_abs_mul(a3, x3);
    assert(abs(a0) * abs(x0) <= 200_000_000_000_000_000_000_000_000int && abs(a1) * abs(x1)
        <= 200_000_000_000_000_000_000_000_000int && abs(a2) * abs(x2)
        <= 200_000_000_000_000_000_000_000_000int && abs(a3) * abs(x3)
        <= 200_000_000_000_000_000_000_000_000int) by (nonlinear_arith)
        requires
            0 <= abs(a0) <= 200_000_000_000_000_000,
            0 <= abs(a1) <= 200_000_000_000_000_000,
            0 <= abs(a2) <= 200_000_000_000_000_000,
            0 <= abs(a3) <= 200_000_000_000_000_000,
            0 <= abs(x0) <= 1_000_000_000,
            0 <= abs(x1) <= 1_000_000_000,
            0 <= abs(x2) <= 1_000_000_000,
            0 <= abs(x3) <= 1_000_000_000,
    ;
    let s = a0 * x0 + a1 * x1 + a2 * x2 + a3 * x3;
    crate::fixed::lemma_trunc_div_le(s, SCALE as int);
    vstd::arithmetic::div_mod::lemma_div_is_ordered(
        abs(s),
        800_000_000_000_000_000_000_000_000int,
        SCALE as int,
    );
}

impl Mat4 {
    /// Runs a point through the matrix: the four clip coordinates, with
    /// the homogeneous w component of the input fixed at one unit.
    pub fn transform_point(&self, v: Vec3) -> (c: (i128, i128, i128, i128))
        requires
            bounded(*self, 200_000_000_000_000_000int),
            crate::vec3::in_range(v, 1_000_000_000int),
        ensures
            c.0 as int == clip_x_spec(*self, v),
            c.1 as int == clip_y_spec(*self, v),
            c.2 as int == clip_z_spec(*self, v),
            c.3 as int == clip_w_spec(*self, v),
            abs(c.0 as int) <= 800_000_000_000_000_000_000int,
            abs(c.1 as int) <= 800_000_000_000_000_000_000int,
            abs(c.2 as int) <= 800_000_000_000_000_000_000int,
            abs(c.3 as int) <= 800_000_000_000_000_000_000int,
    {
        proof {
            lemma_clip_bound(
                self.m00 as int,
                self.m01 as int,
                self.m02 as int,
                self.m03 as int,
                v.x as int,
                v.y as int,
                v.z as int,
                SCALE as int,
            );
            lemma_clip_bound(
                self.m10 as int,
                self.m11 as int,
                self.m12 as int,
                self.m13 as int,
                v.x as int,
                v.y as int,
                v.z as int,
                SCALE as int,
            );
            lemma_clip_bound(
                self.m20 as int,
                self.m21 as int,
                self.m22 as int,
                self.m23 as int,
                v.x as int,
                v.y as int,
                v.z as int,
                SCALE as int,
            );
            lemma_clip_bound(
                self.m30 as int,
                self.m31 as int,
                self.m32 as int,
                self.m33 as int,
                v.x as int,
                v.y as int,
                v.z as int,
                SCALE as int,
            );
        }
        let cx: i128 = clip_row(self.m00, self.m01, self.m02, self.m03, v);
        let cy: i128 = clip_row(self.m10, self.m11, self.m12, self.m13, v);
        let cz: i128 = clip_row(self.m20, self.m21, self.m22, self.m23, v);
        let cw: i128 = clip_row(self.m30, self.m31, self.m32, self.m33, v);
        (cx, cy, cz, cw)
    }
}

/// One row of `transform_point`.
fn clip_row(a0: i64, a1: i64, a2: i64, a3: i64, v: Vec3) -> (r: i128)
    requires
        abs(a0 as int * v.x) <= 200_000_000_000_000_000_000_000_000int,
        abs(a1 as int * v.y) <= 200_000_000_000_000_000_000_000_000int,
        abs(a2 as int * v.z) <= 200_000_000_000_000_000_000_000_000int,
        abs(a3 as int * SCALE) <= 200_000_000_000_000_000_000_000_000int,
    ensures
        r as int == row_dot_spec(
            a0 as int,
            a1 as int,
            a2 as int,
            a3 as int,
            v.x as int,
            v.y as int,
            v.z as int,
            SCALE as int,
        ),
        abs(r as int) <= 800_000_000_000_000_000_000int,
{
    let s: i128 = (a0 as i128) * (v.x as i128) + (a1 as i128) * (v.y as i128) + (a2 as i128) * (
    v.z as i128) + (a3 as i128) * (SCALE as i128);
    proof {
        crate::fixed::lemma_trunc_div_le(s as int, SCALE as int);
        vstd::arithmetic::div_mod::lemma_div_is_ordered(
            abs(s as int),
            800_000_000_000_000_000_000_000_000int,
            SCALE as int,
        );
    }
    crate::fixed::trunc_div_i128(s, SCALE as i128)
}

/// The zero matrix.
pub open spec fn zero_spec() -> Mat4 {
    Mat4 {
        m00: 0i64,
        m01: 0i64,
        m02: 0i64,
        m03: 0i64,
        m10: 0i64,
        m11: 0i64,
        m12: 0i64,
        m13: 0i64,
        m20: 0i64,
        m21: 0i64,
        m22: 0i64,
        m23: 0i64,
        m30: 0i64,
        m31: 0i64,
        m32: 0i64,
        m33: 0i64,
    }
}

} // verus!
