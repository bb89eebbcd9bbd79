//! Fixed-point 3D vectors.
//!
//! Components are ticks (see `fixed`): `SCALE` ticks are one world unit.
//! Products of components are scaled back down by `SCALE`, so a unit
//! vector has length close to `SCALE` ticks.

use vstd::prelude::*;
use crate::fixed::{
    SCALE,
    abs,
    trunc_div,
    fdiv,
    is_sqrt,
    mul_fx,
    div_fx,
    scale_down_i128,
    isqrt128,
    lemma_abs_mul,
    lemma_sqrt_le,
    lemma_trunc_div_le,
};

verus! {

/// Coordinates of world geometry stay within this many ticks
/// (a thousand world units), so that matrix products fit in 128 bits.
pub const COORD_LIMIT: i64 = 1_000_000_000;

/// A 3D vector in fixed-point ticks.
#[derive(Debug, Clone, Copy, PartialEq, Eq, Structural)]
pub struct Vec3 {
    pub x: i64,
    pub y: i64,
    pub z: i64,
}

/// All three components within `b` ticks in magnitude.
pub open spec fn in_range(v: Vec3, b: int) -> bool {
    abs(v.x as int) <= b && abs(v.y as int) <= b && abs(v.z as int) <= b
}

/// The squared length of a vector, in square ticks.
pub open spec fn len_sq(v: Vec3) -> int {
    v.x * v.x + v.y * v.y + v.z * v.z
}

/// The fixed-point dot product of two vectors.
pub open spec fn dot_spec(a: Vec3, b: Vec3) -> int {
    trunc_div(a.x * b.x + a.y * b.y + a.z * b.z, SCALE as int)
}

/// The fixed-point cross product, componentwise.
pub open spec fn cross_spec(a: Vec3, b: Vec3) -> Vec3 {
    Vec3 {
        x: trunc_div(a.y * b.z - a.z * b.y, SCALE as int) as i64,
        y: trunc_div(a.z * b.x - a.x * b.z, SCALE as int) as i64,
        z: trunc_div(a.x * b.y - a.y * b.x, SCALE as int) as i64,
    }
}

/// `r` is the fixed-point cross product of `a` and `b`.
pub open spec fn is_cross_of(a: Vec3, b: Vec3, r: Vec3) -> bool {
    &&& r.x as int == trunc_div(a.y * b.z - a.z * b.y, SCALE as int)
    &&& r.y as int == trunc_div(a.z * b.x - a.x * b.z, SCALE as int)
    &&& r.z as int == trunc_div(a.x * b.y - a.y * b.x, SCALE as int)
}

/// `r` is `v` scaled by `SCALE` over the floor of its length: the
/// fixed-point unit vector along `v`.
pub open spec fn is_normalized_of(v: Vec3, r: Vec3) -> bool {
    exists|len: int|
        {
            &&& #[trigger] is_sqrt(len_sq(v), len)
            &&& len >= 1
            &&& r.x as int == fdiv(v.x as int, len)
            &&& r.y as int == fdiv(v.y as int, len)
            &&& r.z as int == fdiv(v.z as int, len)
        }
}

impl Vec3 {
    /// Creates a vector from its components.
    pub fn new(x: i64, y: i64, z: i64) -> (v: Self)
        ensures
            v == (Vec3 { x, y, z }),
    {
        Vec3 { x, y, z }
    }

    /// The zero vector.
    pub fn zero() -> (v: Self)
        ensures
            v == (Vec3 { x: 0i64, y: 0i64, z: 0i64 }),
    {
        Vec3 { x: 0, y: 0, z: 0 }
    }

    /// The unit vector along the X axis.
    pub fn unit_x() -> (v: Self)
        ensures
            v == (Vec3 { x: SCALE, y: 0i64, z: 0i64 }),
    {
        Vec3 { x: SCALE, y: 0, z: 0 }
    }

    /// The unit vector along the Y axis.
    pub fn unit_y() -> (v: Self)
        ensures
            v == (Vec3 { x: 0i64, y: SCALE, z: 0i64 }),
    {
        Vec3 { x: 0, y: SCALE, z: 0 }
    }

    /// The unit vector along the Z axis.
    pub fn unit_z() -> (v: Self)
        ensures
            v == (Vec3 { x: 0i64, y: 0i64, z: SCALE }),
    {
        Vec3 { x: 0, y: 0, z: SCALE }
    }

    /// Componentwise sum.
    pub fn add(self, o: Vec3) -> (r: Vec3)
        requires
            abs(self.x + o.x) <= i64::MAX,
            abs(self.y + o.y) <= i64::MAX,
            abs(self.z + o.z) <= i64::MAX,
        ensures
            r.x == self.x + o.x && r.y == self.y + o.y && r.z == self.z + o.z,
    {
        Vec3 { x: self.x + o.x, y: self.y + o.y, z: self.z + o.z }
    }

    /// Componentwise difference.
    pub fn sub(self, o: Vec3) -> (r: Vec3)
        requires
            abs(self.x - o.x) <= i64::MAX,
            abs(self.y - o.y) <= i64::MAX,
            abs(self.z - o.z) <= i64::MAX,
        ensures
            r.x == self.x - o.x && r.y == self.y - o.y && r.z == self.z - o.z,
    {
        Vec3 { x: self.x - o.x, y: self.y - o.y, z: self.z - o.z }
    }

    /// Componentwise negation.
    pub fn neg(self) -> (r: Vec3)
        requires
            self.x > i64::MIN && self.y > i64::MIN && self.z > i64::MIN,
        ensures
            r.x == -self.x && r.y == -self.y && r.z == -self.z,
    {
        Vec3 { x: -self.x, y: -self.y, z: -self.z }
    }

    /// Componentwise minimum.
    pub fn min(self, o: Vec3) -> (r: Vec3)
        ensures
            r.x == if self.x <= o.x {
                self.x
            } else {
                o.x
            },
            r.y == if self.y <= o.y {
                self.y
            } else {
                o.y
            },
            r.z == if self.z <= o.z {
                self.z
            } else {
                o.z
            },
    {
        Vec3 {
            x: if self.x <= o.x {
                self.x
            } else {
                o.x
            },
            y: if self.y <= o.y {
                self.y
            } else {
                o.y
            },
            z: if self.z <= o.z {
                self.z
            } else {
                o.z
            },
        }
    }

    /// Componentwise maximum.
    pub fn max(self, o: Vec3) -> (r: Vec3)
        ensures
            r.x == if self.x >= o.x {
                self.x
            } else {
                o.x
            },
            r.y == if self.y >= o.y {
                self.y
            } else {
                o.y
            },
            r.z == if self.z >= o.z {
                self.z
            } else {
                o.z
            },
    {
        Vec3 {
            x: if self.x >= o.x {
                self.x
            } else {
                o.x
            },
            y: if self.y >= o.y {
                self.y
            } else {
                o.y
            },
            z: if self.z >= o.z {
                self.z
            } else {
                o.z
            },
        }
    }

    /// Scales every component by the fixed-point factor `s`.
    pub fn scale(self, s: i64) -> (r: Vec3)
        requires
            abs(self.x as int) * abs(s as int) <= i64::MAX * (SCALE as int),
            abs(self.y as int) * abs(s as int) <= i64::MAX * (SCALE as int),
            abs(self.z as int) * abs(s as int) <= i64::MAX * (SCALE as int),
        ensures
            r.x as int == crate::fixed::fmul(self.x as int, s as int),
            r.y as int == crate::fixed::fmul(self.y as int, s as int),
            r.z as int == crate::fixed::fmul(self.z as int, s as int),
            abs(r.x as int) == abs(self.x as int) * abs(s as int) / (SCALE as int),
            abs(r.y as int) == abs(self.y as int) * abs(s as int) / (SCALE as int),
            abs(r.z as int) == abs(self.z as int) * abs(s as int) / (SCALE as int),
    {
        Vec3 { x: mul_fx(self.x, s), y: mul_fx(self.y, s), z: mul_fx(self.z, s) }
    }

    /// Sum of the squares of the components, exactly, in square ticks.
    pub fn length_sq(self) -> (r: u128)
        requires
            in_range(self, 5_000_000_000int),
        ensures
            r as int == len_sq(self),
            r <= 75000000000000000000u128,
    {
        proof {
            lemma_sq_bound(self.x as int, 5_000_000_000int);
            lemma_sq_bound(self.y as int, 5_000_000_000int);
            lemma_sq_bound(self.z as int, 5_000_000_000int);
        }
        let xx: i128 = (self.x as i128) * (self.x as i128);
        let yy: i128 = (self.y as i128) * (self.y as i128);
        let zz: i128 = (self.z as i128) * (self.z as i128);
        (xx + yy + zz) as u128
    }

    /// Length in ticks: the floor square root of the squared length.
    pub fn length(self) -> (r: i64)
        requires
            in_range(self, 5_000_000_000int),
        ensures
            is_sqrt(len_sq(self), r as int),
            0 <= r <= 9000000000,
            abs(self.x as int) <= r && abs(self.y as int) <= r && abs(self.z as int) <= r,
    {
        let sq: u128 = self.length_sq();
        let r: u64 = isqrt128(sq);
        proof {
            let s = len_sq(self);
            lemma_sq_bound(self.x as int, 5_000_000_000int);
            lemma_sq_bound(self.y as int, 5_000_000_000int);
            lemma_sq_bound(self.z as int, 5_000_000_000int);
            assert(r <= 9000000000) by (nonlinear_arith)
                requires
                    r as int * r as int <= 75000000000000000000int,
                    r >= 0,
            ;
            lemma_component_le_sqrt(self.x as int, s, r as int);
            lemma_component_le_sqrt(self.y as int, s, r as int);
            lemma_component_le_sqrt(self.z as int, s, r as int);
        }
        r as i64
    }

    /// Dot product, scaled back to ticks.
    pub fn dot(self, o: Vec3) -> (r: i64)
        requires
            in_range(self, 4000000000int),
            in_range(o, 4000000000int),
        ensures
            r as int == dot_spec(self, o),
            abs(r as int) <= abs(self.x * o.x + self.y * o.y + self.z * o.z) / (SCALE as int),
    {
        proof {
            lemma_prod_bound(self.x as int, o.x as int, 4000000000int);
            lemma_prod_bound(self.y as int, o.y as int, 4000000000int);
            lemma_prod_bound(self.z as int, o.z as int, 4000000000int);
        }
        let p: i128 = (self.x as i128) * (o.x as i128) + (self.y as i128) * (o.y as i128) + (
        self.z as i128) * (o.z as i128);
        proof {
            assert(abs(p as int) <= 3 * 16000000000000000000int);
            assert(3 * 16000000000000000000int <= i64::MAX * (SCALE as int));
        }
        scale_down_i128(p, SCALE as i128)
    }

    /// Cross product, scaled back to ticks.
    pub fn cross(self, o: Vec3) -> (r: Vec3)
        requires
            in_range(self, 4000000000int),
            in_range(o, 4000000000int),
        ensures
            is_cross_of(self, o, r),
            in_range(r, 32000000000000int),
            in_range(self, SCALE as int) && in_range(o, SCALE as int) ==> in_range(
                r,
                2 * SCALE as int,
            ),
    {
        proof {
            lemma_prod_bound(self.x as int, o.x as int, 4000000000int);
            lemma_prod_bound(self.y as int, o.y as int, 4000000000int);
            lemma_prod_bound(self.z as int, o.z as int, 4000000000int);
            lemma_prod_bound(self.x as int, o.y as int, 4000000000int);
            lemma_prod_bound(self.y as int, o.z as int, 4000000000int);
            lemma_prod_bound(self.z as int, o.x as int, 4000000000int);
            lemma_prod_bound(self.x as int, o.z as int, 4000000000int);
            lemma_prod_bound(self.y as int, o.x as int, 4000000000int);
            lemma_prod_bound(self.z as int, o.y as int, 4000000000int);
        }
        let px: i128 = (self.y as i128) * (o.z as i128) - (self.z as i128) * (o.y as i128);
        let py: i128 = (self.z as i128) * (o.x as i128) - (self.x as i128) * (o.z as i128);
        let pz: i128 = (self.x as i128) * (o.y as i128) - (self.y as i128) * (o.x as i128);
        let rx: i64 = scale_down_i128(px, SCALE as i128);
        let ry: i64 = scale_down_i128(py, SCALE as i128);
        let rz: i64 = scale_down_i128(pz, SCALE as i128);
        proof {
            if in_range(self, SCALE as int) && in_range(o, SCALE as int) {
                lemma_prod_bound(self.x as int, o.x as int, SCALE as int);
                lemma_prod_bound(self.y as int, o.y as int, SCALE as int);
                lemma_prod_bound(self.z as int, o.z as int, SCALE as int);
                lemma_prod_bound(self.x as int, o.y as int, SCALE as int);
                lemma_prod_bound(self.y as int, o.z as int, SCALE as int);
                lemma_prod_bound(self.z as int, o.x as int, SCALE as int);
                lemma_prod_bound(self.x as int, o.z as int, SCALE as int);
                lemma_prod_bound(self.y as int, o.x as int, SCALE as int);
                lemma_prod_bound(self.z as int, o.y as int, SCALE as int);
                assert(abs(px as int) <= 2 * (SCALE as int) * (SCALE as int) && abs(py as int) <= 2
                    * (SCALE as int) * (SCALE as int) && abs(pz as int) <= 2 * (SCALE as int) * (
                SCALE as int)) by (nonlinear_arith)
                    requires
                        abs(px as int) <= abs(self.y * o.z) + abs(self.z * o.y),
                        abs(py as int) <= abs(self.z * o.x) + abs(self.x * o.z),
                        abs(pz as int) <= abs(self.x * o.y) + abs(self.y * o.x),
                        abs(self.y * o.z) <= (SCALE as int) * (SCALE as int),
                        abs(self.z * o.y) <= (SCALE as int) * (SCALE as int),
                        abs(self.z * o.x) <= (SCALE as int) * (SCALE as int),
                        abs(self.x * o.z) <= (SCALE as int) * (SCALE as int),
                        abs(self.x * o.y) <= (SCALE as int) * (SCALE as int),
                        abs(self.y * o.x) <= (SCALE as int) * (SCALE as int),
                ;
                vstd::arithmetic::div_mod::lemma_div_is_ordered(
                    abs(px as int),
                    2 * (SCALE as int) * (SCALE as int),
                    SCALE as int,
                );
                vstd::arithmetic::div_mod::lemma_div_is_ordered(
                    abs(py as int),
                    2 * (SCALE as int) * (SCALE as int),
                    SCALE as int,
                );
                vstd::arithmetic::div_mod::lemma_div_is_ordered(
                    abs(pz as int),
                    2 * (SCALE as int) * (SCALE as int),
                    SCALE as int,
                );
                assert(2 * (SCALE as int) * (SCALE as int) / (SCALE as int) == 2 * (
                SCALE as int)) by (nonlinear_arith);
            }
        }
        Vec3 { x: rx, y: ry, z: rz }
    }

    /// Scales the vector so that its length is close to one unit.
    /// The result's components are the fixed-point quotients of the
    /// original components by the floor length.
    pub fn normalize(self) -> (r: Vec3)
        requires
            in_range(self, 5_000_000_000int),
            len_sq(self) >= 1,
        ensures
            is_normalized_of(self, r),
            in_range(r, SCALE as int),
    {
        let len: i64 = self.length();
        proof {
            assert(len >= 1) by (nonlinear_arith)
                requires
                    (len as int + 1) * (len as int + 1) > len_sq(self),
                    len_sq(self) >= 1,
                    len >= 0,
            ;
            lemma_fdiv_unit(self.x as int, len as int);
            lemma_fdiv_unit(self.y as int, len as int);
            lemma_fdiv_unit(self.z as int, len as int);
        }
        let r = Vec3 {
            x: div_fx(self.x, len),
            y: div_fx(self.y, len),
            z: div_fx(self.z, len),
        };
        proof {
            let s = len_sq(self);
            assert(is_sqrt(s, len as int) && len >= 1 && r.x as int == fdiv(self.x as int, len as int)
                && r.y as int == fdiv(self.y as int, len as int) && r.z as int == fdiv(
                self.z as int,
                len as int,
            ));
            assert(is_normalized_of(self, r));
        }
        r
    }
}

/// The square of a bounded value is bounded by the square of the bound.
proof fn lemma_sq_bound(a: int, b: int)
    requires
        abs(a) <= b,
    ensures
        0 <= a * a <= b * b,
{
    assert(0 <= a * a) by (nonlinear_arith);
    assert(a * a <= b * b) by (nonlinear_arith)
        requires
            abs(a) <= b,
    ;
}

/// A product of bounded values is bounded by the square of the bound.
proof fn lemma_prod_bound(a: int, b: int, m: int)
    requires
        abs(a) <= m,
        abs(b) <= m,
        m >= 0,
    ensures
        abs(a * b) <= m * m,
{
    lemma_abs_mul(a, b);
    assert(abs(a) * abs(b) <= m * m) by (nonlinear_arith)
        requires
            0 <= abs(a) <= m,
            0 <= abs(b) <= m,
    ;
}

/// Each component of a vector is at most the floor square root of the
/// squared length.
proof fn lemma_component_le_sqrt(c: int, s: int, r: int)
    requires
        c * c <= s,
        is_sqrt(s, r),
    ensures
        abs(c) <= r,
{
    assert(abs(c) * abs(c) == c * c) by (nonlinear_arith);
    assert(is_sqrt(c * c, abs(c))) by (nonlinear_arith);
    lemma_sqrt_le(c * c, s, abs(c), r);
}

/// A bound on the fixed-point dot product from componentwise bounds.
pub proof fn lemma_dot_range(a: Vec3, b: Vec3, ba: int, bb: int)
    requires
        in_range(a, ba),
        in_range(b, bb),
        ba >= 0,
        bb >= 0,
    ensures
        abs(dot_spec(a, b)) <= 3 * ba * bb / (SCALE as int),
        abs(dot_spec(a, b)) <= 3 * ba * bb,
{
    lemma_prod_bound(a.x as int, b.x as int, if ba >= bb { ba } else { bb });
    lemma_abs_mul(a.x as int, b.x as int);
    lemma_abs_mul(a.y as int, b.y as int);
    lemma_abs_mul(a.z as int, b.z as int);
    assert(abs(a.x as int) * abs(b.x as int) <= ba * bb && abs(a.y as int) * abs(b.y as int) <= ba
        * bb && abs(a.z as int) * abs(b.z as int) <= ba * bb) by (nonlinear_arith)
        requires
            0 <= abs(a.x as int) <= ba,
            0 <= abs(a.y as int) <= ba,
            0 <= abs(a.z as int) <= ba,
            0 <= abs(b.x as int) <= bb,
            0 <= abs(b.y as int) <= bb,
            0 <= abs(b.z as int) <= bb,
    ;
    assert(3 * ba * bb == ba * bb + ba * bb + ba * bb) by (nonlinear_arith);
    let s = a.x * b.x + a.y * b.y + a.z * b.z;
    assert(abs(s) <= 3 * ba * bb);
    lemma_trunc_div_le(s, SCALE as int);
    vstd::arithmetic::div_mod::lemma_div_is_ordered(abs(s), 3 * ba * bb, SCALE as int);
    assert(abs(s) / (SCALE as int) <= abs(s)) by (nonlinear_arith)
        requires
            abs(s) >= 0,
    ;
}

/// Dividing a component by a floor length at least as large keeps it
/// within one unit.
proof fn lemma_fdiv_unit(c: int, len: int)
    requires
        len >= 1,
        abs(c) <= len,
    ensures
        abs(fdiv(c, len)) <= SCALE as int,
        i64::MIN <= fdiv(c, len) <= i64::MAX,
        abs(c) * (SCALE as int) <= i64::MAX * abs(len),
{
    lemma_abs_mul(c, SCALE as int);
    lemma_trunc_div_le(c * SCALE, len);
    assert(abs(c) * (SCALE as int) / abs(len) <= SCALE as int) by (nonlinear_arith)
        requires
            0 <= abs(c) <= len,
            1 <= len,
    ;
    assert(abs(c * SCALE) == abs(c) * (SCALE as int));
    assert(abs(c) * (SCALE as int) <= i64::MAX * len) by (nonlinear_arith)
        requires
            0 <= abs(c) <= len,
            1 <= len,
            SCALE < i64::MAX,
    ;
}

} // verus!
