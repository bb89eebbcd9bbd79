//! Fixed-point scalar arithmetic.
//!
//! A scalar is an `i64` counting ticks of one millionth of a world unit:
//! the value `x` ticks stands for the real number `x / SCALE`. Products
//! and quotients are computed through 128-bit intermediates and truncated
//! toward zero, as `trunc_div` specifies.

use vstd::prelude::*;
use vstd::arithmetic::div_mod::lemma_div_is_ordered;
use vstd::arithmetic::div_mod::lemma_div_multiples_vanish;

verus! {

/// Number of ticks in one world unit.
pub const SCALE: i64 = 1_000_000;

/// Magnitude of an integer.
pub open spec fn abs(a: int) -> int {
    if a >= 0 {
        a
    } else {
        -a
    }
}

/// Quotient of `a` by `b`, truncated toward zero: the rounding that
/// machine division performs.
pub open spec fn trunc_div(a: int, b: int) -> int {
    if (a >= 0) == (b >= 0) {
        abs(a) / abs(b)
    } else {
        -(abs(a) / abs(b))
    }
}

/// A product scaled back down by `SCALE`: the fixed-point product.
pub open spec fn fmul(a: int, b: int) -> int {
    trunc_div(a * b, SCALE as int)
}

/// A quotient scaled up by `SCALE`: the fixed-point quotient.
pub open spec fn fdiv(a: int, b: int) -> int {
    trunc_div(a * SCALE, b)
}

/// The magnitude of a product is the product of the magnitudes.
pub proof fn lemma_abs_mul(a: int, b: int)
    ensures
        abs(a * b) == abs(a) * abs(b),
{
    if a >= 0 && b >= 0 {
        assert(a * b >= 0) by (nonlinear_arith)
            requires
                a >= 0,
                b >= 0,
        ;
    } else if a >= 0 && b < 0 {
        assert(a * b <= 0 && a * (-b) == -(a * b)) by (nonlinear_arith)
            requires
                a >= 0,
                b < 0,
        ;
    } else if a < 0 && b >= 0 {
        assert(a * b <= 0 && (-a) * b == -(a * b)) by (nonlinear_arith)
            requires
                a < 0,
                b >= 0,
        ;
    } else {
        assert(a * b >= 0 && (-a) * (-b) == a * b) by (nonlinear_arith)
            requires
                a < 0,
                b < 0,
        ;
    }
}

/// Truncating division never grows the magnitude of the dividend.
pub proof fn lemma_trunc_div_le(a: int, b: int)
    requires
        b != 0,
    ensures
        abs(trunc_div(a, b)) == abs(a) / abs(b),
        abs(trunc_div(a, b)) <= abs(a),
{
    assert(abs(a) / abs(b) >= 0) by (nonlinear_arith)
        requires
            abs(a) >= 0,
            abs(b) >= 1,
    ;
    assert(abs(a) / abs(b) <= abs(a)) by (nonlinear_arith)
        requires
            abs(a) >= 0,
            abs(b) >= 1,
    ;
}

/// Magnitude of a 64-bit value, exactly.
pub fn abs_i64(a: i64) -> (r: u64)
    ensures
        r as int == abs(a as int),
{
    if a >= 0 {
        a as u64
    } else {
        (-(a as i128)) as u64
    }
}

/// Fixed-point product `a * b / SCALE`, computed through 128 bits.
pub fn mul_fx(a: i64, b: i64) -> (r: i64)
    requires
        abs(a as int) * abs(b as int) <= i64::MAX * (SCALE as int),
    ensures
        r as int == fmul(a as int, b as int),
        abs(r as int) == abs(a as int) * abs(b as int) / (SCALE as int),
{
    let neg: bool = (a < 0) != (b < 0);
    let aa: u128 = abs_i64(a) as u128;
    let bb: u128 = abs_i64(b) as u128;
    proof {
        assert(aa * bb <= 0xffffffffffffffffu128 * 0xffffffffffffffffu128) by (nonlinear_arith)
            requires
                aa <= 0xffffffffffffffffu128,
                bb <= 0xffffffffffffffffu128,
        ;
    }
    let p: u128 = aa * bb;
    let q: u128 = p / (SCALE as u128);
    proof {
        lemma_abs_mul(a as int, b as int);
        assert(p as int == abs(a as int * b as int));
        lemma_div_is_ordered(p as int, i64::MAX * (SCALE as int), SCALE as int);
        lemma_div_multiples_vanish(i64::MAX as int, SCALE as int);
        assert((SCALE as int) * i64::MAX == i64::MAX * (SCALE as int)) by (nonlinear_arith);
        assert(q <= i64::MAX);
    }
    let qi: i64 = q as i64;
    proof {
        if a as int * b as int >= 0 {
            assert(fmul(a as int, b as int) == q as int);
        } else {
            assert(fmul(a as int, b as int) == -(q as int));
        }
        if neg {
            assert(a as int * b as int <= 0) by (nonlinear_arith)
                requires
                    (a < 0) != (b < 0),
            ;
        } else {
            assert(a as int * b as int >= 0) by (nonlinear_arith)
                requires
                    (a < 0) == (b < 0),
            ;
        }
    }
    if neg {
        -qi
    } else {
        qi
    }
}

/// Fixed-point quotient `a * SCALE / b`, computed through 128 bits.
pub fn div_fx(a: i64, b: i64) -> (r: i64)
    requires
        b != 0,
        abs(a as int) * (SCALE as int) <= i64::MAX * abs(b as int),
    ensures
        r as int == fdiv(a as int, b as int),
        abs(r as int) == abs(a as int) * (SCALE as int) / abs(b as int),
{
    let neg: bool = (a < 0) != (b < 0);
    let aa: u128 = abs_i64(a) as u128;
    let bb: u128 = abs_i64(b) as u128;
    proof {
        assert(aa * (SCALE as u128) <= 0xffffffffffffffffu128 * (SCALE as u128))
            by (nonlinear_arith)
            requires
                aa <= 0xffffffffffffffffu128,
        ;
    }
    let p: u128 = aa * (SCALE as u128);
    let q: u128 = p / bb;
    proof {
        lemma_abs_mul(a as int, SCALE as int);
        assert(p as int == abs(a as int * SCALE));
        assert(i64::MAX * abs(b as int) == abs(b as int) * i64::MAX) by (nonlinear_arith);
        lemma_div_is_ordered(p as int, abs(b as int) * i64::MAX, abs(b as int));
        lemma_div_multiples_vanish(i64::MAX as int, abs(b as int));
        assert(q <= i64::MAX);
    }
    let qi: i64 = q as i64;
    proof {
        assert((a as int * SCALE >= 0) == (a as int >= 0)) by (nonlinear_arith)
            requires
                SCALE > 0,
        ;
        if (a as int * SCALE >= 0) == (b as int >= 0) {
            assert(fdiv(a as int, b as int) == q as int);
        } else {
            assert(fdiv(a as int, b as int) == -(q as int));
        }
    }
    if neg {
        -qi
    } else {
        qi
    }
}

/// Scales a 128-bit intermediate down by a positive divisor, truncating
/// toward zero.
pub fn scale_down_i128(p: i128, d: i128) -> (r: i64)
    requires
        d > 0,
        p > i128::MIN,
        abs(p as int) <= i64::MAX * (d as int),
    ensures
        r as int == trunc_div(p as int, d as int),
        abs(r as int) == abs(p as int) / (d as int),
{
    let neg: bool = p < 0;
    let pp: u128 = if p >= 0 {
        p as u128
    } else {
        (-p) as u128
    };
    let dd: u128 = d as u128;
    let q: u128 = pp / dd;
    proof {
        assert(pp as int == abs(p as int));
        assert(i64::MAX * (d as int) == (d as int) * i64::MAX) by (nonlinear_arith);
        lemma_div_is_ordered(pp as int, (d as int) * i64::MAX, d as int);
        lemma_div_multiples_vanish(i64::MAX as int, d as int);
        assert(q <= i64::MAX);
    }
    let qi: i64 = q as i64;
    if neg {
        -qi
    } else {
        qi
    }
}

/// Truncating 128-bit division by a positive divisor.
pub fn trunc_div_i128(p: i128, d: i128) -> (r: i128)
    requires
        d > 0,
        p > i128::MIN,
    ensures
        r as int == trunc_div(p as int, d as int),
        abs(r as int) == abs(p as int) / (d as int),
{
    let neg: bool = p < 0;
    let pp: u128 = if p >= 0 {
        p as u128
    } else {
        (-p) as u128
    };
    let dd: u128 = d as u128;
    let q: u128 = pp / dd;
    proof {
        assert(pp as int == abs(p as int));
        lemma_trunc_div_le(p as int, d as int);
    }
    let qi: i128 = q as i128;
    if neg {
        -qi
    } else {
        qi
    }
}

/// Ticks rounded to the nearest whole unit, halves away from zero.
pub open spec fn round_units(v: int) -> int {
    if v >= 0 {
        (v + SCALE / 2) / (SCALE as int)
    } else {
        -((-v + SCALE / 2) / (SCALE as int))
    }
}

/// Rounds a tick count to the nearest whole number of units.
pub fn round_fx(v: i64) -> (r: i64)
    requires
        abs(v as int) <= i64::MAX - SCALE,
    ensures
        r as int == round_units(v as int),
        abs(r as int) <= abs(v as int) / (SCALE as int) + 1,
{
    if v >= 0 {
        let r: i64 = (v + SCALE / 2) / SCALE;
        proof {
            lemma_div_is_ordered(v as int + SCALE / 2, v as int + SCALE, SCALE as int);
            vstd::arithmetic::div_mod::lemma_div_plus_one(v as int, SCALE as int);
        }
        r
    } else {
        let m: i64 = -v;
        let r: i64 = (m + SCALE / 2) / SCALE;
        proof {
            lemma_div_is_ordered(m as int + SCALE / 2, m as int + SCALE, SCALE as int);
            vstd::arithmetic::div_mod::lemma_div_plus_one(m as int, SCALE as int);
        }
        -r
    }
}

/// Floor of the square root.
pub open spec fn is_sqrt(n: int, r: int) -> bool {
    r >= 0 && r * r <= n && (r + 1) * (r + 1) > n
}

/// Floor square root of a 128-bit value, by binary search.
pub fn isqrt128(n: u128) -> (r: u64)
    requires
        n < 0x40000000000000000000000000000000u128,
    ensures
        is_sqrt(n as int, r as int),
{
    if n == 0 {
        return 0;
    }
    let mut lo: u128 = 0;
    let mut hi: u128 = 0x8000000000000000u128;
    while lo + 1 < hi
        invariant
            lo < hi,
            hi <= 0x8000000000000000u128,
            lo * lo <= n,
            hi * hi > n,
        decreases hi - lo,
    {
        let mid: u128 = lo + (hi - lo) / 2;
        proof {
            assert(mid * mid <= 0x40000000000000000000000000000000u128) by (nonlinear_arith)
                requires
                    mid <= 0x8000000000000000u128,
            ;
        }
        if mid * mid <= n {
            lo = mid;
        } else {
            hi = mid;
        }
    }
    lo as u64
}

/// The floor square root is unique.
pub proof fn lemma_sqrt_unique(n: int, a: int, b: int)
    requires
        is_sqrt(n, a),
        is_sqrt(n, b),
    ensures
        a == b,
{
    lemma_sqrt_le(n, n, a, b);
    lemma_sqrt_le(n, n, b, a);
}

/// The floor square root is monotonic in its argument.
pub proof fn lemma_sqrt_le(n1: int, n2: int, r1: int, r2: int)
    requires
        0 <= n1 <= n2,
        is_sqrt(n1, r1),
        is_sqrt(n2, r2),
    ensures
        r1 <= r2,
{
    if r1 > r2 {
        assert(r1 * r1 >= (r2 + 1) * (r2 + 1)) by (nonlinear_arith)
            requires
                r1 >= r2 + 1,
                r2 >= 0,
        ;
    }
}

} // verus!
