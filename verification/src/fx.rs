//! Fixed-point arithmetic: the numeric ground of the whole pipeline.
//!
//! A coordinate is an `i128` counting multiples of `1 / FX_ONE` of a canvas
//! unit.  All operations truncate toward zero, exactly as the spec functions
//! `tdiv`, `fmul`, `fdiv` say, so every geometric routine of the library has
//! an exact, machine-checkable meaning over the integers.

use vstd::prelude::*;

verus! {

/// The fixed-point scale: one canvas unit.
pub const FX_ONE: i128 = 100_000_000_000;

/// Largest magnitude accepted by `fmul_e` for each factor: the product of two
/// such magnitudes still fits in an `i128`.
pub const MUL_IN_MAX: i128 = 13_000_000_000_000_000_000;

/// Largest magnitude accepted by `fdiv_e` and `fsqrt_e` for the dividend:
/// the dividend times `FX_ONE` still fits in an `i128`.
pub const DIV_IN_MAX: i128 = 1_600_000_000_000_000_000_000_000_000;

/// Magnitude of an integer.
pub open spec fn iabs(a: int) -> int {
    if a >= 0 {
        a
    } else {
        -a
    }
}

/// Integer division truncated toward zero (the rounding of the engine).
pub open spec fn tdiv(a: int, b: int) -> int
    recommends
        b != 0,
{
    if a >= 0 {
        if b >= 0 {
            a / b
        } else {
            -(a / (-b))
        }
    } else {
        if b >= 0 {
            -((-a) / b)
        } else {
            (-a) / (-b)
        }
    }
}

/// Fixed-point product: `a * b` rescaled to units, truncated toward zero.
pub open spec fn fmul(a: int, b: int) -> int {
    tdiv(a * b, FX_ONE as int)
}

/// Fixed-point quotient: `a / b` in units, truncated toward zero.
pub open spec fn fdiv(a: int, b: int) -> int
    recommends
        b != 0,
{
    tdiv(a * FX_ONE, b)
}

/// Saturation of `v` into `[-m, m]`.
pub open spec fn fclamp(v: int, m: int) -> int {
    if v > m {
        m
    } else if v < -m {
        -m
    } else {
        v
    }
}

/// The floor of the square root of a non-negative integer.
pub open spec fn sqrt_floor(n: int) -> int
    decreases n,
{
    if n < 1 {
        0
    } else {
        let r = sqrt_floor(n - 1);
        if (r + 1) * (r + 1) <= n {
            r + 1
        } else {
            r
        }
    }
}

/// Fixed-point square root of a value in units: `sqrt(v / FX_ONE) * FX_ONE`,
/// rounded down.
pub open spec fn fsqrt(v: int) -> int {
    sqrt_floor(v * FX_ONE)
}

/// `sqrt_floor` is the unique integer whose square brackets `n`.
pub proof fn lemma_sqrt_floor_props(n: int)
    requires
        n >= 0,
    ensures
        sqrt_floor(n) >= 0,
        sqrt_floor(n) * sqrt_floor(n) <= n,
        (sqrt_floor(n) + 1) * (sqrt_floor(n) + 1) > n,
    decreases n,
{
    if n < 1 {
    } else {
        lemma_sqrt_floor_props(n - 1);
        let r = sqrt_floor(n - 1);
        if (r + 1) * (r + 1) <= n {
            assert((r + 2) * (r + 2) > n) by (nonlinear_arith)
                requires
                    (r + 1) * (r + 1) > n - 1,
                    r >= 0,
            ;
        }
    }
}

/// Any integer whose square brackets `n` is `sqrt_floor(n)`.
pub proof fn lemma_sqrt_floor_unique(n: int, r: int)
    requires
        n >= 0,
        r >= 0,
        r * r <= n,
        (r + 1) * (r + 1) > n,
    ensures
        r == sqrt_floor(n),
{
    lemma_sqrt_floor_props(n);
    let s = sqrt_floor(n);
    assert(r == s) by (nonlinear_arith)
        requires
            r >= 0,
            s >= 0,
            r * r <= n,
            (r + 1) * (r + 1) > n,
            s * s <= n,
            (s + 1) * (s + 1) > n,
    ;
}

/// Bound on a product from bounds on the factors.
pub proof fn lemma_mul_bound(a: int, b: int, aa: int, bb: int)
    requires
        -aa <= a <= aa,
        -bb <= b <= bb,
        0 <= aa,
        0 <= bb,
    ensures
        -(aa * bb) <= a * b <= aa * bb,
{
    assert(-(aa * bb) <= a * b <= aa * bb) by (nonlinear_arith)
        requires
            -aa <= a <= aa,
            -bb <= b <= bb,
            0 <= aa,
            0 <= bb,
    ;
}

/// Truncated division never grows the magnitude when the divisor is at
/// least one.
pub proof fn lemma_tdiv_abs(a: int, b: int)
    requires
        b >= 1,
    ensures
        iabs(tdiv(a, b)) <= iabs(a),
        a >= 0 ==> 0 <= tdiv(a, b) <= a,
        a <= 0 ==> a <= tdiv(a, b) <= 0,
{
    let m = iabs(a);
    vstd::arithmetic::div_mod::lemma_div_pos_is_pos(m, b);
    vstd::arithmetic::div_mod::lemma_div_nonincreasing(m, b);
}

/// Exact truncated division: dividing a multiple gives back the factor.
pub proof fn lemma_tdiv_exact(q: int, b: int)
    requires
        b >= 1,
    ensures
        tdiv(q * b, b) == q,
{
    if q >= 0 {
        vstd::arithmetic::div_mod::lemma_div_multiples_vanish(q, b);
        assert(q * b == b * q) by (nonlinear_arith);
    } else {
        vstd::arithmetic::div_mod::lemma_div_multiples_vanish(-q, b);
        assert(-(q * b) == b * (-q)) by (nonlinear_arith);
    }
}

/// The magnitude of a truncated quotient of non-negative splits: for any
/// `a`, `iabs(tdiv(a, b)) == iabs(a) / b` when `b` is positive.
pub proof fn lemma_tdiv_abs_is_div(a: int, b: int)
    requires
        b >= 1,
    ensures
        iabs(tdiv(a, b)) == iabs(a) / b,
{
    vstd::arithmetic::div_mod::lemma_div_pos_is_pos(iabs(a), b);
}

/// A fixed-point product with a factor of magnitude at most one unit keeps
/// the other factor's magnitude bound.
pub proof fn lemma_fmul_unit(q: int, b: int, bb: int)
    requires
        -FX_ONE <= q <= FX_ONE,
        -bb <= b <= bb,
        0 <= bb,
    ensures
        -bb <= fmul(q, b) <= bb,
{
    lemma_mul_bound(q, b, FX_ONE as int, bb);
    lemma_tdiv_abs_is_div(q * b, FX_ONE as int);
    vstd::arithmetic::div_mod::lemma_div_is_ordered(iabs(q * b), FX_ONE * bb, FX_ONE as int);
    vstd::arithmetic::div_mod::lemma_div_multiples_vanish(bb, FX_ONE as int);
}

/// Bound on a fixed-point product from bounds on the factors.
pub proof fn lemma_fmul_le(a: int, b: int, aa: int, bb: int)
    requires
        -aa <= a <= aa,
        -bb <= b <= bb,
        0 <= aa,
        0 <= bb,
    ensures
        iabs(fmul(a, b)) <= tdiv(aa * bb, FX_ONE as int),
        -tdiv(aa * bb, FX_ONE as int) <= fmul(a, b) <= tdiv(aa * bb, FX_ONE as int),
{
    lemma_mul_bound(a, b, aa, bb);
    lemma_tdiv_abs_is_div(a * b, FX_ONE as int);
    vstd::arithmetic::div_mod::lemma_div_is_ordered(iabs(a * b), aa * bb, FX_ONE as int);
    vstd::arithmetic::div_mod::lemma_div_pos_is_pos(aa * bb, FX_ONE as int);
}

/// A fixed-point product of two values of one sign is non-negative.
pub proof fn lemma_fmul_nonneg(a: int, b: int)
    requires
        (0 <= a && 0 <= b) || (a <= 0 && b <= 0),
    ensures
        0 <= fmul(a, b),
{
    assert(a * b >= 0) by (nonlinear_arith)
        requires
            (0 <= a && 0 <= b) || (a <= 0 && b <= 0),
    ;
    lemma_tdiv_abs(a * b, FX_ONE as int);
}

/// Bound on a fixed-point product, given as an exact multiple of the scale.
pub proof fn lemma_fmul_le_exact(a: int, b: int, aa: int, bb: int, c: int)
    requires
        -aa <= a <= aa,
        -bb <= b <= bb,
        0 <= aa,
        0 <= bb,
        aa * bb == c * FX_ONE,
        0 <= c,
    ensures
        -c <= fmul(a, b) <= c,
{
    lemma_fmul_le(a, b, aa, bb);
    vstd::arithmetic::div_mod::lemma_div_multiples_vanish(c, FX_ONE as int);
    assert(c * FX_ONE == FX_ONE * c) by (nonlinear_arith);
}

/// Bound on a fixed-point quotient, given as an exact multiple of the
/// denominator's lower bound.
pub proof fn lemma_fdiv_le_exact(a: int, b: int, aa: int, bmin: int, c: int)
    requires
        -aa <= a <= aa,
        0 <= aa,
        b >= bmin,
        bmin >= 1,
        aa * FX_ONE == c * bmin,
        0 <= c,
    ensures
        -c <= fdiv(a, b) <= c,
{
    lemma_fdiv_bound(a, b, aa, bmin);
    vstd::arithmetic::div_mod::lemma_div_multiples_vanish(c, bmin);
    assert(c * bmin == bmin * c) by (nonlinear_arith);
}

/// Bound on a fixed-point quotient from a bound on the numerator and a
/// positive lower bound on the denominator.
pub proof fn lemma_fdiv_bound(a: int, b: int, aa: int, bmin: int)
    requires
        -aa <= a <= aa,
        0 <= aa,
        b >= bmin,
        bmin >= 1,
    ensures
        iabs(fdiv(a, b)) <= tdiv(aa * FX_ONE, bmin),
        -tdiv(aa * FX_ONE, bmin) <= fdiv(a, b) <= tdiv(aa * FX_ONE, bmin),
{
    lemma_tdiv_abs_is_div(a * FX_ONE, b);
    assert(iabs(a * FX_ONE) == iabs(a) * FX_ONE) by (nonlinear_arith)
        requires
            FX_ONE as int > 0,
    ;
    lemma_mul_bound(iabs(a), FX_ONE as int, aa, FX_ONE as int);
    vstd::arithmetic::div_mod::lemma_div_is_ordered_by_denominator(
        iabs(a) * FX_ONE,
        bmin,
        b,
    );
    vstd::arithmetic::div_mod::lemma_div_is_ordered(iabs(a) * FX_ONE, aa * FX_ONE, bmin);
    vstd::arithmetic::div_mod::lemma_div_pos_is_pos(aa * FX_ONE, bmin);
    vstd::arithmetic::div_mod::lemma_div_pos_is_pos(iabs(a) * FX_ONE, b);
}

/// A fixed-point quotient by a denominator of at least one unit keeps the
/// numerator's magnitude bound.
pub proof fn lemma_fdiv_le(a: int, b: int)
    requires
        b >= FX_ONE,
    ensures
        iabs(fdiv(a, b)) <= iabs(a),
        -iabs(a) <= fdiv(a, b) <= iabs(a),
{
    lemma_mul_bound(iabs(a), FX_ONE as int, iabs(a), FX_ONE as int);
    lemma_tdiv_abs_is_div(a * FX_ONE, b);
    assert(iabs(a * FX_ONE) == iabs(a) * FX_ONE) by (nonlinear_arith)
        requires
            FX_ONE as int > 0,
    ;
    vstd::arithmetic::div_mod::lemma_div_is_ordered_by_denominator(
        iabs(a) * FX_ONE,
        FX_ONE as int,
        b,
    );
    vstd::arithmetic::div_mod::lemma_div_multiples_vanish(iabs(a), FX_ONE as int);
    vstd::arithmetic::div_mod::lemma_div_pos_is_pos(iabs(a) * FX_ONE, b);
}

/// Truncated division of an `i128` by a positive `i128`.
pub fn tdiv_e(a: i128, b: i128) -> (r: i128)
    requires
        b != 0,
        a != i128::MIN,
        b != i128::MIN,
    ensures
        r == tdiv(a as int, b as int),
        iabs(r as int) <= iabs(a as int),
{
    let ua: u128 = if a < 0 {
        (-a) as u128
    } else {
        a as u128
    };
    let ub: u128 = if b < 0 {
        (-b) as u128
    } else {
        b as u128
    };
    let q: u128 = ua / ub;
    proof {
        assert(ua as int == iabs(a as int));
        assert(ub as int == iabs(b as int));
        vstd::arithmetic::div_mod::lemma_div_pos_is_pos(ua as int, ub as int);
        vstd::arithmetic::div_mod::lemma_div_nonincreasing(ua as int, ub as int);
    }
    let neg: bool = (a < 0) != (b < 0);
    if neg {
        -(q as i128)
    } else {
        q as i128
    }
}

/// Fixed-point product of two `i128` values, truncated toward zero.
pub fn fmul_e(a: i128, b: i128) -> (r: i128)
    requires
        -MUL_IN_MAX <= a <= MUL_IN_MAX,
        -MUL_IN_MAX <= b <= MUL_IN_MAX,
    ensures
        r == fmul(a as int, b as int),
        iabs(r as int) <= tdiv(iabs(a as int) * iabs(b as int), FX_ONE as int),
{
    let ua: u128 = if a < 0 {
        (-a) as u128
    } else {
        a as u128
    };
    let ub: u128 = if b < 0 {
        (-b) as u128
    } else {
        b as u128
    };
    proof {
        lemma_mul_bound(ua as int, ub as int, MUL_IN_MAX as int, MUL_IN_MAX as int);
    }
    let p: u128 = ua * ub;
    let q: u128 = p / (FX_ONE as u128);
    proof {
        vstd::arithmetic::div_mod::lemma_div_pos_is_pos(p as int, FX_ONE as int);
        vstd::arithmetic::div_mod::lemma_div_nonincreasing(p as int, FX_ONE as int);
        assert(ua as int * ub as int == iabs(a as int * b as int)) by (nonlinear_arith)
            requires
                ua as int == iabs(a as int),
                ub as int == iabs(b as int),
        ;
    }
    let neg: bool = (a < 0) != (b < 0);
    if neg {
        proof {
            assert(a as int * b as int <= 0) by (nonlinear_arith)
                requires
                    (a < 0 && b >= 0) || (a >= 0 && b < 0),
            ;
        }
        -(q as i128)
    } else {
        proof {
            assert(a as int * b as int >= 0) by (nonlinear_arith)
                requires
                    (a < 0 && b < 0) || (a >= 0 && b >= 0),
            ;
        }
        q as i128
    }
}

/// Fixed-point quotient of two `i128` values, truncated toward zero.
pub fn fdiv_e(a: i128, b: i128) -> (r: i128)
    requires
        b != 0,
        b != i128::MIN,
        -DIV_IN_MAX <= a <= DIV_IN_MAX,
    ensures
        r == fdiv(a as int, b as int),
        iabs(r as int) <= tdiv(iabs(a as int) * FX_ONE, iabs(b as int)),
{
    let ua: u128 = if a < 0 {
        (-a) as u128
    } else {
        a as u128
    };
    let ub: u128 = if b < 0 {
        (-b) as u128
    } else {
        b as u128
    };
    proof {
        lemma_mul_bound(ua as int, FX_ONE as int, DIV_IN_MAX as int, FX_ONE as int);
    }
    let p: u128 = ua * (FX_ONE as u128);
    let q: u128 = p / ub;
    proof {
        vstd::arithmetic::div_mod::lemma_div_pos_is_pos(p as int, ub as int);
        vstd::arithmetic::div_mod::lemma_div_nonincreasing(p as int, ub as int);
        assert(ua as int * FX_ONE as int == iabs(a as int * FX_ONE as int)) by (nonlinear_arith)
            requires
                ua as int == iabs(a as int),
                FX_ONE as int > 0,
        ;
    }
    let neg: bool = (a < 0) != (b < 0);
    if neg {
        proof {
            assert(a as int * FX_ONE as int <= 0 <==> a <= 0) by (nonlinear_arith)
                requires
                    FX_ONE as int > 0,
            ;
        }
        -(q as i128)
    } else {
        q as i128
    }
}

/// Saturation of `v` into `[lo, hi]`.
pub open spec fn fbound(v: int, lo: int, hi: int) -> int {
    if v < lo {
        lo
    } else if v > hi {
        hi
    } else {
        v
    }
}

/// Saturation of `v` into `[lo, hi]`.
pub fn fbound_e(v: i128, lo: i128, hi: i128) -> (r: i128)
    requires
        lo <= hi,
    ensures
        r == fbound(v as int, lo as int, hi as int),
        lo <= r <= hi,
{
    if v < lo {
        lo
    } else if v > hi {
        hi
    } else {
        v
    }
}

/// Saturation of `v` into `[-m, m]`.
pub fn fclamp_e(v: i128, m: i128) -> (r: i128)
    requires
        0 <= m,
    ensures
        r == fclamp(v as int, m as int),
        -m <= r <= m,
{
    if v > m {
        m
    } else if v < -m {
        -m
    } else {
        v
    }
}

/// Floor of the square root of a `u128`.
pub fn isqrt_e(n: u128) -> (r: u128)
    requires
        n <= 170_141_183_460_469_231_731_687_303_715_884_105_727,
    ensures
        r == sqrt_floor(n as int),
{
    let mut lo: u128 = 0;
    let mut hi: u128 = 18_446_744_073_709_551_616;
    proof {
        assert((hi as int) * (hi as int) > n as int) by (nonlinear_arith)
            requires
                hi == 18_446_744_073_709_551_616,
                n <= 170_141_183_460_469_231_731_687_303_715_884_105_727,
        ;
    }
    while lo + 1 < hi
        invariant
            lo < hi,
            hi <= 18_446_744_073_709_551_616,
            (lo as int) * (lo as int) <= n as int,
            (hi as int) * (hi as int) > n as int,
        decreases hi - lo,
    {
        let mid: u128 = lo + (hi - lo) / 2;
        proof {
            vstd::arithmetic::div_mod::lemma_fundamental_div_mod(hi as int - lo as int, 2);
            vstd::arithmetic::div_mod::lemma_mod_bound(hi as int - lo as int, 2);
            assert(lo < mid < hi);
            lemma_mul_bound(
                mid as int,
                mid as int,
                18_446_744_073_709_551_615,
                18_446_744_073_709_551_615,
            );
        }
        if mid * mid <= n {
            lo = mid;
        } else {
            hi = mid;
        }
    }
    proof {
        lemma_sqrt_floor_unique(n as int, lo as int);
    }
    lo
}

/// Fixed-point square root: `fsqrt` of a non-negative value in units.
pub fn fsqrt_e(v: i128) -> (r: i128)
    requires
        0 <= v <= DIV_IN_MAX,
    ensures
        r == fsqrt(v as int),
        0 <= r,
        iabs(r as int) * iabs(r as int) <= v * FX_ONE,
{
    proof {
        lemma_mul_bound(v as int, FX_ONE as int, DIV_IN_MAX as int, FX_ONE as int);
    }
    let n: u128 = (v as u128) * (FX_ONE as u128);
    let r: u128 = isqrt_e(n);
    proof {
        lemma_sqrt_floor_props(n as int);
        assert(r as int * r as int <= n as int);
        assert((r as int) < 18_446_744_073_709_551_616) by (nonlinear_arith)
            requires
                r as int * r as int <= n as int,
                n as int <= 170_141_183_460_469_231_731_687_303_715_884_105_727,
                r as int >= 0,
        ;
    }
    r as i128
}

} // verus!
