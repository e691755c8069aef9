//! Fixed-point trigonometry.
//!
//! Rotation, skew and arc tessellation need `sin`, `cos`, `tan` and `atan2`.
//! The engine computes them over the fixed-point scale of `fx`: an argument
//! reduction against a two-part representation of a half turn, followed by a
//! truncated power series.  Every function is specified exactly — the result
//! *is* the value of the spec-level series, so the whole pipeline stays a
//! deterministic function of its input.  The series agree with the real
//! functions to a few units of the last place, which the tests check on
//! concrete angles.

use vstd::prelude::*;
use crate::fx::{
    FX_ONE, DIV_IN_MAX, iabs, tdiv, fmul, fdiv, fclamp, fmul_e, fdiv_e, fclamp_e, tdiv_e,
    lemma_tdiv_abs, lemma_mul_bound, lemma_fmul_unit, lemma_fdiv_le,
};

verus! {

/// Half pi at the fixed-point scale, rounded down.
pub const HALF_PI_FX: i128 = 157_079_632_679;

/// Pi at the fixed-point scale, rounded to nearest.
pub const PI_FX: i128 = 314_159_265_359;

/// Two pi at the fixed-point scale, rounded to nearest.
pub const TWO_PI_FX: i128 = 628_318_530_718;

/// Pi over six at the fixed-point scale.
pub const PI_SIXTH_FX: i128 = 52_359_877_560;

/// The square root of three at the fixed-point scale.
pub const SQRT3_FX: i128 = 173_205_080_757;

/// The tangent of pi over twelve at the fixed-point scale.
pub const TAN15_FX: i128 = 26_794_919_243;

/// Numerator and denominator of the fractional part of `HALF_PI_FX`:
/// `pi/2 * FX_ONE ~ HALF_PI_FX + HP_CORR_NUM / HP_CORR_DEN`.
pub const HP_CORR_NUM: i128 = 4_896_619;

pub const HP_CORR_DEN: i128 = 10_000_000;

/// Rounding offset used to pick the nearest multiple of a quarter turn.
pub const HP_HALF_FX: i128 = 78_539_816_340;

/// Largest angle magnitude (a million radians) accepted by `sin_fx`,
/// `cos_fx` and `tan_fx`.
pub const SINCOS_IN_MAX: i128 = 100_000_000_000_000_000;

/// Magnitude bound on every reduced angle handed to the power series.
pub const RED_MAX: i128 = 79_000_000_000;

/// Magnitude bound on the results of `sin_fx` and `cos_fx`.
pub const SIN_OUT_MAX: i128 = 200_000_000_000;

/// The tangent is saturated at this magnitude (a million canvas units) near
/// its poles.
pub const TAN_CLAMP_FX: i128 = 100_000_000_000_000_000;

/// Magnitude bound on the result of `atan2_fx`.
pub const ATAN_OUT_MAX: i128 = 2_000_000_000_000;

/// The truncated sine series on a reduced angle: `r * P(r*r)` with the
/// Taylor coefficients of `sin` through the fifteenth power.
pub open spec fn spec_sin_poly(r: int) -> int {
    let q = fmul(r, r);
    let p5 = 16;
    let p4 = 2505 - fmul(q, p5);
    let p3 = 275573 - fmul(q, p4);
    let p2 = 19841270 - fmul(q, p3);
    let p1 = 833333333 - fmul(q, p2);
    let p0 = 16666666667 - fmul(q, p1);
    let p = FX_ONE - fmul(q, p0);
    fmul(r, p)
}

/// The truncated cosine series on a reduced angle, through the sixteenth
/// power.
pub open spec fn spec_cos_poly(r: int) -> int {
    let q = fmul(r, r);
    let p6 = 1;
    let p5 = 209 - fmul(q, p6);
    let p4 = 27557 - fmul(q, p5);
    let p3 = 2480159 - fmul(q, p4);
    let p2 = 138888889 - fmul(q, p3);
    let p1 = 4166666667 - fmul(q, p2);
    let p0 = 50000000000 - fmul(q, p1);
    FX_ONE - fmul(q, p0)
}

/// The number of quarter turns subtracted from a non-negative angle during
/// reduction.
pub open spec fn spec_red_k(ax: int) -> int {
    tdiv(ax + HP_HALF_FX, HALF_PI_FX as int)
}

/// The reduced angle: `ax` minus `k` quarter turns, with the two-part
/// half-pi representation.
pub open spec fn spec_red_r(ax: int) -> int {
    let k = spec_red_k(ax);
    ax - k * HALF_PI_FX - tdiv(k * HP_CORR_NUM, HP_CORR_DEN as int)
}

/// Sine of a non-negative angle, assembled from the reduced quadrant.
pub open spec fn spec_sin_abs(ax: int) -> int {
    let k = spec_red_k(ax);
    let r = spec_red_r(ax);
    let m = k % 4;
    if m == 0 {
        spec_sin_poly(r)
    } else if m == 1 {
        spec_cos_poly(r)
    } else if m == 2 {
        -spec_sin_poly(r)
    } else {
        -spec_cos_poly(r)
    }
}

/// Cosine of a non-negative angle, assembled from the reduced quadrant.
pub open spec fn spec_cos_abs(ax: int) -> int {
    let k = spec_red_k(ax);
    let r = spec_red_r(ax);
    let m = k % 4;
    if m == 0 {
        spec_cos_poly(r)
    } else if m == 1 {
        -spec_sin_poly(r)
    } else if m == 2 {
        -spec_cos_poly(r)
    } else {
        spec_sin_poly(r)
    }
}

/// The sine of the engine: an odd function of the angle.
pub open spec fn spec_sin(x: int) -> int {
    if x >= 0 {
        spec_sin_abs(x)
    } else {
        -spec_sin_abs(-x)
    }
}

/// The cosine of the engine: an even function of the angle.
pub open spec fn spec_cos(x: int) -> int {
    spec_cos_abs(iabs(x))
}

/// The tangent of the engine: the quotient of its sine and cosine,
/// saturated at `TAN_CLAMP_FX` (and zero exactly at a pole of the
/// fixed-point cosine).
pub open spec fn spec_tan(x: int) -> int {
    let s = spec_sin(x);
    let c = spec_cos(x);
    if c == 0 {
        0
    } else {
        fclamp(fdiv(s, c), TAN_CLAMP_FX as int)
    }
}

/// The truncated arctangent series on an argument reduced below
/// `TAN15_FX` in magnitude (well-defined for any small argument).
pub open spec fn spec_atan_poly(u: int) -> int {
    let v = fmul(u, u);
    let t7 = 6666666667;
    let t6 = 7692307692 - fmul(v, t7);
    let t5 = 9090909091 - fmul(v, t6);
    let t4 = 11111111111 - fmul(v, t5);
    let t3 = 14285714286 - fmul(v, t4);
    let t2 = 20000000000 - fmul(v, t3);
    let t1 = 33333333333 - fmul(v, t2);
    let p = FX_ONE - fmul(v, t1);
    fmul(u, p)
}

/// Arctangent of a ratio in `[0, 1]`: one fold through the pi-over-six
/// identity when the ratio is above `tan(pi/12)`, then the series.
pub open spec fn spec_atan_t(t: int) -> int {
    if t > TAN15_FX {
        let num = fmul(t, SQRT3_FX as int) - FX_ONE;
        let den = SQRT3_FX + t;
        PI_SIXTH_FX + spec_atan_poly(fdiv(num, den))
    } else {
        spec_atan_poly(t)
    }
}

/// The two-argument arctangent of the engine, with the conventions of the
/// usual library function: the angle of `(x, y)` in `(-pi, pi]`.
pub open spec fn spec_atan2(y: int, x: int) -> int {
    if x == 0 && y == 0 {
        0
    } else if x == 0 {
        if y > 0 {
            HALF_PI_FX as int
        } else {
            -HALF_PI_FX
        }
    } else if y == 0 {
        if x > 0 {
            0
        } else {
            PI_FX as int
        }
    } else {
        let ay = iabs(y);
        let ax = iabs(x);
        let base = if ay <= ax {
            spec_atan_t(fdiv(ay, ax))
        } else {
            HALF_PI_FX - spec_atan_t(fdiv(ax, ay))
        };
        let t = if x > 0 {
            base
        } else {
            PI_FX - base
        };
        if y > 0 {
            t
        } else {
            -t
        }
    }
}

/// The sine series, executed.
fn sin_poly_e(r: i128) -> (s: i128)
    requires
        -RED_MAX <= r <= RED_MAX,
    ensures
        s == spec_sin_poly(r as int),
        -SIN_OUT_MAX <= s <= SIN_OUT_MAX,
{
    let q: i128 = fmul_e(r, r);
    proof {
        lemma_fmul_unit(r as int, r as int, RED_MAX as int);
    }
    let p5: i128 = 16;
    let f5: i128 = fmul_e(q, p5);
    proof {
        lemma_fmul_unit(q as int, p5 as int, 16);
    }
    let p4: i128 = 2505 - f5;
    let f4: i128 = fmul_e(q, p4);
    proof {
        lemma_fmul_unit(q as int, p4 as int, 2521);
    }
    let p3: i128 = 275573 - f4;
    let f3: i128 = fmul_e(q, p3);
    proof {
        lemma_fmul_unit(q as int, p3 as int, 278094);
    }
    let p2: i128 = 19841270 - f3;
    let f2: i128 = fmul_e(q, p2);
    proof {
        lemma_fmul_unit(q as int, p2 as int, 20119364);
    }
    let p1: i128 = 833333333 - f2;
    let f1: i128 = fmul_e(q, p1);
    proof {
        lemma_fmul_unit(q as int, p1 as int, 853452697);
    }
    let p0: i128 = 16666666667 - f1;
    let f0: i128 = fmul_e(q, p0);
    proof {
        lemma_fmul_unit(q as int, p0 as int, 17520119364);
    }
    let p: i128 = FX_ONE - f0;
    let s: i128 = fmul_e(r, p);
    proof {
        lemma_fmul_unit(r as int, p as int, 117520119364);
    }
    s
}

/// The cosine series, executed.
fn cos_poly_e(r: i128) -> (c: i128)
    requires
        -RED_MAX <= r <= RED_MAX,
    ensures
        c == spec_cos_poly(r as int),
        -SIN_OUT_MAX <= c <= SIN_OUT_MAX,
{
    let q: i128 = fmul_e(r, r);
    proof {
        lemma_fmul_unit(r as int, r as int, RED_MAX as int);
    }
    let p6: i128 = 1;
    let f6: i128 = fmul_e(q, p6);
    proof {
        lemma_fmul_unit(q as int, p6 as int, 1);
    }
    let p5: i128 = 209 - f6;
    let f5: i128 = fmul_e(q, p5);
    proof {
        lemma_fmul_unit(q as int, p5 as int, 210);
    }
    let p4: i128 = 27557 - f5;
    let f4: i128 = fmul_e(q, p4);
    proof {
        lemma_fmul_unit(q as int, p4 as int, 27767);
    }
    let p3: i128 = 2480159 - f4;
    let f3: i128 = fmul_e(q, p3);
    proof {
        lemma_fmul_unit(q as int, p3 as int, 2507926);
    }
    let p2: i128 = 138888889 - f3;
    let f2: i128 = fmul_e(q, p2);
    proof {
        lemma_fmul_unit(q as int, p2 as int, 141396815);
    }
    let p1: i128 = 4166666667 - f2;
    let f1: i128 = fmul_e(q, p1);
    proof {
        lemma_fmul_unit(q as int, p1 as int, 4308063482);
    }
    let p0: i128 = 50000000000 - f1;
    let f0: i128 = fmul_e(q, p0);
    proof {
        lemma_fmul_unit(q as int, p0 as int, 54308063482);
    }
    FX_ONE - f0
}

/// Argument reduction for a non-negative angle: the quadrant index and the
/// reduced angle.
fn reduce_e(ax: i128) -> (mr: (i128, i128))
    requires
        0 <= ax <= SINCOS_IN_MAX,
    ensures
        mr.0 == spec_red_k(ax as int) % 4,
        mr.1 == spec_red_r(ax as int),
        0 <= mr.0 < 4,
        -RED_MAX <= mr.1 <= RED_MAX,
{
    let k: i128 = tdiv_e(ax + HP_HALF_FX, HALF_PI_FX);
    proof {
        vstd::arithmetic::div_mod::lemma_fundamental_div_mod(
            ax as int + HP_HALF_FX,
            HALF_PI_FX as int,
        );
        vstd::arithmetic::div_mod::lemma_mod_bound(ax as int + HP_HALF_FX, HALF_PI_FX as int);
        vstd::arithmetic::div_mod::lemma_div_pos_is_pos(ax as int + HP_HALF_FX, HALF_PI_FX as int);
        assert(0 <= k as int <= 636630);
    }
    proof {
        lemma_mul_bound(k as int, HP_CORR_NUM as int, 636630, HP_CORR_NUM as int);
        assert(k as int * HP_CORR_NUM >= 0) by (nonlinear_arith)
            requires
                k as int >= 0,
                HP_CORR_NUM as int > 0,
        ;
    }
    let corr: i128 = tdiv_e(k * HP_CORR_NUM, HP_CORR_DEN);
    proof {
        lemma_tdiv_abs(k as int * HP_CORR_NUM, HP_CORR_DEN as int);
        crate::fx::lemma_tdiv_abs_is_div(k as int * HP_CORR_NUM, HP_CORR_DEN as int);
        vstd::arithmetic::div_mod::lemma_div_is_ordered(
            k as int * HP_CORR_NUM,
            3_117_334_000_000,
            HP_CORR_DEN as int,
        );
        lemma_mul_bound(k as int, HALF_PI_FX as int, 636630, HALF_PI_FX as int);
    }
    let r: i128 = ax - k * HALF_PI_FX - corr;
    let m: i128 = k - 4 * tdiv_e(k, 4);
    proof {
        vstd::arithmetic::div_mod::lemma_fundamental_div_mod(k as int, 4);
        vstd::arithmetic::div_mod::lemma_mod_bound(k as int, 4);
    }
    (m, r)
}

/// Fixed-point sine.
pub fn sin_fx(x: i128) -> (s: i128)
    requires
        -SINCOS_IN_MAX <= x <= SINCOS_IN_MAX,
    ensures
        s == spec_sin(x as int),
        -SIN_OUT_MAX <= s <= SIN_OUT_MAX,
{
    let ax: i128 = if x < 0 {
        -x
    } else {
        x
    };
    let mr = reduce_e(ax);
    let s: i128 = if mr.0 == 0 {
        sin_poly_e(mr.1)
    } else if mr.0 == 1 {
        cos_poly_e(mr.1)
    } else if mr.0 == 2 {
        -sin_poly_e(mr.1)
    } else {
        -cos_poly_e(mr.1)
    };
    if x < 0 {
        -s
    } else {
        s
    }
}

/// Fixed-point cosine.
pub fn cos_fx(x: i128) -> (c: i128)
    requires
        -SINCOS_IN_MAX <= x <= SINCOS_IN_MAX,
    ensures
        c == spec_cos(x as int),
        -SIN_OUT_MAX <= c <= SIN_OUT_MAX,
{
    let ax: i128 = if x < 0 {
        -x
    } else {
        x
    };
    let mr = reduce_e(ax);
    if mr.0 == 0 {
        cos_poly_e(mr.1)
    } else if mr.0 == 1 {
        -sin_poly_e(mr.1)
    } else if mr.0 == 2 {
        -cos_poly_e(mr.1)
    } else {
        sin_poly_e(mr.1)
    }
}

/// Fixed-point tangent, saturated near its poles.
pub fn tan_fx(x: i128) -> (t: i128)
    requires
        -SINCOS_IN_MAX <= x <= SINCOS_IN_MAX,
    ensures
        t == spec_tan(x as int),
        -TAN_CLAMP_FX <= t <= TAN_CLAMP_FX,
{
    let s: i128 = sin_fx(x);
    let c: i128 = cos_fx(x);
    if c == 0 {
        0
    } else {
        fclamp_e(fdiv_e(s, c), TAN_CLAMP_FX)
    }
}

/// The arctangent series, executed.
fn atan_poly_e(u: i128) -> (a: i128)
    requires
        -FX_ONE <= u <= FX_ONE,
    ensures
        a == spec_atan_poly(u as int),
        -210_000_000_000 <= a <= 210_000_000_000,
{
    let v: i128 = fmul_e(u, u);
    proof {
        lemma_fmul_unit(u as int, u as int, FX_ONE as int);
    }
    let t7: i128 = 6666666667;
    let f7: i128 = fmul_e(v, t7);
    proof {
        lemma_fmul_unit(v as int, t7 as int, 6666666667);
    }
    let t6: i128 = 7692307692 - f7;
    let f6: i128 = fmul_e(v, t6);
    proof {
        lemma_fmul_unit(v as int, t6 as int, 14358974359);
    }
    let t5: i128 = 9090909091 - f6;
    let f5: i128 = fmul_e(v, t5);
    proof {
        lemma_fmul_unit(v as int, t5 as int, 23449883450);
    }
    let t4: i128 = 11111111111 - f5;
    let f4: i128 = fmul_e(v, t4);
    proof {
        lemma_fmul_unit(v as int, t4 as int, 34560994561);
    }
    let t3: i128 = 14285714286 - f4;
    let f3: i128 = fmul_e(v, t3);
    proof {
        lemma_fmul_unit(v as int, t3 as int, 48846708847);
    }
    let t2: i128 = 20000000000 - f3;
    let f2: i128 = fmul_e(v, t2);
    proof {
        lemma_fmul_unit(v as int, t2 as int, 68846708847);
    }
    let t1: i128 = 33333333333 - f2;
    let f1: i128 = fmul_e(v, t1);
    proof {
        lemma_fmul_unit(v as int, t1 as int, 102180042180);
    }
    let p: i128 = FX_ONE - f1;
    let a: i128 = fmul_e(u, p);
    proof {
        lemma_fmul_unit(u as int, p as int, 202180042180);
    }
    a
}

/// Arctangent of a ratio in `[0, FX_ONE]`.
fn atan_t_e(t: i128) -> (a: i128)
    requires
        0 <= t <= FX_ONE,
    ensures
        a == spec_atan_t(t as int),
        -500_000_000_000 <= a <= 500_000_000_000,
{
    if t > TAN15_FX {
        let g: i128 = fmul_e(t, SQRT3_FX);
        proof {
            lemma_fmul_unit(t as int, SQRT3_FX as int, SQRT3_FX as int);
            assert(t as int * SQRT3_FX >= 0) by (nonlinear_arith)
                requires
                    t as int >= 0,
                    SQRT3_FX as int > 0,
            ;
            lemma_tdiv_abs(t as int * SQRT3_FX, FX_ONE as int);
        }
        let num: i128 = g - FX_ONE;
        let den: i128 = SQRT3_FX + t;
        proof {
            lemma_fdiv_le(num as int, den as int);
        }
        let u: i128 = fdiv_e(num, den);
        PI_SIXTH_FX + atan_poly_e(u)
    } else {
        atan_poly_e(t)
    }
}

/// Fixed-point two-argument arctangent.
pub fn atan2_fx(y: i128, x: i128) -> (a: i128)
    requires
        -DIV_IN_MAX <= y <= DIV_IN_MAX,
        -DIV_IN_MAX <= x <= DIV_IN_MAX,
    ensures
        a == spec_atan2(y as int, x as int),
        -ATAN_OUT_MAX <= a <= ATAN_OUT_MAX,
{
    if x == 0 && y == 0 {
        0
    } else if x == 0 {
        if y > 0 {
            HALF_PI_FX
        } else {
            -HALF_PI_FX
        }
    } else if y == 0 {
        if x > 0 {
            0
        } else {
            PI_FX
        }
    } else {
        let ay: i128 = if y < 0 {
            -y
        } else {
            y
        };
        let ax: i128 = if x < 0 {
            -x
        } else {
            x
        };
        let base: i128 = if ay <= ax {
            proof {
                lemma_fdiv_ratio_le_one(ay as int, ax as int);
            }
            atan_t_e(fdiv_e(ay, ax))
        } else {
            proof {
                lemma_fdiv_ratio_le_one(ax as int, ay as int);
            }
            HALF_PI_FX - atan_t_e(fdiv_e(ax, ay))
        };
        let t: i128 = if x > 0 {
            base
        } else {
            PI_FX - base
        };
        if y > 0 {
            t
        } else {
            -t
        }
    }
}

/// The fixed-point quotient of a smaller magnitude by a larger one lies in
/// `[0, FX_ONE]`.
proof fn lemma_fdiv_ratio_le_one(a: int, b: int)
    requires
        0 <= a <= b,
        1 <= b,
    ensures
        0 <= fdiv(a, b) <= FX_ONE,
{
    vstd::arithmetic::div_mod::lemma_div_pos_is_pos(a * FX_ONE, b);
    vstd::arithmetic::div_mod::lemma_div_is_ordered(a * FX_ONE, b * FX_ONE, b);
    vstd::arithmetic::div_mod::lemma_div_multiples_vanish(FX_ONE as int, b);
    assert(a * FX_ONE <= b * FX_ONE) by (nonlinear_arith)
        requires
            a <= b,
            FX_ONE as int >= 0,
    ;
    assert(b * FX_ONE == b * FX_ONE);
}

} // verus!
