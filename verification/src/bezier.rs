//! Quadratic and cubic Bézier evaluation.
//!
//! Curves are sampled at the hundred equal parameter steps `t = i / 100`.
//! Each coordinate is a single exact Bernstein sum over the integers,
//! divided once at the end, so the weights still add up exactly: a curve
//! whose three quadratic points coincide collapses to that point, and the
//! first and last cubic samples are exactly the curve's endpoints.

use vstd::prelude::*;
use crate::fx::{tdiv, tdiv_e, lemma_mul_bound, lemma_tdiv_exact, lemma_tdiv_abs_is_div};
use crate::numparse::OPERAND_MAX;

verus! {

/// One coordinate of a quadratic Bézier curve at parameter `i / 100`:
/// the exact Bernstein sum with denominator ten thousand.
pub open spec fn spec_quad_coord(p0: int, p1: int, p2: int, i: int) -> int {
    let c = 100 - i;
    tdiv(c * c * p0 + 2 * c * i * p1 + i * i * p2, 10_000)
}

/// One coordinate of a cubic Bézier curve at parameter `i / 100`:
/// the exact Bernstein sum with denominator one million.
pub open spec fn spec_cubic_coord(p0: int, p1: int, p2: int, p3: int, i: int) -> int {
    let c = 100 - i;
    tdiv(c * c * c * p0 + 3 * c * c * i * p1 + 3 * c * i * i * p2 + i * i * i * p3, 1_000_000)
}

/// The quadratic Bernstein weights at step `i` add up to ten thousand.
proof fn lemma_quad_weights(i: int)
    requires
        0 <= i <= 100,
    ensures
        (100 - i) * (100 - i) + 2 * (100 - i) * i + i * i == 10_000,
        0 <= (100 - i) * (100 - i),
        0 <= 2 * (100 - i) * i,
        0 <= i * i,
{
    assert((100 - i) * (100 - i) + 2 * (100 - i) * i + i * i == 10_000) by (nonlinear_arith)
        requires
            0 <= i <= 100,
    ;
    assert(0 <= (100 - i) * (100 - i) && 0 <= 2 * (100 - i) * i && 0 <= i * i)
        by (nonlinear_arith)
        requires
            0 <= i <= 100,
    ;
}

/// The cubic Bernstein weights at step `i` add up to one million.
proof fn lemma_cubic_weights(i: int)
    requires
        0 <= i <= 100,
    ensures
        (100 - i) * (100 - i) * (100 - i) + 3 * (100 - i) * (100 - i) * i + 3 * (100 - i) * i * i
            + i * i * i == 1_000_000,
        0 <= (100 - i) * (100 - i) * (100 - i) <= 1_000_000,
        0 <= 3 * (100 - i) * (100 - i) * i <= 1_000_000,
        0 <= 3 * (100 - i) * i * i <= 1_000_000,
        0 <= i * i * i <= 1_000_000,
{
    let c = 100 - i;
    assert(c * c * c + 3 * c * c * i + 3 * c * i * i + i * i * i == (c + i) * (c + i) * (c + i))
        by (nonlinear_arith)
    ;
    assert((c + i) * (c + i) * (c + i) == 1_000_000) by (nonlinear_arith)
        requires
            c + i == 100,
    ;
    assert(0 <= c * c * c <= 1_000_000 && 0 <= 3 * c * c * i <= 1_000_000 && 0 <= 3 * c * i * i
        <= 1_000_000 && 0 <= i * i * i <= 1_000_000) by (nonlinear_arith)
        requires
            0 <= i <= 100,
            c == 100 - i,
    ;
}

/// One quadratic coordinate, executed.
pub fn quad_coord(p0: i128, p1: i128, p2: i128, i: i128) -> (r: i128)
    requires
        0 <= i <= 100,
        -OPERAND_MAX <= p0 <= OPERAND_MAX,
        -OPERAND_MAX <= p1 <= OPERAND_MAX,
        -OPERAND_MAX <= p2 <= OPERAND_MAX,
    ensures
        r == spec_quad_coord(p0 as int, p1 as int, p2 as int, i as int),
        -OPERAND_MAX <= r <= OPERAND_MAX,
{
    proof {
        lemma_quad_weights(i as int);
        let c_ = 100 - i as int;
        let w0 = c_ * c_;
        let w1 = 2 * c_ * (i as int);
        let w2 = (i as int) * (i as int);
        lemma_mul_bound(w0, p0 as int, w0, OPERAND_MAX as int);
        lemma_mul_bound(w1, p1 as int, w1, OPERAND_MAX as int);
        lemma_mul_bound(w2, p2 as int, w2, OPERAND_MAX as int);
        assert((w0 + w1 + w2) * OPERAND_MAX == w0 * OPERAND_MAX + w1 * OPERAND_MAX + w2
            * OPERAND_MAX) by (nonlinear_arith);
    }
    let c: i128 = 100 - i;
    let sum: i128 = c * c * p0 + 2 * c * i * p1 + i * i * p2;
    let r = tdiv_e(sum, 10_000);
    proof {
        lemma_tdiv_abs_is_div(sum as int, 10_000);
        vstd::arithmetic::div_mod::lemma_div_is_ordered(
            crate::fx::iabs(sum as int),
            10_000 * OPERAND_MAX,
            10_000,
        );
        vstd::arithmetic::div_mod::lemma_div_multiples_vanish(OPERAND_MAX as int, 10_000);
    }
    r
}

/// One cubic coordinate, executed.
pub fn cubic_coord(p0: i128, p1: i128, p2: i128, p3: i128, i: i128) -> (r: i128)
    requires
        0 <= i <= 100,
        -OPERAND_MAX <= p0 <= OPERAND_MAX,
        -OPERAND_MAX <= p1 <= OPERAND_MAX,
        -OPERAND_MAX <= p2 <= OPERAND_MAX,
        -OPERAND_MAX <= p3 <= OPERAND_MAX,
    ensures
        r == spec_cubic_coord(p0 as int, p1 as int, p2 as int, p3 as int, i as int),
        -OPERAND_MAX <= r <= OPERAND_MAX,
{
    proof {
        lemma_cubic_weights(i as int);
        let c_ = 100 - i as int;
        let w0 = c_ * c_ * c_;
        let w1 = 3 * c_ * c_ * (i as int);
        let w2 = 3 * c_ * (i as int) * (i as int);
        let w3 = (i as int) * (i as int) * (i as int);
        assert(0 <= c_ * c_ <= 10_000 && 0 <= 3 * c_ <= 300 && 0 <= 3 * c_ * c_ <= 30_000 && 0
            <= 3 * c_ * (i as int) <= 30_000 && 0 <= (i as int) * (i as int) <= 10_000)
            by (nonlinear_arith)
            requires
                0 <= i as int <= 100,
                c_ == 100 - i as int,
        ;
        lemma_mul_bound(w0, p0 as int, w0, OPERAND_MAX as int);
        lemma_mul_bound(w1, p1 as int, w1, OPERAND_MAX as int);
        lemma_mul_bound(w2, p2 as int, w2, OPERAND_MAX as int);
        lemma_mul_bound(w3, p3 as int, w3, OPERAND_MAX as int);
        assert((w0 + w1 + w2 + w3) * OPERAND_MAX == w0 * OPERAND_MAX + w1 * OPERAND_MAX + w2
            * OPERAND_MAX + w3 * OPERAND_MAX) by (nonlinear_arith);
    }
    let c: i128 = 100 - i;
    let sum: i128 = c * c * c * p0 + 3 * c * c * i * p1 + 3 * c * i * i * p2 + i * i * i * p3;
    let r = tdiv_e(sum, 1_000_000);
    proof {
        lemma_tdiv_abs_is_div(sum as int, 1_000_000);
        vstd::arithmetic::div_mod::lemma_div_is_ordered(
            crate::fx::iabs(sum as int),
            1_000_000 * OPERAND_MAX,
            1_000_000,
        );
        vstd::arithmetic::div_mod::lemma_div_multiples_vanish(OPERAND_MAX as int, 1_000_000);
    }
    r
}

/// A quadratic curve whose start, control and end coincide collapses: every
/// sample of it is exactly that point, at every parameter step.
pub proof fn lemma_quad_degenerate(p: int, i: int)
    requires
        0 <= i <= 100,
    ensures
        spec_quad_coord(p, p, p, i) == p,
{
    let c = 100 - i;
    lemma_quad_weights(i);
    assert(c * c * p + 2 * c * i * p + i * i * p == 10_000 * p) by (nonlinear_arith)
        requires
            c * c + 2 * c * i + i * i == 10_000,
            c == 100 - i,
    ;
    lemma_tdiv_exact(p, 10_000);
    assert(p * 10_000 == 10_000 * p) by (nonlinear_arith);
}

/// The first cubic sample is exactly the start point, and the sample at the
/// final parameter step is exactly the end point.
pub proof fn lemma_cubic_endpoints(p0: int, p1: int, p2: int, p3: int)
    ensures
        spec_cubic_coord(p0, p1, p2, p3, 0) == p0,
        spec_cubic_coord(p0, p1, p2, p3, 100) == p3,
{
    assert(100 * 100 * 100 * p0 + 3 * 100 * 100 * 0 * p1 + 3 * 100 * 0 * 0 * p2 + 0 * 0 * 0 * p3
        == 1_000_000 * p0) by (nonlinear_arith);
    assert(0 * 0 * 0 * p0 + 3 * 0 * 0 * 100 * p1 + 3 * 0 * 100 * 100 * p2 + 100 * 100 * 100 * p3
        == 1_000_000 * p3) by (nonlinear_arith);
    lemma_tdiv_exact(p0, 1_000_000);
    lemma_tdiv_exact(p3, 1_000_000);
    assert(p0 * 1_000_000 == 1_000_000 * p0) by (nonlinear_arith);
    assert(p3 * 1_000_000 == 1_000_000 * p3) by (nonlinear_arith);
}

} // verus!
