//! Elliptical arc tessellation.
//!
//! An arc command is resolved by the endpoint-to-center parameterization:
//! the endpoints are rotated into the ellipse frame, the radii are scaled up
//! when the endpoints are geometrically unreachable, the center and the
//! start and sweep angles are derived (the sweep direction adjusted by a
//! full turn to honor the sweep and large-arc flags), and the arc is sampled
//! at `num_points + 1` evenly spaced angles, each rotated back by the
//! ellipse's x-axis rotation.
//!
//! Every step is fixed-point arithmetic with an exact contract; a handful of
//! saturations (named below) keep intermediate magnitudes inside the machine
//! range — none of them binds on geometry that fits the canvas.

use vstd::prelude::*;
use crate::fx::{
    FX_ONE, iabs, tdiv, fmul, fdiv, fclamp, fbound, fsqrt, fmul_e, fdiv_e, fclamp_e, fbound_e,
    fsqrt_e, tdiv_e, lemma_fmul_le_exact, lemma_fdiv_le_exact, lemma_mul_bound, lemma_tdiv_abs,
};
use crate::trig::{
    spec_sin, spec_cos, spec_atan2, sin_fx, cos_fx, atan2_fx, TWO_PI_FX, ATAN_OUT_MAX,
    SIN_OUT_MAX,
};
use crate::transform::spec_deg_to_rad;
use crate::Point;

verus! {

/// Largest coordinate and radius magnitude an arc accepts: a thousand
/// canvas units.
pub const ARC_COORD_MAX: i128 = 100_000_000_000_000;

/// Smallest radius an arc accepts: a ten-thousandth of a canvas unit.
/// Radii below this are degenerate.
pub const ARC_R_MIN: i128 = 10_000_000;

/// Radii scaled up for unreachable endpoints are saturated here.
pub const ARC_R_CLAMP: i128 = 300_000_000_000_000;

/// The squared center factor is saturated here before its square root.
pub const FACTOR2_CLAMP: i128 = 1_000_000_000_000_000_000_000_000;

/// Center offsets are saturated here.
pub const CENTER_CLAMP: i128 = 1_000_000_000_000_000;

/// The finest sampling an arc accepts.
pub const ARC_N_MAX: usize = 10_000;

/// The resolved geometry of one arc: effective radii, the rotation's cosine
/// and sine, the center, the start angle and the signed sweep.
pub ghost struct ArcGeom {
    pub rx: int,
    pub ry: int,
    pub ca: int,
    pub sa: int,
    pub cx: int,
    pub cy: int,
    pub sta: int,
    pub delta: int,
}

/// The endpoint-to-center parameterization, exactly as the evaluator
/// computes it.
pub open spec fn spec_arc_geom(
    x1: int,
    y1: int,
    rx0: int,
    ry0: int,
    rot: int,
    laf: bool,
    sf: bool,
    x2: int,
    y2: int,
) -> ArcGeom {
    let rad = spec_deg_to_rad(rot);
    let ca = spec_cos(rad);
    let sa = spec_sin(rad);
    let xd = tdiv(x1 - x2, 2);
    let yd = tdiv(y1 - y2, 2);
    let x1p = fmul(ca, xd) + fmul(sa, yd);
    let y1p = -fmul(sa, xd) + fmul(ca, yd);
    let lam = fmul(fdiv(x1p, rx0), fdiv(x1p, rx0)) + fmul(fdiv(y1p, ry0), fdiv(y1p, ry0));
    let rx = if lam > FX_ONE {
        fbound(fmul(rx0, fsqrt(lam)), ARC_R_MIN as int, ARC_R_CLAMP as int)
    } else {
        rx0
    };
    let ry = if lam > FX_ONE {
        fbound(fmul(ry0, fsqrt(lam)), ARC_R_MIN as int, ARC_R_CLAMP as int)
    } else {
        ry0
    };
    let rx2 = fmul(rx, rx);
    let ry2 = fmul(ry, ry);
    let x1p2 = fmul(x1p, x1p);
    let y1p2 = fmul(y1p, y1p);
    let den = fmul(rx2, y1p2) + fmul(ry2, x1p2);
    let num0 = fmul(rx2, ry2) - fmul(rx2, y1p2) - fmul(ry2, x1p2);
    let num = if num0 < 0 {
        0
    } else {
        num0
    };
    let factor = if den == 0 {
        0
    } else {
        fsqrt(fclamp(fdiv(num, den), FACTOR2_CLAMP as int))
    };
    let sgn: int = if laf == sf {
        -1
    } else {
        1
    };
    let q1 = fclamp(fdiv(fmul(rx, y1p), ry), CENTER_CLAMP as int);
    let q2 = fclamp(fdiv(fmul(ry, x1p), rx), CENTER_CLAMP as int);
    let cxp = fclamp(sgn * fmul(factor, q1), CENTER_CLAMP as int);
    let cyp = fclamp(-sgn * fmul(factor, q2), CENTER_CLAMP as int);
    let cx = fmul(ca, cxp) - fmul(sa, cyp) + tdiv(x1 + x2, 2);
    let cy = fmul(sa, cxp) + fmul(ca, cyp) + tdiv(y1 + y2, 2);
    let sta = spec_atan2(fdiv(y1p - cyp, ry), fdiv(x1p - cxp, rx));
    let d0 = spec_atan2(fdiv(-y1p - cyp, ry), fdiv(-x1p - cxp, rx)) - sta;
    let sfi: int = if sf {
        1
    } else {
        -1
    };
    let d1 = if d0 * sfi < 0 {
        d0 + TWO_PI_FX
    } else {
        d0
    };
    let delta = if sf {
        d1
    } else {
        -d1
    };
    ArcGeom { rx, ry, ca, sa, cx, cy, sta, delta }
}

/// The sample at step `j` of `n`: the point at the interpolated angle,
/// rotated back by the x-axis rotation about the center.
pub open spec fn spec_arc_point(g: ArcGeom, j: int, n: int) -> (int, int) {
    let ang = g.sta + tdiv(j * g.delta, n);
    let xu = g.cx + fmul(g.rx, spec_cos(ang));
    let yu = g.cy + fmul(g.ry, spec_sin(ang));
    let xr = fmul(g.ca, xu - g.cx) - fmul(g.sa, yu - g.cy) + g.cx;
    let yr = fmul(g.sa, xu - g.cx) + fmul(g.ca, yu - g.cy) + g.cy;
    (xr, yr)
}

/// The geometry a well-formed arc resolves to is bounded.
pub open spec fn arc_in_range(
    x1: int,
    y1: int,
    rx0: int,
    ry0: int,
    rot: int,
    x2: int,
    y2: int,
) -> bool {
    &&& -ARC_COORD_MAX <= x1 <= ARC_COORD_MAX
    &&& -ARC_COORD_MAX <= y1 <= ARC_COORD_MAX
    &&& -ARC_COORD_MAX <= x2 <= ARC_COORD_MAX
    &&& -ARC_COORD_MAX <= y2 <= ARC_COORD_MAX
    &&& ARC_R_MIN <= rx0 <= ARC_COORD_MAX
    &&& ARC_R_MIN <= ry0 <= ARC_COORD_MAX
    &&& -crate::numparse::OPERAND_MAX <= rot <= crate::numparse::OPERAND_MAX
}

/// Flattens one elliptical arc into `num_points + 1` samples from the start
/// angle through the whole sweep.  The contract is exact: sample `j` is
/// `spec_arc_point` of the resolved geometry.
pub fn elliptical_arc(
    start: (i128, i128),
    radii: (i128, i128),
    x_axis_rotation: i128,
    large_arc_flag: bool,
    sweep_flag: bool,
    end: (i128, i128),
    num_points: usize,
) -> (pts: Vec<Point>)
    requires
        arc_in_range(
            start.0 as int,
            start.1 as int,
            radii.0 as int,
            radii.1 as int,
            x_axis_rotation as int,
            end.0 as int,
            end.1 as int,
        ),
        1 <= num_points <= ARC_N_MAX,
    ensures
        pts@.len() == num_points + 1,
        forall|j: int|
            0 <= j < pts@.len() ==> {
                let g = spec_arc_geom(
                    start.0 as int,
                    start.1 as int,
                    radii.0 as int,
                    radii.1 as int,
                    x_axis_rotation as int,
                    large_arc_flag,
                    sweep_flag,
                    end.0 as int,
                    end.1 as int,
                );
                (#[trigger] pts@[j]).x == spec_arc_point(g, j, num_points as int).0 && pts@[j].y
                    == spec_arc_point(g, j, num_points as int).1
            },
{
    let (x1, y1) = start;
    let (rx0, ry0) = radii;
    let (x2, y2) = end;
    let ghost g = spec_arc_geom(
        x1 as int,
        y1 as int,
        rx0 as int,
        ry0 as int,
        x_axis_rotation as int,
        large_arc_flag,
        sweep_flag,
        x2 as int,
        y2 as int,
    );
    let rad = crate::transform::deg_to_rad(x_axis_rotation);
    let ca = cos_fx(rad);
    let sa = sin_fx(rad);
    let xd = tdiv_e(x1 - x2, 2);
    let yd = tdiv_e(y1 - y2, 2);
    proof {
        lemma_tdiv_abs(x1 as int - x2 as int, 2);
    }
    let caxd = fmul_e(ca, xd);
    let sayd = fmul_e(sa, yd);
    let saxd = fmul_e(sa, xd);
    let cayd = fmul_e(ca, yd);
    proof {
        lemma_fmul_le_exact(ca as int, xd as int, SIN_OUT_MAX as int, ARC_COORD_MAX as int,
            200_000_000_000_000);
        lemma_fmul_le_exact(sa as int, yd as int, SIN_OUT_MAX as int, ARC_COORD_MAX as int,
            200_000_000_000_000);
        lemma_fmul_le_exact(sa as int, xd as int, SIN_OUT_MAX as int, ARC_COORD_MAX as int,
            200_000_000_000_000);
        lemma_fmul_le_exact(ca as int, yd as int, SIN_OUT_MAX as int, ARC_COORD_MAX as int,
            200_000_000_000_000);
    }
    let x1p = caxd + sayd;
    let y1p = -saxd + cayd;
    proof {
        lemma_fdiv_le_exact(x1p as int, rx0 as int, 400_000_000_000_000, ARC_R_MIN as int,
            4_000_000_000_000_000_000);
        lemma_fdiv_le_exact(y1p as int, ry0 as int, 400_000_000_000_000, ARC_R_MIN as int,
            4_000_000_000_000_000_000);
    }
    let lx = fdiv_e(x1p, rx0);
    let ly = fdiv_e(y1p, ry0);
    proof {
        lemma_fmul_le_exact(lx as int, lx as int, 4_000_000_000_000_000_000,
            4_000_000_000_000_000_000, 160_000_000_000_000_000_000_000_000);
        lemma_fmul_le_exact(ly as int, ly as int, 4_000_000_000_000_000_000,
            4_000_000_000_000_000_000, 160_000_000_000_000_000_000_000_000);
    }
    let lamx = fmul_e(lx, lx);
    let lamy = fmul_e(ly, ly);
    let lam = lamx + lamy;
    let rx: i128;
    let ry: i128;
    if lam > FX_ONE {
        let sl = fsqrt_e(lam);
        proof {
            crate::fx::lemma_sqrt_floor_props(lam as int * FX_ONE);
            assert((sl as int) < 6_000_000_000_000_000_000) by (nonlinear_arith)
                requires
                    sl as int * sl as int <= lam as int * FX_ONE,
                    lam as int * FX_ONE <= 320_000_000_000_000_000_000_000_000
                        * 100_000_000_000,
                    sl as int >= 0,
            ;
        }
        rx = fbound_e(fmul_e(rx0, sl), ARC_R_MIN, ARC_R_CLAMP);
        ry = fbound_e(fmul_e(ry0, sl), ARC_R_MIN, ARC_R_CLAMP);
    } else {
        rx = rx0;
        ry = ry0;
    }
    let rx2 = fmul_e(rx, rx);
    let ry2 = fmul_e(ry, ry);
    let x1p2 = fmul_e(x1p, x1p);
    let y1p2 = fmul_e(y1p, y1p);
    proof {
        lemma_fmul_le_exact(rx as int, rx as int, ARC_R_CLAMP as int, ARC_R_CLAMP as int,
            900_000_000_000_000_000);
        lemma_fmul_le_exact(ry as int, ry as int, ARC_R_CLAMP as int, ARC_R_CLAMP as int,
            900_000_000_000_000_000);
        lemma_fmul_le_exact(x1p as int, x1p as int, 400_000_000_000_000, 400_000_000_000_000,
            1_600_000_000_000_000_000);
        lemma_fmul_le_exact(y1p as int, y1p as int, 400_000_000_000_000, 400_000_000_000_000,
            1_600_000_000_000_000_000);
        crate::fx::lemma_fmul_nonneg(rx as int, rx as int);
        crate::fx::lemma_fmul_nonneg(ry as int, ry as int);
        if x1p >= 0 {
            crate::fx::lemma_fmul_nonneg(x1p as int, x1p as int);
        } else {
            crate::fx::lemma_fmul_nonneg(x1p as int, x1p as int);
        }
        crate::fx::lemma_fmul_nonneg(y1p as int, y1p as int);
    }
    let rxy1 = fmul_e(rx2, y1p2);
    let ryx1 = fmul_e(ry2, x1p2);
    let rxry = fmul_e(rx2, ry2);
    proof {
        lemma_fmul_le_exact(rx2 as int, y1p2 as int, 900_000_000_000_000_000,
            1_600_000_000_000_000_000, 14_400_000_000_000_000_000_000_000);
        lemma_fmul_le_exact(ry2 as int, x1p2 as int, 900_000_000_000_000_000,
            1_600_000_000_000_000_000, 14_400_000_000_000_000_000_000_000);
        lemma_fmul_le_exact(rx2 as int, ry2 as int, 900_000_000_000_000_000,
            900_000_000_000_000_000, 8_100_000_000_000_000_000_000_000);
        crate::fx::lemma_fmul_nonneg(rx2 as int, y1p2 as int);
        crate::fx::lemma_fmul_nonneg(ry2 as int, x1p2 as int);
        crate::fx::lemma_fmul_nonneg(rx2 as int, ry2 as int);
    }
    let den = rxy1 + ryx1;
    let num0 = rxry - rxy1 - ryx1;
    let num: i128 = if num0 < 0 {
        0
    } else {
        num0
    };
    let factor: i128;
    if den == 0 {
        factor = 0;
    } else {
        let fq = fdiv_e(num, den);
        proof {
            assert(num as int * FX_ONE >= 0) by (nonlinear_arith)
                requires
                    num as int >= 0,
                    FX_ONE as int > 0,
            ;
            lemma_tdiv_abs(num as int * FX_ONE, den as int);
        }
        let f2 = fclamp_e(fq, FACTOR2_CLAMP);
        factor = fsqrt_e(f2);
        proof {
            crate::fx::lemma_sqrt_floor_props(f2 as int * FX_ONE);
            assert((factor as int) < 400_000_000_000_000_000) by (nonlinear_arith)
                requires
                    factor as int * factor as int <= f2 as int * FX_ONE,
                    f2 as int * FX_ONE <= FACTOR2_CLAMP as int * 100_000_000_000,
                    factor as int >= 0,
            ;
        }
    }
    let sgn: i128 = if large_arc_flag == sweep_flag {
        -1
    } else {
        1
    };
    let rxy1p = fmul_e(rx, y1p);
    let ryx1p = fmul_e(ry, x1p);
    proof {
        lemma_fmul_le_exact(rx as int, y1p as int, ARC_R_CLAMP as int, 400_000_000_000_000,
            1_200_000_000_000_000_000);
        lemma_fmul_le_exact(ry as int, x1p as int, ARC_R_CLAMP as int, 400_000_000_000_000,
            1_200_000_000_000_000_000);
    }
    let q1 = fclamp_e(fdiv_e(rxy1p, ry), CENTER_CLAMP);
    let q2 = fclamp_e(fdiv_e(ryx1p, rx), CENTER_CLAMP);
    let fq1 = fmul_e(factor, q1);
    let fq2 = fmul_e(factor, q2);
    proof {
        lemma_fmul_le_exact(factor as int, q1 as int, 400_000_000_000_000_000,
            CENTER_CLAMP as int, 4_000_000_000_000_000_000_000);
        lemma_fmul_le_exact(factor as int, q2 as int, 400_000_000_000_000_000,
            CENTER_CLAMP as int, 4_000_000_000_000_000_000_000);
        lemma_mul_bound(sgn as int, fq1 as int, 1, 4_000_000_000_000_000_000_000);
        lemma_mul_bound(-(sgn as int), fq2 as int, 1, 4_000_000_000_000_000_000_000);
    }
    let cxp = fclamp_e(sgn * fq1, CENTER_CLAMP);
    let cyp = fclamp_e(-sgn * fq2, CENTER_CLAMP);
    let cacx = fmul_e(ca, cxp);
    let sacy = fmul_e(sa, cyp);
    let sacx = fmul_e(sa, cxp);
    let cacy = fmul_e(ca, cyp);
    proof {
        lemma_fmul_le_exact(ca as int, cxp as int, SIN_OUT_MAX as int, CENTER_CLAMP as int,
            2_000_000_000_000_000);
        lemma_fmul_le_exact(sa as int, cyp as int, SIN_OUT_MAX as int, CENTER_CLAMP as int,
            2_000_000_000_000_000);
        lemma_fmul_le_exact(sa as int, cxp as int, SIN_OUT_MAX as int, CENTER_CLAMP as int,
            2_000_000_000_000_000);
        lemma_fmul_le_exact(ca as int, cyp as int, SIN_OUT_MAX as int, CENTER_CLAMP as int,
            2_000_000_000_000_000);
        lemma_tdiv_abs(x1 as int + x2 as int, 2);
        lemma_tdiv_abs(y1 as int + y2 as int, 2);
    }
    let cx = cacx - sacy + tdiv_e(x1 + x2, 2);
    let cy = sacx + cacy + tdiv_e(y1 + y2, 2);
    proof {
        lemma_fdiv_le_exact(y1p as int - cyp as int, ry as int, 1_400_000_000_000_000,
            ARC_R_MIN as int, 14_000_000_000_000_000_000);
        lemma_fdiv_le_exact(x1p as int - cxp as int, rx as int, 1_400_000_000_000_000,
            ARC_R_MIN as int, 14_000_000_000_000_000_000);
        lemma_fdiv_le_exact(-(y1p as int) - cyp as int, ry as int, 1_400_000_000_000_000,
            ARC_R_MIN as int, 14_000_000_000_000_000_000);
        lemma_fdiv_le_exact(-(x1p as int) - cxp as int, rx as int, 1_400_000_000_000_000,
            ARC_R_MIN as int, 14_000_000_000_000_000_000);
    }
    let sta = atan2_fx(fdiv_e(y1p - cyp, ry), fdiv_e(x1p - cxp, rx));
    let d0 = atan2_fx(fdiv_e(-y1p - cyp, ry), fdiv_e(-x1p - cxp, rx)) - sta;
    let sfi: i128 = if sweep_flag {
        1
    } else {
        -1
    };
    proof {
        lemma_mul_bound(d0 as int, sfi as int, 4_100_000_000_000, 1);
    }
    let d1: i128 = if d0 * sfi < 0 {
        d0 + TWO_PI_FX
    } else {
        d0
    };
    let delta: i128 = if sweep_flag {
        d1
    } else {
        -d1
    };
    proof {
        assert(g.rx == rx as int && g.ry == ry as int && g.ca == ca as int && g.sa == sa as int
            && g.cx == cx as int && g.cy == cy as int && g.sta == sta as int && g.delta
            == delta as int);
    }
    let mut pts: Vec<Point> = Vec::new();
    let mut j: usize = 0;
    while j <= num_points
        invariant
            0 <= j <= num_points + 1,
            1 <= num_points <= ARC_N_MAX,
            pts@.len() == j,
            g.rx == rx as int,
            g.ry == ry as int,
            g.ca == ca as int,
            g.sa == sa as int,
            g.cx == cx as int,
            g.cy == cy as int,
            g.sta == sta as int,
            g.delta == delta as int,
            ARC_R_MIN <= rx <= ARC_R_CLAMP,
            ARC_R_MIN <= ry <= ARC_R_CLAMP,
            -SIN_OUT_MAX <= ca <= SIN_OUT_MAX,
            -SIN_OUT_MAX <= sa <= SIN_OUT_MAX,
            -4_200_000_000_000_000 <= cx <= 4_200_000_000_000_000,
            -4_200_000_000_000_000 <= cy <= 4_200_000_000_000_000,
            -ATAN_OUT_MAX <= sta <= ATAN_OUT_MAX,
            -5_000_000_000_000 <= delta <= 5_000_000_000_000,
            forall|k: int|
                0 <= k < j ==> (#[trigger] pts@[k]).x == spec_arc_point(
                    g,
                    k,
                    num_points as int,
                ).0 && pts@[k].y == spec_arc_point(g, k, num_points as int).1,
        decreases num_points + 1 - j,
    {
        proof {
            lemma_mul_bound(j as int, delta as int, ARC_N_MAX as int, 5_000_000_000_000);
        }
        let jd = (j as i128) * delta;
        let tang = tdiv_e(jd, num_points as i128);
        proof {
            lemma_tdiv_abs(jd as int, num_points as int);
        }
        let ang = sta + tang;
        let cosa = cos_fx(ang);
        let sina = sin_fx(ang);
        let dx = fmul_e(rx, cosa);
        let dy = fmul_e(ry, sina);
        proof {
            lemma_fmul_le_exact(rx as int, cosa as int, ARC_R_CLAMP as int, SIN_OUT_MAX as int,
                600_000_000_000_000);
            lemma_fmul_le_exact(ry as int, sina as int, ARC_R_CLAMP as int, SIN_OUT_MAX as int,
                600_000_000_000_000);
        }
        let xu = cx + dx;
        let yu = cy + dy;
        let rdx = xu - cx;
        let rdy = yu - cy;
        let cadx = fmul_e(ca, rdx);
        let sady = fmul_e(sa, rdy);
        let sadx = fmul_e(sa, rdx);
        let cady = fmul_e(ca, rdy);
        proof {
            lemma_fmul_le_exact(ca as int, rdx as int, SIN_OUT_MAX as int, 600_000_000_000_000,
                1_200_000_000_000_000);
            lemma_fmul_le_exact(sa as int, rdy as int, SIN_OUT_MAX as int, 600_000_000_000_000,
                1_200_000_000_000_000);
            lemma_fmul_le_exact(sa as int, rdx as int, SIN_OUT_MAX as int, 600_000_000_000_000,
                1_200_000_000_000_000);
            lemma_fmul_le_exact(ca as int, rdy as int, SIN_OUT_MAX as int, 600_000_000_000_000,
                1_200_000_000_000_000);
        }
        let xr = cadx - sady + cx;
        let yr = sadx + cady + cy;
        pts.push(Point { x: xr, y: yr });
        j += 1;
    }
    pts
}

} // verus!
