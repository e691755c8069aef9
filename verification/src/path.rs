//! The path command grammar and its stateful interpreter.
//!
//! A path attribute is cut into segments at uppercase command letters; text
//! before the first letter is tolerated as a no-op unless it hides a
//! lowercase (relative) command, which the engine does not support.  Each
//! segment is a letter plus whitespace-separated operands, read by arity.
//! The interpreter walks the typed commands with the current point, the
//! subpath start, and the previous curve's control point (kept as a typed
//! field for the smooth `S`/`T` reflections), emitting flattened canvas
//! points.

use vstd::prelude::*;
use crate::fx::{iabs, fdiv, fclamp, fclamp_e, fdiv_e, lemma_fdiv_bound};
use crate::numparse::{
    OPERAND_MAX, number_ok, number_val, lit_true, lit_false, spec_split_ws, split_ws, parse_fx,
    parse_flag, sub_vec,
};
use crate::SvgError;
use crate::Point;
use crate::transform::{Transform, spec_apply, apply_transform, SCALE_MIN, spec_parse_transform,
    parse_transform, transform_wf};
use crate::bezier::{quad_coord, cubic_coord};
use crate::fill::{spec_style_has_fill, style_has_fill, spec_bbox_cells, bbox_fill};

verus! {

/// A typed path command with absolute operands at the fixed-point scale.
#[derive(Clone, Copy, Debug, PartialEq, Eq, Structural)]
pub enum PathCommand {
    /// `M x y`: begin a subpath.
    Move(i128, i128),
    /// `L x y`: straight segment.
    Line(i128, i128),
    /// `Q cx cy x y`: quadratic curve.
    QuadCurve(i128, i128, i128, i128),
    /// `C c1x c1y c2x c2y x y`: cubic curve.
    CubicCurve(i128, i128, i128, i128, i128, i128),
    /// `S c2x c2y x y`: smooth cubic curve.
    SmoothCubic(i128, i128, i128, i128),
    /// `T x y`: smooth quadratic curve.
    SmoothQuad(i128, i128),
    /// `A rx ry rot large sweep x y`: elliptical arc.
    Arc(i128, i128, i128, bool, bool, i128, i128),
    /// `H x`: horizontal segment.
    Horizontal(i128),
    /// `V y`: vertical segment.
    Vertical(i128),
    /// `Z`: close the subpath.
    Close,
}

/// An uppercase command letter.
pub open spec fn is_upper(c: u8) -> bool {
    65 <= c <= 90
}

/// A lowercase letter: a relative command, unsupported.
pub open spec fn is_lower(c: u8) -> bool {
    97 <= c <= 122
}

/// Index of the first uppercase letter, or the length if none.
pub open spec fn find_upper(s: Seq<u8>) -> nat
    decreases s.len(),
{
    if s.len() == 0 {
        0
    } else if is_upper(s[0]) {
        0
    } else {
        1 + find_upper(s.skip(1))
    }
}

/// Whether any byte is a lowercase letter.
pub open spec fn has_lower(s: Seq<u8>) -> bool {
    exists|j: int| 0 <= j < s.len() && is_lower(#[trigger] s[j])
}

/// `find_upper` is the first uppercase index.
pub proof fn lemma_find_upper_is(s: Seq<u8>, k: int)
    requires
        0 <= k <= s.len(),
        forall|j: int| 0 <= j < k ==> !is_upper(s[j]),
        k < s.len() ==> is_upper(s[k]),
    ensures
        find_upper(s) == k,
    decreases s.len(),
{
    if s.len() == 0 {
    } else if is_upper(s[0]) {
        assert(k == 0);
    } else {
        assert(k >= 1);
        lemma_find_upper_is(s.skip(1), k - 1);
    }
}

/// The command segments of a path string whose first byte is a command
/// letter: each letter with its operand text, split before the next letter.
pub open spec fn spec_segments(s: Seq<u8>) -> Seq<(u8, Seq<u8>)>
    decreases s.len(),
{
    if s.len() == 0 {
        Seq::empty()
    } else {
        let e0 = 1 + find_upper(s.skip(1));
        let e = if e0 < s.len() {
            e0 as int
        } else {
            s.len() as int
        };
        seq![(s[0], s.subrange(1, e))] + spec_segments(s.skip(e))
    }
}

/// The operand tokens read as numbers; `None` as soon as one is not a
/// number.
pub open spec fn toks_vals(toks: Seq<Seq<u8>>) -> Option<Seq<i128>>
    decreases toks.len(),
{
    if toks.len() == 0 {
        Some(Seq::empty())
    } else if number_ok(toks[0]) {
        match toks_vals(toks.skip(1)) {
            Some(t) => Some(seq![number_val(toks[0]) as i128] + t),
            None => None,
        }
    } else {
        None
    }
}

/// What one segment parses to: a command, `UnsupportedCommand` for an
/// unknown letter, `NumericParseError` for a wrong operand or arity.
pub open spec fn spec_cmd(letter: u8, body: Seq<u8>) -> Result<PathCommand, SvgError> {
    let toks = spec_split_ws(body);
    if letter == 90 {
        if toks.len() == 0 {
            Ok(PathCommand::Close)
        } else {
            Err(SvgError::NumericParseError)
        }
    } else if letter == 65 {
        if toks.len() == 7 && number_ok(toks[0]) && number_ok(toks[1]) && number_ok(toks[2])
            && number_ok(toks[5]) && number_ok(toks[6]) && (toks[3] == lit_true() || toks[3]
            == lit_false()) && (toks[4] == lit_true() || toks[4] == lit_false()) {
            Ok(
                PathCommand::Arc(
                    number_val(toks[0]) as i128,
                    number_val(toks[1]) as i128,
                    number_val(toks[2]) as i128,
                    toks[3] == lit_true(),
                    toks[4] == lit_true(),
                    number_val(toks[5]) as i128,
                    number_val(toks[6]) as i128,
                ),
            )
        } else {
            Err(SvgError::NumericParseError)
        }
    } else if letter == 77 || letter == 76 || letter == 81 || letter == 67 || letter == 83
        || letter == 84 || letter == 72 || letter == 86 {
        match toks_vals(toks) {
            Some(v) => {
                if letter == 77 && v.len() == 2 {
                    Ok(PathCommand::Move(v[0], v[1]))
                } else if letter == 76 && v.len() == 2 {
                    Ok(PathCommand::Line(v[0], v[1]))
                } else if letter == 81 && v.len() == 4 {
                    Ok(PathCommand::QuadCurve(v[0], v[1], v[2], v[3]))
                } else if letter == 67 && v.len() == 6 {
                    Ok(PathCommand::CubicCurve(v[0], v[1], v[2], v[3], v[4], v[5]))
                } else if letter == 83 && v.len() == 4 {
                    Ok(PathCommand::SmoothCubic(v[0], v[1], v[2], v[3]))
                } else if letter == 84 && v.len() == 2 {
                    Ok(PathCommand::SmoothQuad(v[0], v[1]))
                } else if letter == 72 && v.len() == 1 {
                    Ok(PathCommand::Horizontal(v[0]))
                } else if letter == 86 && v.len() == 1 {
                    Ok(PathCommand::Vertical(v[0]))
                } else {
                    Err(SvgError::NumericParseError)
                }
            },
            None => Err(SvgError::NumericParseError),
        }
    } else {
        Err(SvgError::UnsupportedCommand)
    }
}

/// The commands of a segment list; the first failing segment decides.
pub open spec fn spec_cmds(segs: Seq<(u8, Seq<u8>)>) -> Result<Seq<PathCommand>, SvgError>
    decreases segs.len(),
{
    if segs.len() == 0 {
        Ok(Seq::empty())
    } else {
        match spec_cmd(segs[0].0, segs[0].1) {
            Ok(c) => match spec_cmds(segs.skip(1)) {
                Ok(t) => Ok(seq![c] + t),
                Err(e) => Err(e),
            },
            Err(e) => Err(e),
        }
    }
}

/// What parsing a whole path attribute yields.  Text before the first
/// command letter is ignored, unless it holds a lowercase (relative)
/// command letter.
pub open spec fn spec_parse_path(s: Seq<u8>) -> Result<Seq<PathCommand>, SvgError> {
    let u = find_upper(s) as int;
    if has_lower(s.take(u)) {
        Err(SvgError::UnsupportedCommand)
    } else {
        spec_cmds(spec_segments(s.skip(u)))
    }
}

/// Every operand of a command is inside the operand range.
pub open spec fn cmd_wf(c: PathCommand) -> bool {
    let m = OPERAND_MAX as int;
    match c {
        PathCommand::Move(a, b) => -m < a < m && -m < b < m,
        PathCommand::Line(a, b) => -m < a < m && -m < b < m,
        PathCommand::QuadCurve(a, b, c2, d) => -m < a < m && -m < b < m && -m < c2 < m && -m < d
            < m,
        PathCommand::CubicCurve(a, b, c2, d, e, f) => -m < a < m && -m < b < m && -m < c2 < m
            && -m < d < m && -m < e < m && -m < f < m,
        PathCommand::SmoothCubic(a, b, c2, d) => -m < a < m && -m < b < m && -m < c2 < m && -m < d
            < m,
        PathCommand::SmoothQuad(a, b) => -m < a < m && -m < b < m,
        PathCommand::Arc(a, b, c2, _, _, e, f) => -m < a < m && -m < b < m && -m < c2 < m && -m
            < e < m && -m < f < m,
        PathCommand::Horizontal(a) => -m < a < m,
        PathCommand::Vertical(a) => -m < a < m,
        PathCommand::Close => true,
    }
}

/// Reads whitespace-separated operand tokens as numbers.
fn parse_nums(toks: &Vec<Vec<u8>>) -> (r: Result<Vec<i128>, SvgError>)
    ensures
        match r {
            Ok(v) => toks_vals(toks.deep_view()) == Some(v@) && forall|j: int|
                0 <= j < v@.len() ==> -OPERAND_MAX < #[trigger] v@[j] < OPERAND_MAX,
            Err(e) => toks_vals(toks.deep_view()) is None && e == SvgError::NumericParseError,
        },
{
    let ghost td = toks.deep_view();
    let mut out: Vec<i128> = Vec::new();
    let mut k: usize = 0;
    proof {
        assert(td.skip(0) =~= td);
    }
    while k < toks.len()
        invariant
            0 <= k <= toks@.len(),
            td == toks.deep_view(),
            td.len() == toks@.len(),
            forall|j: int| 0 <= j < td.len() ==> td[j] == toks@[j]@,
            forall|j: int| 0 <= j < out@.len() ==> -OPERAND_MAX < #[trigger] out@[j] < OPERAND_MAX,
            toks_vals(td) == match toks_vals(td.skip(k as int)) {
                Some(t) => Some(out@ + t),
                None => None::<Seq<i128>>,
            },
        decreases toks@.len() - k,
    {
        proof {
            assert(td.skip(k as int)[0] == td[k as int]);
            assert(td.skip(k as int).skip(1) =~= td.skip(k as int + 1));
        }
        match parse_fx(toks[k].as_slice()) {
            Ok(v) => {
                out.push(v);
                proof {
                    if toks_vals(td.skip(k as int + 1)) is Some {
                        let tail = toks_vals(td.skip(k as int + 1)).unwrap();
                        assert(out@ + tail =~= out@.drop_last() + (seq![v] + tail));
                    }
                }
            },
            Err(_) => {
                return Err(SvgError::NumericParseError);
            },
        }
        k += 1;
    }
    proof {
        assert(td.skip(k as int) =~= Seq::<Seq<u8>>::empty());
        assert(out@ + Seq::<i128>::empty() =~= out@);
    }
    Ok(out)
}

/// Reads one segment into a command.
fn parse_cmd(letter: u8, body: &[u8]) -> (r: Result<PathCommand, SvgError>)
    ensures
        r == spec_cmd(letter, body@),
        r is Ok ==> cmd_wf(r.unwrap()),
{
    let toks = split_ws(body);
    let ghost td = toks.deep_view();
    proof {
        assert(td =~~= spec_split_ws(body@));
        assert(td.len() == toks@.len());
        assert(forall|j: int| 0 <= j < td.len() ==> td[j] == #[trigger] toks@[j]@);
    }
    if letter == 90 {
        if toks.len() == 0 {
            Ok(PathCommand::Close)
        } else {
            Err(SvgError::NumericParseError)
        }
    } else if letter == 65 {
        if toks.len() != 7 {
            return Err(SvgError::NumericParseError);
        }
        let rx = match parse_fx(toks[0].as_slice()) {
            Ok(v) => v,
            Err(_) => {
                return Err(SvgError::NumericParseError);
            },
        };
        let ry = match parse_fx(toks[1].as_slice()) {
            Ok(v) => v,
            Err(_) => {
                return Err(SvgError::NumericParseError);
            },
        };
        let rot = match parse_fx(toks[2].as_slice()) {
            Ok(v) => v,
            Err(_) => {
                return Err(SvgError::NumericParseError);
            },
        };
        let laf = match parse_flag(toks[3].as_slice()) {
            Ok(v) => v,
            Err(_) => {
                return Err(SvgError::NumericParseError);
            },
        };
        let sf = match parse_flag(toks[4].as_slice()) {
            Ok(v) => v,
            Err(_) => {
                return Err(SvgError::NumericParseError);
            },
        };
        let ex = match parse_fx(toks[5].as_slice()) {
            Ok(v) => v,
            Err(_) => {
                return Err(SvgError::NumericParseError);
            },
        };
        let ey = match parse_fx(toks[6].as_slice()) {
            Ok(v) => v,
            Err(_) => {
                return Err(SvgError::NumericParseError);
            },
        };
        Ok(PathCommand::Arc(rx, ry, rot, laf, sf, ex, ey))
    } else if letter == 77 || letter == 76 || letter == 81 || letter == 67 || letter == 83
        || letter == 84 || letter == 72 || letter == 86 {
        let v = match parse_nums(&toks) {
            Ok(v) => v,
            Err(e) => {
                return Err(e);
            },
        };
        if letter == 77 && v.len() == 2 {
            Ok(PathCommand::Move(v[0], v[1]))
        } else if letter == 76 && v.len() == 2 {
            Ok(PathCommand::Line(v[0], v[1]))
        } else if letter == 81 && v.len() == 4 {
            Ok(PathCommand::QuadCurve(v[0], v[1], v[2], v[3]))
        } else if letter == 67 && v.len() == 6 {
            Ok(PathCommand::CubicCurve(v[0], v[1], v[2], v[3], v[4], v[5]))
        } else if letter == 83 && v.len() == 4 {
            Ok(PathCommand::SmoothCubic(v[0], v[1], v[2], v[3]))
        } else if letter == 84 && v.len() == 2 {
            Ok(PathCommand::SmoothQuad(v[0], v[1]))
        } else if letter == 72 && v.len() == 1 {
            Ok(PathCommand::Horizontal(v[0]))
        } else if letter == 86 && v.len() == 1 {
            Ok(PathCommand::Vertical(v[0]))
        } else {
            Err(SvgError::NumericParseError)
        }
    } else {
        Err(SvgError::UnsupportedCommand)
    }
}

/// An uppercase test, executed.
fn is_upper_e(c: u8) -> (r: bool)
    ensures
        r == is_upper(c),
{
    65 <= c && c <= 90
}

/// A lowercase test, executed.
fn is_lower_e(c: u8) -> (r: bool)
    ensures
        r == is_lower(c),
{
    97 <= c && c <= 122
}

/// Reads a whole path attribute into typed commands: the contract is
/// exactly `spec_parse_path`.
#[verifier::rlimit(80)]
pub fn parse_path(d: &[u8]) -> (r: Result<Vec<PathCommand>, SvgError>)
    ensures
        match r {
            Ok(v) => spec_parse_path(d@) == Ok::<Seq<PathCommand>, SvgError>(v@) && forall|j: int|
                0 <= j < v@.len() ==> cmd_wf(#[trigger] v@[j]),
            Err(e) => spec_parse_path(d@) == Err::<Seq<PathCommand>, SvgError>(e),
        },
{
    // find the first command letter, refusing lowercase letters on the way
    let mut u: usize = 0;
    while u < d.len() && !is_upper_e(d[u])
        invariant
            0 <= u <= d@.len(),
            forall|j: int| 0 <= j < u ==> !is_upper(#[trigger] d@[j]),
            forall|j: int| 0 <= j < u ==> !is_lower(#[trigger] d@[j]),
        decreases d@.len() - u,
    {
        if is_lower_e(d[u]) {
            proof {
                lemma_find_upper_lb(d@, u as int + 1);
                lemma_find_upper_ub(d@);
                assert(d@.take(find_upper(d@) as int)[u as int] == d@[u as int]);
            }
            return Err(SvgError::UnsupportedCommand);
        }
        u += 1;
    }
    proof {
        lemma_find_upper_is(d@, u as int);
        assert(!has_lower(d@.take(u as int))) by {
            assert(forall|j: int|
                0 <= j < u ==> #[trigger] d@.take(u as int)[j] == d@[j]);
        }
    }
    let mut out: Vec<PathCommand> = Vec::new();
    let mut p: usize = u;
    while p < d.len()
        invariant
            u as int <= p <= d@.len(),
            p < d@.len() ==> is_upper(d@[p as int]),
            find_upper(d@) == u,
            !has_lower(d@.take(u as int)),
            forall|j: int| 0 <= j < out@.len() ==> cmd_wf(#[trigger] out@[j]),
            match spec_cmds(spec_segments(d@.skip(p as int))) {
                Ok(t) => spec_cmds(spec_segments(d@.skip(u as int))) == Ok::<
                    Seq<PathCommand>,
                    SvgError,
                >(out@ + t),
                Err(e) => spec_cmds(spec_segments(d@.skip(u as int))) == Err::<
                    Seq<PathCommand>,
                    SvgError,
                >(e),
            },
        decreases d@.len() - p,
    {
        // find the next command letter after this one
        let mut e: usize = p + 1;
        while e < d.len() && !is_upper_e(d[e])
            invariant
                p + 1 <= e <= d@.len(),
                forall|j: int| p + 1 <= j < e ==> !is_upper(#[trigger] d@[j]),
            decreases d@.len() - e,
        {
            e += 1;
        }
        proof {
            let rest = d@.skip(p as int);
            lemma_find_upper_is(rest.skip(1), e - p - 1);
            assert(rest.skip(1) =~= d@.skip(p as int + 1));
            assert(rest.subrange(1, e - p) =~= d@.subrange(p as int + 1, e as int));
            assert(rest.skip(e - p) =~= d@.skip(e as int));
            assert(rest[0] == d@[p as int]);
            let segs = spec_segments(d@.skip(p as int));
            assert(segs[0].0 == d@[p as int]);
            assert(segs[0].1 =~= d@.subrange(p as int + 1, e as int));
            assert(segs.skip(1) =~~= spec_segments(d@.skip(e as int)));
        }
        let body = sub_vec(d, p + 1, e);
        let c = match parse_cmd(d[p], body.as_slice()) {
            Ok(c) => c,
            Err(err) => {
                proof {
                    let segs = spec_segments(d@.skip(p as int));
                    assert(spec_cmd(segs[0].0, segs[0].1) == Err::<PathCommand, SvgError>(err));
                }
                return Err(err);
            },
        };
        let ghost out_prev = out@;
        out.push(c);
        proof {
            let segs_p = spec_segments(d@.skip(p as int));
            let tailr = spec_cmds(spec_segments(d@.skip(e as int)));
            assert(segs_p.skip(1) =~~= spec_segments(d@.skip(e as int)));
            assert(spec_cmds(segs_p.skip(1)) == tailr);
            assert(spec_cmd(segs_p[0].0, segs_p[0].1) == Ok::<PathCommand, SvgError>(c));
            match tailr {
                Ok(t) => {
                    assert(spec_cmds(segs_p) == Ok::<Seq<PathCommand>, SvgError>(seq![c] + t));
                    assert(spec_cmds(spec_segments(d@.skip(u as int))) == Ok::<
                        Seq<PathCommand>,
                        SvgError,
                    >(out_prev + (seq![c] + t)));
                    assert(out_prev + (seq![c] + t) =~= out@ + t);
                },
                Err(e2) => {
                    assert(spec_cmds(segs_p) == Err::<Seq<PathCommand>, SvgError>(e2));
                },
            }
        }
        p = e;
    }
    proof {
        assert(d@.skip(p as int) =~= Seq::<u8>::empty());
        assert(out@ + Seq::<PathCommand>::empty() =~= out@);
    }
    Ok(out)
}

/// The y-flip offset: one hundred canvas units.
pub const FLIP_FX: i128 = 10_000_000_000_000;

/// The interpreter state: the current point, the subpath start, and the
/// previous curve's last control point, kept separately for the quadratic
/// and cubic families so that `T` reflects only after `Q`/`T` and `S` only
/// after `C`/`S`.
#[derive(Clone, Copy, Debug)]
pub struct WalkState {
    pub cur: Point,
    pub start: Point,
    pub pq: Option<Point>,
    pub pc: Option<Point>,
}

/// The state a fresh path element starts from: the origin, no control
/// history.
pub open spec fn init_walk() -> WalkState {
    WalkState {
        cur: Point { x: 0, y: 0 },
        start: Point { x: 0, y: 0 },
        pq: None,
        pc: None,
    }
}

/// A point inside the operand range.
pub open spec fn pt_wf(p: Point) -> bool {
    -OPERAND_MAX <= p.x <= OPERAND_MAX && -OPERAND_MAX <= p.y <= OPERAND_MAX
}

/// A well-formed interpreter state: every retained point is in range.
pub open spec fn state_wf(w: WalkState) -> bool {
    &&& pt_wf(w.cur)
    &&& pt_wf(w.start)
    &&& match w.pq {
        Some(p) => pt_wf(p),
        None => true,
    }
    &&& match w.pc {
        Some(p) => pt_wf(p),
        None => true,
    }
}

/// A pair saturated into the operand range, as a point.
pub open spec fn mk_pt(x: int, y: int) -> Point {
    Point {
        x: fclamp(x, OPERAND_MAX as int) as i128,
        y: fclamp(y, OPERAND_MAX as int) as i128,
    }
}

/// An operand divided by its axis scale, saturated.
pub open spec fn sc(v: int, s: int) -> int {
    fclamp(fdiv(v, s), OPERAND_MAX as int)
}

/// An operand divided by its axis scale and flipped, saturated.
pub open spec fn scf(v: int, s: int) -> int {
    fclamp(FLIP_FX - fdiv(v, s), OPERAND_MAX as int)
}

/// The reflection of `p` through `cur`, saturated.
pub open spec fn refl(cur: Point, p: Point) -> Point {
    Point {
        x: fclamp(2 * cur.x - p.x, OPERAND_MAX as int) as i128,
        y: fclamp(2 * cur.y - p.y, OPERAND_MAX as int) as i128,
    }
}

/// One quadratic sample: the Bernstein sum at step `i`, then the transform.
pub open spec fn quad_sample(
    t: Transform,
    sx: int,
    sy: int,
    p0: Point,
    p1: Point,
    p2: Point,
    i: int,
) -> Point {
    let bx = crate::bezier::spec_quad_coord(p0.x as int, p1.x as int, p2.x as int, i);
    let by = crate::bezier::spec_quad_coord(p0.y as int, p1.y as int, p2.y as int, i);
    let tp = spec_apply(t, bx, by, sx, sy);
    mk_pt(tp.0, tp.1)
}

/// One cubic sample: the Bernstein sum at step `i`, the y coordinate
/// flipped before the transform while x is not.
pub open spec fn cubic_sample(
    t: Transform,
    sx: int,
    sy: int,
    p0: Point,
    p1: Point,
    p2: Point,
    p3: Point,
    i: int,
) -> Point {
    let bx = crate::bezier::spec_cubic_coord(p0.x as int, p1.x as int, p2.x as int, p3.x as int, i);
    let by = crate::bezier::spec_cubic_coord(p0.y as int, p1.y as int, p2.y as int, p3.y as int, i);
    let byf = fclamp(FLIP_FX - by, OPERAND_MAX as int);
    let tp = spec_apply(t, bx, byf, sx, sy);
    mk_pt(tp.0, tp.1)
}

/// What one command does to the interpreter: the points it emits and the
/// next state — the contract of the interpreter, command by command.
#[verifier::opaque]
pub open spec fn spec_step(cmd: PathCommand, t: Transform, sx: int, sy: int, w: WalkState) -> Result<
    (Seq<Point>, WalkState),
    SvgError,
> {
    match cmd {
        PathCommand::Move(x, y) => {
            let tp = spec_apply(t, sc(x as int, sx), sc(y as int, sy), sx, sy);
            let p = mk_pt(tp.0, FLIP_FX - tp.1);
            Ok((seq![p], WalkState { cur: p, start: p, pq: None, pc: None }))
        },
        PathCommand::Line(x, y) => {
            let tp = spec_apply(t, sc(x as int, sx), sc(y as int, sy), sx, sy);
            let p = mk_pt(tp.0, FLIP_FX - tp.1);
            Ok((seq![p], WalkState { cur: p, start: w.start, pq: None, pc: None }))
        },
        PathCommand::Horizontal(x) => {
            let tp = spec_apply(t, sc(x as int, sx), w.cur.y as int, sx, sy);
            let p = mk_pt(tp.0, tp.1);
            Ok((seq![p], WalkState { cur: p, start: w.start, pq: None, pc: None }))
        },
        PathCommand::Vertical(y) => {
            let tp = spec_apply(t, w.cur.x as int, sc(y as int, sy), sx, sy);
            let p = mk_pt(tp.0, tp.1);
            Ok((seq![p], WalkState { cur: p, start: w.start, pq: None, pc: None }))
        },
        PathCommand::Close => Ok(
            (seq![w.start], WalkState { cur: w.cur, start: w.start, pq: None, pc: None }),
        ),
        PathCommand::QuadCurve(cx, cy, ex, ey) => {
            let c = Point { x: sc(cx as int, sx) as i128, y: scf(cy as int, sy) as i128 };
            let e = Point { x: sc(ex as int, sx) as i128, y: scf(ey as int, sy) as i128 };
            let pts = Seq::new(100, |i: int| quad_sample(t, sx, sy, w.cur, c, e, i));
            Ok((pts, WalkState { cur: e, start: w.start, pq: Some(c), pc: None }))
        },
        PathCommand::SmoothQuad(ex, ey) => {
            let c = match w.pq {
                Some(p) => refl(w.cur, p),
                None => w.cur,
            };
            let e = Point { x: sc(ex as int, sx) as i128, y: sc(ey as int, sy) as i128 };
            let pts = Seq::new(100, |i: int| quad_sample(t, sx, sy, w.cur, c, e, i));
            Ok((pts, WalkState { cur: e, start: w.start, pq: Some(c), pc: None }))
        },
        PathCommand::CubicCurve(c1x, c1y, c2x, c2y, ex, ey) => {
            let c1 = Point { x: sc(c1x as int, sx) as i128, y: sc(c1y as int, sy) as i128 };
            let c2 = Point { x: sc(c2x as int, sx) as i128, y: sc(c2y as int, sy) as i128 };
            let e = Point { x: sc(ex as int, sx) as i128, y: sc(ey as int, sy) as i128 };
            let pts = Seq::new(100, |i: int| cubic_sample(t, sx, sy, w.cur, c1, c2, e, i));
            Ok((pts, WalkState { cur: e, start: w.start, pq: None, pc: Some(c2) }))
        },
        PathCommand::SmoothCubic(c2x, c2y, ex, ey) => {
            let c1 = match w.pc {
                Some(p) => refl(w.cur, p),
                None => w.cur,
            };
            let c2 = Point { x: sc(c2x as int, sx) as i128, y: sc(c2y as int, sy) as i128 };
            let e = Point { x: sc(ex as int, sx) as i128, y: sc(ey as int, sy) as i128 };
            let pts = Seq::new(100, |i: int| cubic_sample(t, sx, sy, w.cur, c1, c2, e, i));
            Ok((pts, WalkState { cur: e, start: w.start, pq: None, pc: Some(c2) }))
        },
        PathCommand::Arc(rx, ry, rot, laf, sf, ex, ey) => {
            let rxs = fdiv(rx as int, sx);
            let rys = fdiv(ry as int, sy);
            let exs = fdiv(ex as int, sx);
            let eys = fdiv(ey as int, sy);
            if rxs < crate::arc::ARC_R_MIN || rys < crate::arc::ARC_R_MIN {
                Err(SvgError::DegenerateArc)
            } else if rxs > crate::arc::ARC_COORD_MAX || rys > crate::arc::ARC_COORD_MAX || iabs(
                exs,
            ) > crate::arc::ARC_COORD_MAX || iabs(eys) > crate::arc::ARC_COORD_MAX || iabs(
                w.cur.x as int,
            ) > crate::arc::ARC_COORD_MAX || iabs(w.cur.y as int) > crate::arc::ARC_COORD_MAX {
                Err(SvgError::NumericParseError)
            } else {
                let g = crate::arc::spec_arc_geom(
                    w.cur.x as int,
                    w.cur.y as int,
                    rxs,
                    rys,
                    rot as int,
                    laf,
                    sf,
                    exs,
                    eys,
                );
                let pts = Seq::new(
                    101,
                    |j: int|
                        mk_pt(
                            crate::arc::spec_arc_point(g, j, 100).0,
                            crate::arc::spec_arc_point(g, j, 100).1,
                        ),
                );
                Ok(
                    (
                        pts,
                        WalkState {
                            cur: Point { x: exs as i128, y: eys as i128 },
                            start: w.start,
                            pq: None,
                            pc: None,
                        },
                    ),
                )
            }
        },
    }
}

/// What a whole command list does: the concatenation of every step's
/// points, or the first error.
pub open spec fn spec_walk(
    cmds: Seq<PathCommand>,
    t: Transform,
    sx: int,
    sy: int,
    w: WalkState,
) -> Result<(Seq<Point>, WalkState), SvgError>
    decreases cmds.len(),
{
    if cmds.len() == 0 {
        Ok((Seq::empty(), w))
    } else {
        match spec_step(cmds[0], t, sx, sy, w) {
            Ok(pw) => match spec_walk(cmds.skip(1), t, sx, sy, pw.1) {
                Ok(pw2) => Ok((pw.0 + pw2.0, pw2.1)),
                Err(e) => Err(e),
            },
            Err(e) => Err(e),
        }
    }
}

/// A prefix without uppercase letters bounds `find_upper` from below.
proof fn lemma_find_upper_lb(s: Seq<u8>, k: int)
    requires
        0 <= k <= s.len(),
        forall|j: int| 0 <= j < k ==> !is_upper(s[j]),
    ensures
        find_upper(s) >= k,
    decreases s.len(),
{
    if s.len() == 0 || k == 0 {
    } else {
        lemma_find_upper_lb(s.skip(1), k - 1);
    }
}

/// An operand divided by its axis scale, saturated: the executable `sc`.
fn sc_e(v: i128, s: i128) -> (r: i128)
    requires
        -OPERAND_MAX < v < OPERAND_MAX,
        SCALE_MIN <= s <= OPERAND_MAX,
    ensures
        r == sc(v as int, s as int),
        -OPERAND_MAX <= r <= OPERAND_MAX,
{
    let q = fdiv_e(v, s);
    fclamp_e(q, OPERAND_MAX)
}

/// The executable `scf`.
fn scf_e(v: i128, s: i128) -> (r: i128)
    requires
        -OPERAND_MAX < v < OPERAND_MAX,
        SCALE_MIN <= s <= OPERAND_MAX,
    ensures
        r == scf(v as int, s as int),
        -OPERAND_MAX <= r <= OPERAND_MAX,
{
    let q = fdiv_e(v, s);
    proof {
        lemma_fdiv_bound(v as int, s as int, OPERAND_MAX as int, SCALE_MIN as int);
    }
    fclamp_e(FLIP_FX - q, OPERAND_MAX)
}

/// The executable reflection.
fn refl_e(cur: Point, p: Point) -> (r: Point)
    requires
        pt_wf(cur),
        pt_wf(p),
    ensures
        r == refl(cur, p),
        pt_wf(r),
{
    Point { x: fclamp_e(2 * cur.x - p.x, OPERAND_MAX), y: fclamp_e(2 * cur.y - p.y, OPERAND_MAX) }
}

/// Runs the hundred quadratic samples of one curve.
fn quad_run(t: &Transform, sx: i128, sy: i128, p0: Point, p1: Point, p2: Point) -> (r: Vec<Point>)
    requires
        transform_wf(*t),
        SCALE_MIN <= sx <= OPERAND_MAX,
        SCALE_MIN <= sy <= OPERAND_MAX,
        pt_wf(p0),
        pt_wf(p1),
        pt_wf(p2),
    ensures
        r@ =~= Seq::new(100, |i: int| quad_sample(*t, sx as int, sy as int, p0, p1, p2, i)),
        forall|j: int| 0 <= j < r@.len() ==> pt_wf(#[trigger] r@[j]),
{
    let mut out: Vec<Point> = Vec::new();
    let mut i: usize = 0;
    while i < 100
        invariant
            0 <= i <= 100,
            out@.len() == i,
            transform_wf(*t),
            SCALE_MIN <= sx <= OPERAND_MAX,
            SCALE_MIN <= sy <= OPERAND_MAX,
            pt_wf(p0),
            pt_wf(p1),
            pt_wf(p2),
            forall|j: int|
                0 <= j < i ==> #[trigger] out@[j] == quad_sample(
                    *t,
                    sx as int,
                    sy as int,
                    p0,
                    p1,
                    p2,
                    j,
                ) && pt_wf(out@[j]),
        decreases 100 - i,
    {
        let bx = quad_coord(p0.x, p1.x, p2.x, i as i128);
        let by = quad_coord(p0.y, p1.y, p2.y, i as i128);
        let tp = apply_transform(t, bx, by, sx, sy);
        out.push(Point { x: fclamp_e(tp.0, OPERAND_MAX), y: fclamp_e(tp.1, OPERAND_MAX) });
        i += 1;
    }
    out
}

/// Runs the hundred cubic samples of one curve, flipping y before the
/// transform.
fn cubic_run(
    t: &Transform,
    sx: i128,
    sy: i128,
    p0: Point,
    p1: Point,
    p2: Point,
    p3: Point,
) -> (r: Vec<Point>)
    requires
        transform_wf(*t),
        SCALE_MIN <= sx <= OPERAND_MAX,
        SCALE_MIN <= sy <= OPERAND_MAX,
        pt_wf(p0),
        pt_wf(p1),
        pt_wf(p2),
        pt_wf(p3),
    ensures
        r@ =~= Seq::new(100, |i: int| cubic_sample(*t, sx as int, sy as int, p0, p1, p2, p3, i)),
        forall|j: int| 0 <= j < r@.len() ==> pt_wf(#[trigger] r@[j]),
{
    let mut out: Vec<Point> = Vec::new();
    let mut i: usize = 0;
    while i < 100
        invariant
            0 <= i <= 100,
            out@.len() == i,
            transform_wf(*t),
            SCALE_MIN <= sx <= OPERAND_MAX,
            SCALE_MIN <= sy <= OPERAND_MAX,
            pt_wf(p0),
            pt_wf(p1),
            pt_wf(p2),
            pt_wf(p3),
            forall|j: int|
                0 <= j < i ==> #[trigger] out@[j] == cubic_sample(
                    *t,
                    sx as int,
                    sy as int,
                    p0,
                    p1,
                    p2,
                    p3,
                    j,
                ) && pt_wf(out@[j]),
        decreases 100 - i,
    {
        let bx = cubic_coord(p0.x, p1.x, p2.x, p3.x, i as i128);
        let by = cubic_coord(p0.y, p1.y, p2.y, p3.y, i as i128);
        let byf = fclamp_e(FLIP_FX - by, OPERAND_MAX);
        let tp = apply_transform(t, bx, byf, sx, sy);
        out.push(Point { x: fclamp_e(tp.0, OPERAND_MAX), y: fclamp_e(tp.1, OPERAND_MAX) });
        i += 1;
    }
    out
}

/// Executes one command: the contract is exactly `spec_step`.
#[verifier::rlimit(100)]
fn walk_step(cmd: &PathCommand, t: &Transform, sx: i128, sy: i128, w: WalkState) -> (r: Result<
    (Vec<Point>, WalkState),
    SvgError,
>)
    requires
        cmd_wf(*cmd),
        transform_wf(*t),
        state_wf(w),
        SCALE_MIN <= sx <= OPERAND_MAX,
        SCALE_MIN <= sy <= OPERAND_MAX,
    ensures
        match r {
            Ok(pw) => {
                &&& spec_step(*cmd, *t, sx as int, sy as int, w) matches Ok(sp)
                &&& sp.0 =~= pw.0@
                &&& sp.1 == pw.1
                &&& state_wf(pw.1)
                &&& forall|j: int| 0 <= j < pw.0@.len() ==> pt_wf(#[trigger] pw.0@[j])
            },
            Err(e) => spec_step(*cmd, *t, sx as int, sy as int, w) == Err::<
                (Seq<Point>, WalkState),
                SvgError,
            >(e),
        },
{
    proof {
        reveal(spec_step);
    }
    match cmd {
        PathCommand::Move(x, y) => {
            let tp = apply_transform(t, sc_e(*x, sx), sc_e(*y, sy), sx, sy);
            let p = Point { x: fclamp_e(tp.0, OPERAND_MAX), y: fclamp_e(FLIP_FX - tp.1,
                OPERAND_MAX) };
            let mut pts: Vec<Point> = Vec::new();
            pts.push(p);
            proof {
                assert(pts@ =~= seq![p]);
            }
            Ok((pts, WalkState { cur: p, start: p, pq: None, pc: None }))
        },
        PathCommand::Line(x, y) => {
            let tp = apply_transform(t, sc_e(*x, sx), sc_e(*y, sy), sx, sy);
            let p = Point { x: fclamp_e(tp.0, OPERAND_MAX), y: fclamp_e(FLIP_FX - tp.1,
                OPERAND_MAX) };
            let mut pts: Vec<Point> = Vec::new();
            pts.push(p);
            proof {
                assert(pts@ =~= seq![p]);
            }
            Ok((pts, WalkState { cur: p, start: w.start, pq: None, pc: None }))
        },
        PathCommand::Horizontal(x) => {
            let tp = apply_transform(t, sc_e(*x, sx), w.cur.y, sx, sy);
            let p = Point { x: fclamp_e(tp.0, OPERAND_MAX), y: fclamp_e(tp.1, OPERAND_MAX) };
            let mut pts: Vec<Point> = Vec::new();
            pts.push(p);
            proof {
                assert(pts@ =~= seq![p]);
            }
            Ok((pts, WalkState { cur: p, start: w.start, pq: None, pc: None }))
        },
        PathCommand::Vertical(y) => {
            let tp = apply_transform(t, w.cur.x, sc_e(*y, sy), sx, sy);
            let p = Point { x: fclamp_e(tp.0, OPERAND_MAX), y: fclamp_e(tp.1, OPERAND_MAX) };
            let mut pts: Vec<Point> = Vec::new();
            pts.push(p);
            proof {
                assert(pts@ =~= seq![p]);
            }
            Ok((pts, WalkState { cur: p, start: w.start, pq: None, pc: None }))
        },
        PathCommand::Close => {
            let mut pts: Vec<Point> = Vec::new();
            pts.push(w.start);
            proof {
                assert(pts@ =~= seq![w.start]);
            }
            Ok((pts, WalkState { cur: w.cur, start: w.start, pq: None, pc: None }))
        },
        PathCommand::QuadCurve(cx, cy, ex, ey) => {
            let c = Point { x: sc_e(*cx, sx), y: scf_e(*cy, sy) };
            let e = Point { x: sc_e(*ex, sx), y: scf_e(*ey, sy) };
            let pts = quad_run(t, sx, sy, w.cur, c, e);
            Ok((pts, WalkState { cur: e, start: w.start, pq: Some(c), pc: None }))
        },
        PathCommand::SmoothQuad(ex, ey) => {
            let c = match w.pq {
                Some(p) => refl_e(w.cur, p),
                None => w.cur,
            };
            let e = Point { x: sc_e(*ex, sx), y: sc_e(*ey, sy) };
            let pts = quad_run(t, sx, sy, w.cur, c, e);
            Ok((pts, WalkState { cur: e, start: w.start, pq: Some(c), pc: None }))
        },
        PathCommand::CubicCurve(c1x, c1y, c2x, c2y, ex, ey) => {
            let c1 = Point { x: sc_e(*c1x, sx), y: sc_e(*c1y, sy) };
            let c2 = Point { x: sc_e(*c2x, sx), y: sc_e(*c2y, sy) };
            let e = Point { x: sc_e(*ex, sx), y: sc_e(*ey, sy) };
            let pts = cubic_run(t, sx, sy, w.cur, c1, c2, e);
            Ok((pts, WalkState { cur: e, start: w.start, pq: None, pc: Some(c2) }))
        },
        PathCommand::SmoothCubic(c2x, c2y, ex, ey) => {
            let c1 = match w.pc {
                Some(p) => refl_e(w.cur, p),
                None => w.cur,
            };
            let c2 = Point { x: sc_e(*c2x, sx), y: sc_e(*c2y, sy) };
            let e = Point { x: sc_e(*ex, sx), y: sc_e(*ey, sy) };
            let pts = cubic_run(t, sx, sy, w.cur, c1, c2, e);
            Ok((pts, WalkState { cur: e, start: w.start, pq: None, pc: Some(c2) }))
        },
        PathCommand::Arc(rx, ry, rot, laf, sf, ex, ey) => {
            let rxs = fdiv_e(*rx, sx);
            let rys = fdiv_e(*ry, sy);
            let exs = fdiv_e(*ex, sx);
            let eys = fdiv_e(*ey, sy);
            if rxs < crate::arc::ARC_R_MIN || rys < crate::arc::ARC_R_MIN {
                return Err(SvgError::DegenerateArc);
            }
            let axs = if exs < 0 {
                -exs
            } else {
                exs
            };
            let ays = if eys < 0 {
                -eys
            } else {
                eys
            };
            let acx = if w.cur.x < 0 {
                -w.cur.x
            } else {
                w.cur.x
            };
            let acy = if w.cur.y < 0 {
                -w.cur.y
            } else {
                w.cur.y
            };
            if rxs > crate::arc::ARC_COORD_MAX || rys > crate::arc::ARC_COORD_MAX || axs
                > crate::arc::ARC_COORD_MAX || ays > crate::arc::ARC_COORD_MAX || acx
                > crate::arc::ARC_COORD_MAX || acy > crate::arc::ARC_COORD_MAX {
                return Err(SvgError::NumericParseError);
            }
            let raw = crate::arc::elliptical_arc(
                (w.cur.x, w.cur.y),
                (rxs, rys),
                *rot,
                *laf,
                *sf,
                (exs, eys),
                100,
            );
            let ghost g = crate::arc::spec_arc_geom(
                w.cur.x as int,
                w.cur.y as int,
                rxs as int,
                rys as int,
                *rot as int,
                *laf,
                *sf,
                exs as int,
                eys as int,
            );
            let mut pts: Vec<Point> = Vec::new();
            let mut j: usize = 0;
            while j < raw.len()
                invariant
                    0 <= j <= raw@.len(),
                    pts@.len() == j,
                    forall|k: int|
                        0 <= k < raw@.len() ==> (#[trigger] raw@[k]).x
                            == crate::arc::spec_arc_point(g, k, 100).0 && raw@[k].y
                            == crate::arc::spec_arc_point(g, k, 100).1,
                    forall|k: int|
                        0 <= k < j ==> #[trigger] pts@[k] == mk_pt(
                            crate::arc::spec_arc_point(g, k, 100).0,
                            crate::arc::spec_arc_point(g, k, 100).1,
                        ) && pt_wf(pts@[k]),
                decreases raw@.len() - j,
            {
                let p = raw[j];
                pts.push(
                    Point {
                        x: fclamp_e(p.x, OPERAND_MAX),
                        y: fclamp_e(p.y, OPERAND_MAX),
                    },
                );
                j += 1;
            }
            proof {
                assert(pts@ =~= Seq::new(
                    101,
                    |k: int|
                        mk_pt(
                            crate::arc::spec_arc_point(g, k, 100).0,
                            crate::arc::spec_arc_point(g, k, 100).1,
                        ),
                ));
            }
            Ok(
                (
                    pts,
                    WalkState {
                        cur: Point { x: exs, y: eys },
                        start: w.start,
                        pq: None,
                        pc: None,
                    },
                ),
            )
        },
    }
}

/// Interprets a command list from the fresh state: the contract is exactly
/// `spec_walk`.
#[verifier::rlimit(100)]
pub fn walk_path(cmds: &Vec<PathCommand>, t: &Transform, sx: i128, sy: i128) -> (r: Result<
    Vec<Point>,
    SvgError,
>)
    requires
        forall|j: int| 0 <= j < cmds@.len() ==> cmd_wf(#[trigger] cmds@[j]),
        transform_wf(*t),
        SCALE_MIN <= sx <= OPERAND_MAX,
        SCALE_MIN <= sy <= OPERAND_MAX,
    ensures
        match r {
            Ok(pts) => {
                &&& spec_walk(cmds@, *t, sx as int, sy as int, init_walk()) matches Ok(pw)
                &&& pw.0 =~= pts@
                &&& forall|j: int| 0 <= j < pts@.len() ==> pt_wf(#[trigger] pts@[j])
            },
            Err(e) => spec_walk(cmds@, *t, sx as int, sy as int, init_walk()) == Err::<
                (Seq<Point>, WalkState),
                SvgError,
            >(e),
        },
{
    let mut out: Vec<Point> = Vec::new();
    let mut w = WalkState {
        cur: Point { x: 0, y: 0 },
        start: Point { x: 0, y: 0 },
        pq: None,
        pc: None,
    };
    let mut k: usize = 0;
    proof {
        assert(cmds@.skip(0) =~= cmds@);
        assert(w == init_walk());
    }
    while k < cmds.len()
        invariant
            0 <= k <= cmds@.len(),
            forall|j: int| 0 <= j < cmds@.len() ==> cmd_wf(#[trigger] cmds@[j]),
            transform_wf(*t),
            SCALE_MIN <= sx <= OPERAND_MAX,
            SCALE_MIN <= sy <= OPERAND_MAX,
            state_wf(w),
            forall|j: int| 0 <= j < out@.len() ==> pt_wf(#[trigger] out@[j]),
            match spec_walk(cmds@.skip(k as int), *t, sx as int, sy as int, w) {
                Ok(pw) => spec_walk(cmds@, *t, sx as int, sy as int, init_walk()) == Ok::<
                    (Seq<Point>, WalkState),
                    SvgError,
                >((out@ + pw.0, pw.1)),
                Err(e) => spec_walk(cmds@, *t, sx as int, sy as int, init_walk()) == Err::<
                    (Seq<Point>, WalkState),
                    SvgError,
                >(e),
            },
        decreases cmds@.len() - k,
    {
        proof {
            assert(cmds@.skip(k as int)[0] == cmds@[k as int]);
            assert(cmds@.skip(k as int).skip(1) =~= cmds@.skip(k as int + 1));
        }
        let ghost out_prev = out@;
        let step = walk_step(&cmds[k], t, sx, sy, w);
        match step {
            Ok(pw) => {
                let (mut ps, w2) = pw;
                let ghost ps_seq = ps@;
                out.append(&mut ps);
                w = w2;
                proof {
                    assert(out@ =~= out_prev + ps_seq);
                    let tailr = spec_walk(cmds@.skip(k as int + 1), *t, sx as int, sy as int, w2);
                    if tailr is Ok {
                        let pw2 = tailr.unwrap();
                        assert(out_prev + (ps_seq + pw2.0) =~= (out_prev + ps_seq) + pw2.0);
                    }
                }
            },
            Err(e) => {
                return Err(e);
            },
        }
        k += 1;
    }
    proof {
        assert(cmds@.skip(k as int) =~= Seq::<PathCommand>::empty());
        assert(out@ + Seq::<Point>::empty() =~= out@);
    }
    Ok(out)
}

/// What one path element renders to: its flattened outline and, when the
/// style declares a fill color and the outline is non-empty, the
/// bounding-box fill cells.
pub open spec fn spec_draw_path(
    d: Seq<u8>,
    tr: Seq<u8>,
    style: Seq<u8>,
    sx: int,
    sy: int,
) -> Result<(Seq<Point>, Option<Seq<Point>>), SvgError> {
    match spec_parse_transform(tr) {
        None => Err(SvgError::NumericParseError),
        Some(t) => match spec_parse_path(d) {
            Err(e) => Err(e),
            Ok(cmds) => match spec_walk(cmds, t, sx, sy, init_walk()) {
                Err(e) => Err(e),
                Ok(pw) => {
                    let fill = if spec_style_has_fill(style) && pw.0.len() > 0 {
                        Some(spec_bbox_cells(pw.0))
                    } else {
                        None
                    };
                    Ok((pw.0, fill))
                },
            },
        },
    }
}

/// Interprets one path element: tokenizes and types its commands, walks
/// them under its transform, and derives the fill cells.  The contract is
/// exactly `spec_draw_path`.
pub fn draw_path(d: &[u8], transform_attr: &[u8], style: &[u8], sx: i128, sy: i128) -> (r: Result<
    (Vec<Point>, Option<Vec<Point>>),
    SvgError,
>)
    requires
        SCALE_MIN <= sx <= OPERAND_MAX,
        SCALE_MIN <= sy <= OPERAND_MAX,
    ensures
        match r {
            Ok(pf) => {
                &&& spec_draw_path(d@, transform_attr@, style@, sx as int, sy as int) matches Ok(
                sp)
                &&& sp.0 =~= pf.0@
                &&& match (sp.1, pf.1) {
                    (Some(sf), Some(vf)) => sf =~= vf@,
                    (None, None) => true,
                    _ => false,
                }
                &&& forall|j: int| 0 <= j < pf.0@.len() ==> pt_wf(#[trigger] pf.0@[j])
            },
            Err(e) => spec_draw_path(d@, transform_attr@, style@, sx as int, sy as int) == Err::<
                (Seq<Point>, Option<Seq<Point>>),
                SvgError,
            >(e),
        },
{
    let t = match parse_transform(transform_attr) {
        Ok(t) => t,
        Err(e) => {
            return Err(e);
        },
    };
    let cmds = match parse_path(d) {
        Ok(c) => c,
        Err(e) => {
            return Err(e);
        },
    };
    let pts = match walk_path(&cmds, &t, sx, sy) {
        Ok(p) => p,
        Err(e) => {
            return Err(e);
        },
    };
    let fill: Option<Vec<Point>> = if style_has_fill(style) && pts.len() > 0 {
        Some(bbox_fill(&pts))
    } else {
        None
    };
    Ok((pts, fill))
}

/// A path of one `M` and one `Z` emits exactly two points, and both are
/// the transformed, flipped `M` target: the close returns to the subpath
/// start.
#[verifier::rlimit(100)]
pub proof fn lemma_move_close_two_points(x: i128, y: i128, t: Transform, sx: int, sy: int)
    ensures
        ({
            let r = spec_walk(
                seq![PathCommand::Move(x, y), PathCommand::Close],
                t,
                sx,
                sy,
                init_walk(),
            );
            let tp = spec_apply(t, sc(x as int, sx), sc(y as int, sy), sx, sy);
            let p = mk_pt(tp.0, FLIP_FX - tp.1);
            &&& r is Ok
            &&& r.unwrap().0 =~= seq![p, p]
            &&& r.unwrap().0.len() == 2
            &&& r.unwrap().0[0] == r.unwrap().0[1]
        }),
{
    reveal(spec_step);
    let cmds = seq![PathCommand::Move(x, y), PathCommand::Close];
    let tp = spec_apply(t, sc(x as int, sx), sc(y as int, sy), sx, sy);
    let p = mk_pt(tp.0, FLIP_FX - tp.1);
    let w1 = WalkState { cur: p, start: p, pq: None, pc: None };
    assert(spec_step(cmds[0], t, sx, sy, init_walk()) == Ok::<(Seq<Point>, WalkState), SvgError>(
        (seq![p], w1),
    ));
    assert(cmds.skip(1) =~= seq![PathCommand::Close]);
    assert(spec_step(PathCommand::Close, t, sx, sy, w1) == Ok::<
        (Seq<Point>, WalkState),
        SvgError,
    >((seq![p], WalkState { cur: p, start: p, pq: None, pc: None })));
    assert(seq![PathCommand::Close].skip(1) =~= Seq::<PathCommand>::empty());
    let w2 = WalkState { cur: p, start: p, pq: None, pc: None };
    assert(spec_walk(Seq::<PathCommand>::empty(), t, sx, sy, w2) == Ok::<
        (Seq<Point>, WalkState),
        SvgError,
    >((Seq::<Point>::empty(), w2)));
    assert(spec_walk(seq![PathCommand::Close], t, sx, sy, w1) == Ok::<
        (Seq<Point>, WalkState),
        SvgError,
    >((seq![p] + Seq::<Point>::empty(), w2)));
    assert(spec_walk(cmds, t, sx, sy, init_walk()) == Ok::<(Seq<Point>, WalkState), SvgError>(
        (seq![p] + (seq![p] + Seq::<Point>::empty()), w2),
    ));
    assert(seq![p] + (seq![p] + Seq::<Point>::empty()) =~= seq![p, p]);
}

/// `find_upper` never passes the length.
proof fn lemma_find_upper_ub(s: Seq<u8>)
    ensures
        find_upper(s) <= s.len(),
    decreases s.len(),
{
    if s.len() > 0 && !is_upper(s[0]) {
        lemma_find_upper_ub(s.skip(1));
    }
}

} // verus!
